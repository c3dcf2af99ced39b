//! A client that is acquired for a scope and gives its reference back when
//! the scope ends.

use crate::capabilities::CapabilitiesSummary;
use crate::error::PoolError;
use crate::language::{detect_language, language_of_path, Language};
use crate::model::{Acquisition, Matching};
use crate::pool::LspClientPool;
use vstd::prelude::*;

verus! {

/// One acquisition, from the decision to the release of its reference.
///
/// The guard is made by `new`, which runs the first phase of an acquisition.
/// Where that phase shared a record, the guard holds a reference at once.
/// Where it asked for a launch, the guard holds none until the launched
/// client is handed to `attach`. `release` gives back what the guard holds.
#[must_use]
#[derive(Debug, PartialEq, Eq)]
pub struct ScopedClient {
    language: Language,
    acquisition: Acquisition,
    installed: Option<u64>,
}

impl ScopedClient {
    /// The language that the file named.
    pub closed spec fn language(&self) -> Language {
        self.language
    }

    /// What the first phase of the acquisition decided.
    pub closed spec fn acquisition(&self) -> Acquisition {
        self.acquisition
    }

    /// The identifier of the client that was launched for this guard.
    pub closed spec fn installed(&self) -> Option<u64> {
        self.installed
    }

    /// The identifier of the record that the guard holds a reference to.
    pub open spec fn held(&self) -> Option<u64> {
        match self.acquisition() {
            Acquisition::Reused { instance_id } => Some(instance_id),
            Acquisition::OverSubscribed { instance_id } => Some(instance_id),
            Acquisition::Launch { .. } => self.installed(),
        }
    }

    /// A guard as `new` makes it: nothing installed yet.
    pub open spec fn fresh(&self, language: Language, acquisition: Acquisition) -> bool {
        &&& self.language() == language
        &&& self.acquisition() == acquisition
        &&& self.installed() is None
    }

    /// Acquires a client for the file `file_path` in the project at
    /// `project_root`, as `get_or_create_client` does, and keeps what was
    /// decided. The guard has to be handed to `release` when the scope
    /// ends: a guard that is only dropped keeps its reference.
    #[must_use]
    pub fn new(pool: &mut LspClientPool, file_path: &str, project_root: &str, now: u64) -> (result: Result<ScopedClient, PoolError>)
        requires
            old(pool).wf(),
            old(pool)@.has_headroom(),
        ensures
            final(pool).wf(),
            match language_of_path(file_path@) {
                Some(language) => {
                    let (after, decision) = old(pool)@.acquire(
                        Matching::LeastLoaded,
                        language.id(),
                        project_root@,
                        now,
                    );
                    &&& final(pool)@ == after
                    &&& result matches Ok(scoped)
                    &&& scoped.fresh(language, decision)
                },
                None => final(pool)@ == old(pool)@ && result matches Err(
                    PoolError::UnsupportedLanguage,
                ),
            },
    {
        let language = match detect_language(file_path) {
            Some(language) => language,
            None => {
                return Err(PoolError::UnsupportedLanguage);
            },
        };
        match pool.get_or_create_client(file_path, project_root, now) {
            Ok(acquisition) => Ok(ScopedClient { language, acquisition, installed: None }),
            Err(error) => Err(error),
        }
    }

    /// The identifier of the record that the guard holds a reference to;
    /// none while the launch that the acquisition asked for is outstanding.
    pub fn client(&self) -> (instance_id: Option<u64>)
        ensures
            instance_id == self.held(),
    {
        match self.acquisition {
            Acquisition::Reused { instance_id } => Some(instance_id),
            Acquisition::OverSubscribed { instance_id } => Some(instance_id),
            Acquisition::Launch { .. } => self.installed,
        }
    }

    /// The identifier of the language's language server.
    pub fn language_id(&self) -> (id: &'static str)
        ensures
            id@ == self.language().id(),
    {
        self.language.language_id()
    }

    /// The record that had to make room for the launch, if one had to.
    pub fn evicted(&self) -> (instance_id: Option<u64>)
        ensures
            instance_id == match self.acquisition() {
                Acquisition::Launch { evicted } => evicted,
                _ => None,
            },
    {
        match self.acquisition {
            Acquisition::Launch { evicted } => evicted,
            _ => None,
        }
    }

    /// Hands the launched client to the pool: the second phase of an
    /// acquisition that asked for a launch. A guard that already holds a
    /// reference stays as it is, and so does the pool.
    pub fn attach(&mut self, pool: &mut LspClientPool, project_root: &str, capabilities: CapabilitiesSummary, now: u64)
        requires
            old(pool).wf(),
            old(pool)@.has_headroom(),
        ensures
            final(pool).wf(),
            final(self).language() == old(self).language(),
            final(self).acquisition() == old(self).acquisition(),
            old(self).held() is Some ==> final(pool)@ == old(pool)@ && final(self).installed()
                == old(self).installed(),
            old(self).held() is None ==> final(pool)@ == old(pool)@.register(
                old(self).language().id(),
                project_root@,
                capabilities,
                now,
            ) && final(self).installed() == Some(old(pool)@.next_instance_id),
    {
        if self.client().is_some() {
            return ;
        }
        proof {
            crate::language::lemma_languages_distinct(self.language);
        }
        match pool.install_client(self.language.language_id(), project_root, capabilities, now) {
            Ok(instance_id) => {
                self.installed = Some(instance_id);
            },
            Err(_) => {},
        }
    }

    /// Ends the scope: the reference that the guard holds goes back to the
    /// pool. A guard whose launch never came gives nothing back.
    pub fn release(self, pool: &mut LspClientPool)
        requires
            old(pool).wf(),
        ensures
            final(pool).wf(),
            final(pool)@ == if self.held() is Some {
                old(pool)@.release(self.language().id())
            } else {
                old(pool)@
            },
    {
        if self.client().is_some() {
            pool.release_client(self.language.language_id());
        }
    }
}

} // verus!
