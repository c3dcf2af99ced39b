//! Warming a pool up: one client per requested language, before the real
//! work begins.
//!
//! The host walks through the languages. For each it calls `begin`, which
//! shares a record or asks for a launch; after a launch it reports with
//! `launched` or `launch_failed`. A language that fails is noted and the
//! walk goes on.

use crate::capabilities::CapabilitiesSummary;
use crate::language::Language;
use crate::model::{Acquisition, Matching};
use crate::pool::LspClientPool;
use crate::retry::{CreationAttempts, LaunchPlan};
use crate::text::owned;
use vstd::prelude::*;

verus! {

/// Which languages were warmed up, and which were not.
#[derive(Clone, Debug, PartialEq, Eq)]
pub struct WarmUpReport {
    /// The languages that have a client now, in the order of the walk.
    pub successful: Vec<String>,
    /// The languages for which no client could be had.
    pub failed: Vec<String>,
}

/// The lists of a report, as sequences of language identifiers.
pub struct ReportModel {
    pub successful: Seq<Seq<char>>,
    pub failed: Seq<Seq<char>>,
}

impl View for WarmUpReport {
    type V = ReportModel;

    open spec fn view(&self) -> ReportModel {
        ReportModel {
            successful: Seq::new(self.successful@.len(), |i: int| self.successful@[i]@),
            failed: Seq::new(self.failed@.len(), |i: int| self.failed@[i]@),
        }
    }
}

impl ReportModel {
    pub open spec fn succeeded(self, language: Seq<char>) -> ReportModel {
        ReportModel { successful: self.successful.push(language), ..self }
    }

    pub open spec fn failed_for(self, language: Seq<char>) -> ReportModel {
        ReportModel { failed: self.failed.push(language), ..self }
    }
}

/// What `begin` leaves for the host to do.
#[derive(Clone, Debug, PartialEq, Eq)]
pub enum WarmUpStep {
    /// Nothing: the language is noted in the report.
    Settled,
    /// Launch a client with these attempts, then report.
    Launch(CreationAttempts),
}

impl WarmUpReport {
    /// A report of a walk that has not begun.
    pub fn new() -> (report: Self)
        ensures
            report@.successful == Seq::<Seq<char>>::empty(),
            report@.failed == Seq::<Seq<char>>::empty(),
    {
        let report = WarmUpReport { successful: Vec::new(), failed: Vec::new() };
        assert(report@.successful =~= Seq::empty());
        assert(report@.failed =~= Seq::empty());
        report
    }

    fn note_success(&mut self, language_id: &str)
        ensures
            final(self)@ == old(self)@.succeeded(language_id@),
    {
        self.successful.push(owned(language_id));
        assert(self@.successful =~= old(self)@.successful.push(language_id@));
        assert(self@.failed =~= old(self)@.failed);
    }

    fn note_failure(&mut self, language_id: &str)
        ensures
            final(self)@ == old(self)@.failed_for(language_id@),
    {
        self.failed.push(owned(language_id));
        assert(self@.failed =~= old(self)@.failed.push(language_id@));
        assert(self@.successful =~= old(self)@.successful);
    }

    /// Whether every language of the walk has a client.
    pub fn all_succeeded(&self) -> (yes: bool)
        ensures
            yes == (self@.failed.len() == 0),
    {
        self.failed.len() == 0
    }

    /// The first phase for `language_id`: acquires a client as
    /// `get_or_create_client_for_language` does.
    ///
    /// A shared record settles the language as successful. An unsupported
    /// language, and a pool that allows no launch attempt, settle it as
    /// failed. Otherwise a launch is due.
    pub fn begin(&mut self, pool: &mut LspClientPool, language_id: &str, project_root: &str, now: u64) -> (step: WarmUpStep)
        requires
            old(pool).wf(),
            old(pool)@.has_headroom(),
        ensures
            final(pool).wf(),
            match Language::with_id(language_id@) {
                None => {
                    &&& final(pool)@ == old(pool)@
                    &&& final(self)@ == old(self)@.failed_for(language_id@)
                    &&& step == WarmUpStep::Settled
                },
                Some(language) => {
                    let (after, decision) = old(pool)@.acquire(
                        Matching::FirstMatch,
                        language_id@,
                        project_root@,
                        now,
                    );
                    &&& final(pool)@ == after
                    &&& if !(decision is Launch) {
                        final(self)@ == old(self)@.succeeded(language_id@) && step
                            == WarmUpStep::Settled
                    } else if after.config.max_retries == 0 {
                        final(self)@ == old(self)@.failed_for(language_id@) && step
                            == WarmUpStep::Settled
                    } else {
                        final(self)@ == old(self)@ && step == WarmUpStep::Launch(
                            CreationAttempts {
                                plan: LaunchPlan {
                                    language,
                                    init_timeout: after.config.init_timeout,
                                },
                                max_retries: after.config.max_retries,
                                failed: 0,
                            },
                        )
                    }
                },
            },
            step matches WarmUpStep::Launch(attempts) ==> attempts.wf(),
    {
        match pool.get_or_create_client_for_language(language_id, project_root, now) {
            Ok(Acquisition::Launch { .. }) => {
                match pool.create_client_with_retry(language_id) {
                    Ok(attempts) => WarmUpStep::Launch(attempts),
                    Err(_) => {
                        self.note_failure(language_id);
                        WarmUpStep::Settled
                    },
                }
            },
            Ok(_) => {
                self.note_success(language_id);
                WarmUpStep::Settled
            },
            Err(_) => {
                self.note_failure(language_id);
                WarmUpStep::Settled
            },
        }
    }

    /// The second phase for `language_id` after a launch that succeeded:
    /// the client goes into the pool and the language is noted as
    /// successful. Returns the identifier of the client's record. An
    /// unsupported language is noted as failed, and no record is made.
    pub fn launched(&mut self, pool: &mut LspClientPool, language_id: &str, project_root: &str, capabilities: CapabilitiesSummary, now: u64) -> (instance_id: Option<u64>)
        requires
            old(pool).wf(),
            old(pool)@.has_headroom(),
        ensures
            final(pool).wf(),
            match Language::with_id(language_id@) {
                Some(_) => {
                    &&& final(pool)@ == old(pool)@.register(
                        language_id@,
                        project_root@,
                        capabilities,
                        now,
                    )
                    &&& final(self)@ == old(self)@.succeeded(language_id@)
                    &&& instance_id == Some(old(pool)@.next_instance_id)
                },
                None => {
                    &&& final(pool)@ == old(pool)@
                    &&& final(self)@ == old(self)@.failed_for(language_id@)
                    &&& instance_id is None
                },
            },
    {
        match pool.install_client(language_id, project_root, capabilities, now) {
            Ok(instance_id) => {
                self.note_success(language_id);
                Some(instance_id)
            },
            Err(_) => {
                self.note_failure(language_id);
                None
            },
        }
    }

    /// The second phase for `language_id` after a creation that was given
    /// up: the language is noted as failed.
    pub fn launch_failed(&mut self, language_id: &str)
        ensures
            final(self)@ == old(self)@.failed_for(language_id@),
    {
        self.note_failure(language_id);
    }
}

} // verus!
