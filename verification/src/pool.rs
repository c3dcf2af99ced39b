//! The pool manager: records of live clients by language, shared by
//! reference counting and recycled when idle.

use crate::capabilities::CapabilitiesSummary;
use crate::config::PoolConfig;
use crate::error::PoolError;
use crate::language::{detect_language, language_of_path, Language};
use crate::model::{
    active_clients, active_count, expired, expired_in, ids_ordered, lemma_cleanup_wf,
    lemma_select_none, lemma_select_some, lemma_select_unique, lemma_slot_found,
    lemma_with_clients, swept, swept_slots, total_clients, Acquisition, ClientRecord,
    LanguageSlot, Matching, PoolModel, Selection,
};
use crate::text::{owned, str_eq};
use vstd::prelude::*;

verus! {

/// The pool's bookkeeping for one live client.
#[derive(Clone, Debug, PartialEq, Eq)]
pub struct PooledClient {
    /// Identifier handed out when the record was created.
    pub instance_id: u64,
    /// Project root the client was initialized against.
    pub project_root: String,
    /// Time of the last acquisition, in milliseconds on the host's clock.
    pub last_used: u64,
    /// Outstanding references.
    pub ref_count: usize,
    /// Capabilities captured when the client was created.
    pub capabilities_summary: CapabilitiesSummary,
}

impl View for PooledClient {
    type V = ClientRecord;

    open spec fn view(&self) -> ClientRecord {
        ClientRecord {
            instance_id: self.instance_id,
            project_root: self.project_root@,
            last_used: self.last_used,
            ref_count: self.ref_count as nat,
            capabilities: self.capabilities_summary,
        }
    }
}

/// The records behind a vector of pooled clients.
pub open spec fn records_of(clients: Seq<PooledClient>) -> Seq<ClientRecord> {
    Seq::new(clients.len(), |i: int| clients[i]@)
}

/// The clients of one language.
struct LanguageEntry {
    language_id: String,
    instances: Vec<PooledClient>,
}

impl View for LanguageEntry {
    type V = LanguageSlot;

    closed spec fn view(&self) -> LanguageSlot {
        LanguageSlot { language: self.language_id@, clients: records_of(self.instances@) }
    }
}

/// A selection rule in executable form.
enum Selector<'a> {
    LeastLoaded(&'a str),
    FirstWithRoot(&'a str),
    OldestIdle,
    FirstReferenced,
}

impl<'a> View for Selector<'a> {
    type V = Selection;

    closed spec fn view(&self) -> Selection {
        match self {
            Selector::LeastLoaded(root) => Selection::LeastLoaded(root@),
            Selector::FirstWithRoot(root) => Selection::FirstWithRoot(root@),
            Selector::OldestIdle => Selection::OldestIdle,
            Selector::FirstReferenced => Selection::FirstReferenced,
        }
    }
}

impl<'a> Selector<'a> {
    fn eligible(&self, client: &PooledClient) -> (yes: bool)
        ensures
            yes == self@.eligible(client@),
    {
        match self {
            Selector::LeastLoaded(root) => str_eq(client.project_root.as_str(), root),
            Selector::FirstWithRoot(root) => str_eq(client.project_root.as_str(), root),
            Selector::OldestIdle => client.ref_count == 0,
            Selector::FirstReferenced => client.ref_count > 0,
        }
    }

    fn key(&self, client: &PooledClient) -> (key: u64)
        ensures
            key == self@.key(client@),
    {
        match self {
            Selector::LeastLoaded(_) => client.ref_count as u64,
            Selector::FirstWithRoot(_) => 0,
            Selector::OldestIdle => client.last_used,
            Selector::FirstReferenced => 0,
        }
    }

    /// The index that the rule picks among `clients`.
    fn select(&self, clients: &Vec<PooledClient>) -> (picked: Option<usize>)
        ensures
            match picked {
                Some(j) => self@.select(records_of(clients@)) == Some(j as int),
                None => self@.select(records_of(clients@)) is None,
            },
    {
        let ghost records = records_of(clients@);
        let mut best: Option<usize> = None;
        let mut best_key: u64 = 0;
        let mut idx: usize = 0;
        while idx < clients.len()
            invariant
                idx <= clients.len(),
                records == records_of(clients@),
                match best {
                    Some(b) => {
                        &&& b < idx
                        &&& self@.eligible(records[b as int])
                        &&& best_key == self@.key(records[b as int])
                        &&& forall|k: int|
                            0 <= k < idx && self@.eligible(#[trigger] records[k]) ==> {
                                ||| self@.key(records[b as int]) < self@.key(records[k])
                                ||| (self@.key(records[b as int]) == self@.key(records[k]) && b
                                    <= k)
                            }
                    },
                    None => forall|k: int| 0 <= k < idx ==> !self@.eligible(#[trigger] records[k]),
                },
            decreases clients.len() - idx,
        {
            let client = &clients[idx];
            assert(client@ == records[idx as int]);
            if self.eligible(client) {
                let key = self.key(client);
                let better = match best {
                    Some(_) => key < best_key,
                    None => true,
                };
                if better {
                    best = Some(idx);
                    best_key = key;
                }
            }
            idx += 1;
        }
        proof {
            match best {
                Some(b) => {
                    assert(self@.picks(records, b as int));
                    lemma_select_unique(self@, records, b as int);
                },
                None => {
                    lemma_select_none(self@, records);
                },
            }
        }
        best
    }
}

/// A snapshot of the pool's size.
#[derive(Clone, Debug, PartialEq, Eq)]
pub struct PoolStats {
    /// Number of records, over all languages.
    pub total_clients: usize,
    /// Number of records with at least one reference.
    pub active_clients: usize,
    /// The tracked languages.
    pub languages: Vec<String>,
}

/// The pool of language-server clients.
pub struct LspClientPool {
    entries: Vec<LanguageEntry>,
    config: PoolConfig,
    next_instance_id: u64,
}

impl View for LspClientPool {
    type V = PoolModel;

    closed spec fn view(&self) -> PoolModel {
        PoolModel {
            slots: Seq::new(self.entries@.len(), |i: int| self.entries@[i]@),
            config: self.config,
            next_instance_id: self.next_instance_id,
        }
    }
}

impl LspClientPool {
    /// The invariant of the pool: its model is well formed.
    pub open spec fn wf(&self) -> bool {
        self@.wf()
    }

    /// An empty pool with the given configuration.
    pub fn new(config: PoolConfig) -> (pool: Self)
        ensures
            pool.wf(),
            pool@ == PoolModel::empty(config),
    {
        let pool = LspClientPool { entries: Vec::new(), config, next_instance_id: 0 };
        assert(pool@.slots =~= Seq::empty());
        pool
    }

    /// An empty pool with the recommended configuration.
    pub fn with_defaults() -> (pool: Self)
        ensures
            pool.wf(),
            pool@ == PoolModel::empty(PoolConfig::recommended()),
    {
        Self::new(PoolConfig::default())
    }

    /// The configuration the pool was made with.
    pub fn config(&self) -> (config: PoolConfig)
        ensures
            config == self@.config,
    {
        self.config
    }

    /// The position of the entry of `language_id`.
    fn find_entry(&self, language_id: &str) -> (found: Option<usize>)
        requires
            self.wf(),
        ensures
            match found {
                Some(i) => {
                    &&& i < self.entries@.len()
                    &&& self@.tracks(language_id@)
                    &&& self@.slot_of(language_id@) == i
                    &&& self@.clients(language_id@) == records_of(self.entries@[i as int].instances@)
                },
                None => !self@.tracks(language_id@) && self@.clients(language_id@)
                    == Seq::<ClientRecord>::empty(),
            },
    {
        let mut idx: usize = 0;
        while idx < self.entries.len()
            invariant
                self.wf(),
                idx <= self.entries@.len(),
                forall|k: int| 0 <= k < idx ==> (#[trigger] self@.slots[k]).language != language_id@,
            decreases self.entries@.len() - idx,
        {
            if str_eq(self.entries[idx].language_id.as_str(), language_id) {
                proof {
                    assert(self@.slots[idx as int].language == language_id@);
                    lemma_slot_found(self@, idx as int);
                }
                return Some(idx);
            }
            idx += 1;
        }
        None
    }

    /// The first phase of an acquisition, for a language that is known to
    /// be supported.
    fn acquire(&mut self, matching: Matching, language: Language, project_root: &str, now: u64) -> (decision: Acquisition)
        requires
            old(self).wf(),
            old(self)@.has_headroom(),
        ensures
            final(self).wf(),
            final(self)@ == old(self)@.acquire(matching, language.id(), project_root@, now).0,
            decision == old(self)@.acquire(matching, language.id(), project_root@, now).1,
    {
        let language_id = language.language_id();
        let ghost before = *old(self);
        let ghost records = before@.clients(language_id@);
        let i = match self.find_entry(language_id) {
            Some(i) => i,
            None => {
                proof {
                    lemma_select_none(matching.rule(project_root@), records);
                    lemma_select_none(Selection::OldestIdle, records);
                    lemma_with_clients(before@, language_id@, records);
                }
                match matching {
                    Matching::LeastLoaded => {
                        self.entries.push(
                            LanguageEntry {
                                language_id: owned(language_id),
                                instances: Vec::new(),
                            },
                        );
                        proof {
                            let last = self.entries@.len() - 1;
                            assert(records_of(self.entries@[last].instances@) =~= records);
                            assert(self.entries@[last]@ == (LanguageSlot {
                                language: language_id@,
                                clients: records,
                            }));
                            assert forall|k: int| 0 <= k < last implies self.entries@[k]
                                == before.entries@[k] by {}
                            assert(self@.slots =~= before@.with_clients(
                                language_id@,
                                records,
                            ).slots);
                        }
                    },
                    Matching::FirstMatch => {},
                }
                return Acquisition::Launch { evicted: None };
            },
        };
        assert(records == before@.slots[i as int].clients);
        assert(ids_ordered(records, before@.next_instance_id));
        let rule = match matching {
            Matching::LeastLoaded => Selector::LeastLoaded(project_root),
            Matching::FirstMatch => Selector::FirstWithRoot(project_root),
        };
        assert(rule@ == matching.rule(project_root@));
        match rule.select(&self.entries[i].instances) {
            Some(j) => {
                proof {
                    lemma_select_some(rule@, records);
                }
                let instance_id = self.entries[i].instances[j].instance_id;
                self.entries[i].instances[j].last_used = now;
                self.entries[i].instances[j].ref_count += 1;
                proof {
                    let updated = records.update(j as int, records[j as int].touched(now));
                    assert(records_of(self.entries@[i as int].instances@) =~= updated);
                    lemma_entry_changed(before, *self, i as int, language_id@);
                    lemma_with_clients(before@, language_id@, updated);
                }
                Acquisition::Reused { instance_id }
            },
            None => {
                if self.entries[i].instances.len() >= self.config.max_instances_per_language {
                    match Selector::OldestIdle.select(&self.entries[i].instances) {
                        Some(k) => {
                            proof {
                                lemma_select_some(Selection::OldestIdle, records);
                            }
                            let gone = self.entries[i].instances.remove(k);
                            proof {
                                let shorter = records.remove(k as int);
                                assert(records_of(self.entries@[i as int].instances@) =~= shorter);
                                lemma_entry_changed(before, *self, i as int, language_id@);
                                lemma_with_clients(before@, language_id@, shorter);
                            }
                            Acquisition::Launch { evicted: Some(gone.instance_id) }
                        },
                        None => {
                            if self.entries[i].instances.len() > 0 {
                                let instance_id = self.entries[i].instances[0].instance_id;
                                self.entries[i].instances[0].ref_count += 1;
                                proof {
                                    let updated = records.update(0, records[0].shared());
                                    assert(records_of(self.entries@[i as int].instances@)
                                        =~= updated);
                                    lemma_entry_changed(before, *self, i as int, language_id@);
                                    lemma_with_clients(before@, language_id@, updated);
                                }
                                Acquisition::OverSubscribed { instance_id }
                            } else {
                                proof {
                                    lemma_entry_changed(before, *self, i as int, language_id@);
                                    lemma_with_clients(before@, language_id@, records);
                                }
                                Acquisition::Launch { evicted: None }
                            }
                        },
                    }
                } else {
                    proof {
                        lemma_entry_changed(before, *self, i as int, language_id@);
                        lemma_with_clients(before@, language_id@, records);
                    }
                    Acquisition::Launch { evicted: None }
                }
            },
        }
    }
}

impl LspClientPool {
    /// Whether every reference count can still grow by one and one more
    /// identifier can be handed out: what an acquisition asks for.
    pub fn has_headroom(&self) -> (room: bool)
        ensures
            room == self@.has_headroom(),
    {
        if self.next_instance_id == u64::MAX {
            return false;
        }
        let mut i: usize = 0;
        while i < self.entries.len()
            invariant
                i <= self.entries@.len(),
                forall|k: int, a: int|
                    0 <= k < i && 0 <= a < self@.slots[k].clients.len() ==> (
                    #[trigger] self@.slots[k].clients[a]).ref_count < usize::MAX,
            decreases self.entries@.len() - i,
        {
            let mut j: usize = 0;
            while j < self.entries[i].instances.len()
                invariant
                    i < self.entries@.len(),
                    j <= self.entries@[i as int].instances@.len(),
                    forall|a: int|
                        0 <= a < j ==> (#[trigger] self@.slots[i as int].clients[a]).ref_count
                            < usize::MAX,
                decreases self.entries@[i as int].instances@.len() - j,
            {
                if self.entries[i].instances[j].ref_count == usize::MAX {
                    assert(self@.slots[i as int].clients[j as int].ref_count == usize::MAX);
                    return false;
                }
                j += 1;
            }
            i += 1;
        }
        true
    }

    /// Acquires a client for the file `file_path` in the project at
    /// `project_root`, at time `now`: the first phase.
    ///
    /// The language is that of the file's extension. Among its records with
    /// this project root the one with the fewest references is shared, the
    /// first of them where several have as few. Without such a record a
    /// launch is asked for, after the oldest idle record has made room where
    /// the language is at its cap; at the cap with every record busy, the
    /// first record is shared although it is busy. After `Launch` the host
    /// launches a client and hands it to `install_client`; the language is
    /// tracked from the first phase on, also where the launch fails.
    pub fn get_or_create_client(&mut self, file_path: &str, project_root: &str, now: u64) -> (result: Result<Acquisition, PoolError>)
        requires
            old(self).wf(),
            old(self)@.has_headroom(),
        ensures
            final(self).wf(),
            match language_of_path(file_path@) {
                Some(language) => {
                    let (pool, decision) = old(self)@.acquire(
                        Matching::LeastLoaded,
                        language.id(),
                        project_root@,
                        now,
                    );
                    final(self)@ == pool && result == Ok::<Acquisition, PoolError>(decision)
                },
                None => final(self)@ == old(self)@ && result == Err::<Acquisition, PoolError>(
                    PoolError::UnsupportedLanguage,
                ),
            },
    {
        match detect_language(file_path) {
            Some(language) => Ok(self.acquire(Matching::LeastLoaded, language, project_root, now)),
            None => Err(PoolError::UnsupportedLanguage),
        }
    }

    /// Acquires a client for the language `language_id` in the project at
    /// `project_root`, at time `now`: the first phase.
    ///
    /// As `get_or_create_client`, but the first record with this project
    /// root is shared, whatever its load, and a launch that needs no room
    /// leaves the pool as it was: a language that was not tracked is tracked
    /// only once its client is installed.
    pub fn get_or_create_client_for_language(&mut self, language_id: &str, project_root: &str, now: u64) -> (result: Result<Acquisition, PoolError>)
        requires
            old(self).wf(),
            old(self)@.has_headroom(),
        ensures
            final(self).wf(),
            match Language::with_id(language_id@) {
                Some(language) => {
                    let (pool, decision) = old(self)@.acquire(
                        Matching::FirstMatch,
                        language_id@,
                        project_root@,
                        now,
                    );
                    final(self)@ == pool && result == Ok::<Acquisition, PoolError>(decision)
                },
                None => final(self)@ == old(self)@ && result == Err::<Acquisition, PoolError>(
                    PoolError::UnsupportedLanguage,
                ),
            },
    {
        match Language::from_language_id(language_id) {
            Some(language) => {
                proof {
                    crate::language::lemma_id_found(language_id@);
                }
                Ok(self.acquire(Matching::FirstMatch, language, project_root, now))
            },
            None => Err(PoolError::UnsupportedLanguage),
        }
    }

    /// The second phase of an acquisition that asked for a launch: records
    /// the launched client of `language_id` for `project_root` with one
    /// reference, and returns its identifier.
    pub fn install_client(&mut self, language_id: &str, project_root: &str, capabilities: CapabilitiesSummary, now: u64) -> (result: Result<u64, PoolError>)
        requires
            old(self).wf(),
            old(self)@.has_headroom(),
        ensures
            final(self).wf(),
            match Language::with_id(language_id@) {
                Some(_) => final(self)@ == old(self)@.register(
                    language_id@,
                    project_root@,
                    capabilities,
                    now,
                ) && result == Ok::<u64, PoolError>(old(self)@.next_instance_id),
                None => final(self)@ == old(self)@ && result == Err::<u64, PoolError>(
                    PoolError::UnsupportedLanguage,
                ),
            },
    {
        if Language::from_language_id(language_id).is_none() {
            return Err(PoolError::UnsupportedLanguage);
        }
        let ghost before = *old(self);
        let ghost records = before@.clients(language_id@);
        let ghost fresh = before@.fresh_record(project_root@, capabilities, now);
        let instance_id = self.next_instance_id;
        let client = PooledClient {
            instance_id,
            project_root: owned(project_root),
            last_used: now,
            ref_count: 1,
            capabilities_summary: capabilities,
        };
        assert(client@ == fresh);
        self.next_instance_id = instance_id + 1;
        let ghost raised = *self;
        proof {
            assert(raised@.slots =~= before@.slots);
            assert(raised.wf()) by {
                assert forall|i: int| 0 <= i < raised@.slots.len() implies ids_ordered(
                    (#[trigger] raised@.slots[i]).clients,
                    raised@.next_instance_id,
                ) by {
                    assert(ids_ordered(before@.slots[i].clients, before@.next_instance_id));
                }
            }
            assert(raised@.tracks(language_id@) == before@.tracks(language_id@));
            assert(raised@.clients(language_id@) == records);
            assert(ids_ordered(records, before@.next_instance_id)) by {
                if before@.tracks(language_id@) {
                    lemma_slot_found(before@, before@.slot_of(language_id@));
                }
            }
            assert(ids_ordered(records.push(fresh), raised@.next_instance_id));
            lemma_with_clients(raised@, language_id@, records.push(fresh));
        }
        match self.find_entry(language_id) {
            Some(i) => {
                self.entries[i].instances.push(client);
                proof {
                    assert(records_of(self.entries@[i as int].instances@) =~= records.push(fresh));
                    lemma_entry_changed(raised, *self, i as int, language_id@);
                }
            },
            None => {
                let mut instances: Vec<PooledClient> = Vec::new();
                instances.push(client);
                self.entries.push(LanguageEntry { language_id: owned(language_id), instances });
                proof {
                    let last = self.entries@.len() - 1;
                    assert(records_of(self.entries@[last].instances@) =~= records.push(fresh));
                    assert(self.entries@[last]@ == (LanguageSlot {
                        language: language_id@,
                        clients: records.push(fresh),
                    }));
                    assert forall|k: int| 0 <= k < last implies self.entries@[k]
                        == raised.entries@[k] by {}
                    assert(self@.slots =~= raised@.with_clients(
                        language_id@,
                        records.push(fresh),
                    ).slots);
                }
            },
        }
        assert(self@ == raised@.with_clients(language_id@, records.push(fresh)));
        assert(self@ == before@.register(language_id@, project_root@, capabilities, now));
        Ok(instance_id)
    }

    /// Gives one reference of `language_id` back: the first record of the
    /// language that has a reference loses one. Without such a record
    /// nothing happens.
    pub fn release_client(&mut self, language_id: &str)
        requires
            old(self).wf(),
        ensures
            final(self).wf(),
            final(self)@ == old(self)@.release(language_id@),
    {
        let ghost before = *old(self);
        let ghost records = before@.clients(language_id@);
        match self.find_entry(language_id) {
            Some(i) => {
                match Selector::FirstReferenced.select(&self.entries[i].instances) {
                    Some(j) => {
                        proof {
                            lemma_select_some(Selection::FirstReferenced, records);
                        }
                        self.entries[i].instances[j].ref_count -= 1;
                        proof {
                            let updated = records.update(j as int, records[j as int].released());
                            assert(records_of(self.entries@[i as int].instances@) =~= updated);
                            lemma_entry_changed(before, *self, i as int, language_id@);
                            assert(ids_ordered(records, before@.next_instance_id));
                            lemma_with_clients(before@, language_id@, updated);
                        }
                    },
                    None => {},
                }
            },
            None => {
                proof {
                    lemma_select_none(Selection::FirstReferenced, records);
                }
            },
        }
    }

    /// Drops every record; the tracked languages go with them.
    pub fn shutdown_all(&mut self)
        ensures
            final(self).wf(),
            final(self)@ == old(self)@.shutdown(),
    {
        self.entries.clear();
        assert(self@.slots =~= Seq::empty());
    }

    /// Copies of the records of `language_id`, in their order; none for a
    /// language that is not tracked.
    pub fn instances_for_language(&self, language_id: &str) -> (instances: Vec<PooledClient>)
        requires
            self.wf(),
        ensures
            records_of(instances@) == self@.clients(language_id@),
    {
        let mut instances: Vec<PooledClient> = Vec::new();
        match self.find_entry(language_id) {
            Some(i) => {
                let entry = &self.entries[i];
                let mut j: usize = 0;
                while j < entry.instances.len()
                    invariant
                        j <= entry.instances@.len(),
                        instances@.len() == j,
                        forall|k: int| 0 <= k < j ==> (#[trigger] instances@[k])@
                            == entry.instances@[k]@,
                    decreases entry.instances@.len() - j,
                {
                    let client = &entry.instances[j];
                    instances.push(
                        PooledClient {
                            instance_id: client.instance_id,
                            project_root: client.project_root.clone(),
                            last_used: client.last_used,
                            ref_count: client.ref_count,
                            capabilities_summary: client.capabilities_summary,
                        },
                    );
                    j += 1;
                }
                assert(records_of(instances@) =~= records_of(entry.instances@));
            },
            None => {
                assert(records_of(instances@) =~= Seq::empty());
            },
        }
        instances
    }

    /// The capabilities of the first record of `language_id`.
    pub fn get_capabilities_for_language(&self, language_id: &str) -> (capabilities: Option<CapabilitiesSummary>)
        requires
            self.wf(),
        ensures
            capabilities == if self@.clients(language_id@).len() > 0 {
                Some(self@.clients(language_id@)[0].capabilities)
            } else {
                None
            },
    {
        match self.find_entry(language_id) {
            Some(i) => {
                if self.entries[i].instances.len() > 0 {
                    Some(self.entries[i].instances[0].capabilities_summary)
                } else {
                    None
                }
            },
            None => None,
        }
    }

    /// Whether the first record of `language_id` supports `capability`.
    /// False without a record, and for a capability that is not tracked.
    pub fn has_capability_for_language(&self, language_id: &str, capability: &str) -> (supported: bool)
        requires
            self.wf(),
        ensures
            supported == (self@.clients(language_id@).len() > 0 && self@.clients(
                language_id@,
            )[0].capabilities.spec_supports(capability@)),
    {
        match self.get_capabilities_for_language(language_id) {
            Some(capabilities) => capabilities.supports(capability),
            None => false,
        }
    }
}

/// Whether idle eviction at time `now` keeps `client`.
fn survives(client: &PooledClient, now: u64, max_idle_time: u64) -> (keep: bool)
    ensures
        keep == client@.survives(now, max_idle_time),
{
    if client.ref_count > 0 {
        return true;
    }
    let idle_time = if now >= client.last_used {
        now - client.last_used
    } else {
        0
    };
    idle_time < max_idle_time
}

/// Drops from `instances` the clients that idle eviction at time `now` does
/// not keep, and appends their identifiers to `evicted`.
fn sweep(instances: &mut Vec<PooledClient>, now: u64, max_idle_time: u64, evicted: &mut Vec<u64>)
    ensures
        records_of(final(instances)@) == swept(records_of(old(instances)@), now, max_idle_time),
        final(evicted)@ == old(evicted)@ + expired(records_of(old(instances)@), now, max_idle_time),
{
    let ghost all = records_of(old(instances)@);
    let ghost done: int = 0;
    let mut i: usize = 0;
    assert(all.subrange(0, 0) =~= Seq::empty());
    assert(all.subrange(0, all.len() as int) =~= all);
    while i < instances.len()
        invariant
            0 <= done <= all.len(),
            i <= instances@.len(),
            i == swept(all.subrange(0, done), now, max_idle_time).len(),
            records_of(instances@) =~= swept(all.subrange(0, done), now, max_idle_time)
                + all.subrange(done, all.len() as int),
            evicted@ == old(evicted)@ + expired(all.subrange(0, done), now, max_idle_time),
        decreases instances@.len() - i,
    {
        let ghost prefix = all.subrange(0, done);
        let ghost longer = all.subrange(0, done + 1);
        assert(done < all.len());
        assert(longer.drop_last() =~= prefix);
        assert(longer.last() == all[done]);
        assert(records_of(instances@)[i as int] == all[done]);
        let ghost kept = swept(prefix, now, max_idle_time);
        let ghost rest = all.subrange(done + 1, all.len() as int);
        let ghost entering = records_of(instances@);
        assert(entering =~= kept + all.subrange(done, all.len() as int));
        if survives(&instances[i], now, max_idle_time) {
            assert(swept(longer, now, max_idle_time) == kept.push(all[done]));
            assert(records_of(instances@) =~= kept.push(all[done]) + rest);
            i += 1;
        } else {
            let gone = instances.remove(i);
            evicted.push(gone.instance_id);
            assert(gone@ == all[done]);
            assert(swept(longer, now, max_idle_time) == kept);
            assert(records_of(instances@) =~= entering.remove(i as int));
            assert(entering.remove(i as int) =~= kept + rest);
        }
        proof {
            done = done + 1;
        }
    }
    assert(all.subrange(0, done) =~= all);
    assert(all.subrange(done, all.len() as int) =~= Seq::empty());
}

impl LspClientPool {
    /// Idle eviction at time `now`: drops every record that has no
    /// reference and has been idle for `max_idle_time` or longer, and every
    /// language left without a record. Returns the identifiers of the
    /// dropped records, so that the host can tear their clients down.
    pub fn cleanup_idle_clients(&mut self, now: u64) -> (evicted: Vec<u64>)
        requires
            old(self).wf(),
        ensures
            final(self).wf(),
            final(self)@ == old(self)@.cleanup(now),
            evicted@ == old(self)@.evicted_by_cleanup(now),
    {
        let ghost before = *old(self);
        let ghost all = before@.slots;
        let ghost done: int = 0;
        let max_idle_time = self.config.max_idle_time;
        let mut evicted: Vec<u64> = Vec::new();
        let mut i: usize = 0;
        assert(all.subrange(0, 0) =~= Seq::empty());
        while i < self.entries.len()
            invariant
                0 <= done <= all.len(),
                all == before@.slots,
                before.wf(),
                max_idle_time == before@.config.max_idle_time,
                self.config == before.config,
                self.next_instance_id == before.next_instance_id,
                i <= self.entries@.len(),
                i == swept_slots(all.subrange(0, done), now, max_idle_time).len(),
                self@.slots =~= swept_slots(all.subrange(0, done), now, max_idle_time)
                    + all.subrange(done, all.len() as int),
                evicted@ == expired_in(all.subrange(0, done), now, max_idle_time),
            decreases self.entries@.len() - i,
        {
            let ghost prefix = all.subrange(0, done);
            let ghost longer = all.subrange(0, done + 1);
            assert(done < all.len());
            assert(longer.drop_last() =~= prefix);
            assert(longer.last() == all[done]);
            assert(self@.slots[i as int] == all[done]);
            let ghost entering = *self;
            let ghost kept = swept_slots(prefix, now, max_idle_time);
            let ghost rest = all.subrange(done + 1, all.len() as int);
            let ghost slot = LanguageSlot {
                language: all[done].language,
                clients: swept(all[done].clients, now, max_idle_time),
            };
            sweep(&mut self.entries[i].instances, now, max_idle_time, &mut evicted);
            let ghost cleaned = self@.slots;
            assert(self.entries@[i as int]@ == slot);
            assert(entering@.slots =~= kept + all.subrange(done, all.len() as int));
            assert forall|k: int| 0 <= k < self.entries@.len() && k != i implies #[trigger] cleaned[k]
                == entering@.slots[k] by {
                assert(self.entries@[k] == entering.entries@[k]);
            }
            assert(cleaned.len() == entering@.slots.len());
            assert forall|k: int| 0 <= k < cleaned.len() implies cleaned[k] == (kept.push(slot)
                + rest)[k] by {
                if k < i {
                    assert(cleaned[k] == entering@.slots[k]);
                } else if k == i {
                    assert(cleaned[k] == slot);
                } else {
                    assert(cleaned[k] == entering@.slots[k]);
                    assert(entering@.slots[k] == all.subrange(done, all.len() as int)[k - i]);
                }
            }
            assert(cleaned =~= kept.push(slot) + rest);
            if self.entries[i].instances.len() == 0 {
                let _ = self.entries.remove(i);
                assert(swept_slots(longer, now, max_idle_time) == kept);
                assert(self@.slots =~= cleaned.remove(i as int));
                assert(cleaned.remove(i as int) =~= kept + rest);
            } else {
                assert(swept_slots(longer, now, max_idle_time) == kept.push(slot));
                i += 1;
            }
            proof {
                done = done + 1;
            }
        }
        proof {
            assert(all.subrange(0, done) =~= all);
            assert(all.subrange(done, all.len() as int) =~= Seq::empty());
            assert(self@.slots =~= swept_slots(all, now, max_idle_time));
            lemma_cleanup_wf(before@, now);
        }
        evicted
    }

    /// Counts the records, the referenced records and the tracked
    /// languages. A count that does not fit is reported as `usize::MAX`.
    pub fn get_stats(&self) -> (stats: PoolStats)
        ensures
            stats.total_clients == saturated(total_clients(self@.slots)),
            stats.active_clients == saturated(active_clients(self@.slots)),
            stats.languages@.len() == self@.slots.len(),
            forall|i: int|
                0 <= i < self@.slots.len() ==> (#[trigger] stats.languages@[i])@
                    == self@.slots[i].language,
    {
        let mut total: usize = 0;
        let mut active: usize = 0;
        let mut languages: Vec<String> = Vec::new();
        let mut i: usize = 0;
        assert(self@.slots.subrange(0, 0) =~= Seq::empty());
        while i < self.entries.len()
            invariant
                i <= self.entries@.len(),
                total == saturated(total_clients(self@.slots.subrange(0, i as int))),
                active == saturated(active_clients(self@.slots.subrange(0, i as int))),
                languages@.len() == i,
                forall|k: int| 0 <= k < i ==> (#[trigger] languages@[k])@ == self@.slots[k].language,
            decreases self.entries@.len() - i,
        {
            let ghost longer = self@.slots.subrange(0, i + 1);
            assert(longer.drop_last() =~= self@.slots.subrange(0, i as int));
            assert(longer.last() == self@.slots[i as int]);
            let entry = &self.entries[i];
            total = saturating_sum(total, entry.instances.len());
            active = saturating_sum(active, count_active(&entry.instances));
            languages.push(entry.language_id.clone());
            i += 1;
        }
        assert(self@.slots.subrange(0, i as int) =~= self@.slots);
        PoolStats { total_clients: total, active_clients: active, languages }
    }
}

/// A count as it is reported: itself where it fits, else `usize::MAX`.
pub open spec fn saturated(count: nat) -> usize {
    if count <= usize::MAX {
        count as usize
    } else {
        usize::MAX
    }
}

/// Adds an exact count to a reported one.
fn saturating_sum(reported: usize, more: usize) -> (sum: usize)
    ensures
        forall|exact: nat| reported == saturated(exact) ==> sum == #[trigger] saturated((exact + more) as nat),
{
    if reported > usize::MAX - more {
        usize::MAX
    } else {
        reported + more
    }
}

/// Number of clients with at least one reference.
fn count_active(instances: &Vec<PooledClient>) -> (count: usize)
    ensures
        count == active_count(records_of(instances@)),
{
    let ghost records = records_of(instances@);
    let mut count: usize = 0;
    let mut i: usize = 0;
    assert(records.subrange(0, 0) =~= Seq::empty());
    while i < instances.len()
        invariant
            i <= instances@.len(),
            records == records_of(instances@),
            count == active_count(records.subrange(0, i as int)),
            count <= i,
        decreases instances@.len() - i,
    {
        let ghost longer = records.subrange(0, i + 1);
        assert(longer.drop_last() =~= records.subrange(0, i as int));
        assert(longer.last() == records[i as int]);
        if instances[i].ref_count > 0 {
            count += 1;
        }
        i += 1;
    }
    assert(records.subrange(0, i as int) =~= records);
    count
}

/// Where two pools differ in the clients of one entry only, the later one
/// is the earlier one with the records of that entry's language replaced.
proof fn lemma_entry_changed(before: LspClientPool, after: LspClientPool, i: int, language: Seq<char>)
    requires
        before.wf(),
        0 <= i < before.entries@.len(),
        before.entries@[i].language_id@ == language,
        after.entries@.len() == before.entries@.len(),
        after.entries@[i].language_id@ == language,
        forall|k: int|
            0 <= k < before.entries@.len() && k != i ==> #[trigger] after.entries@[k]
                == before.entries@[k],
        after.config == before.config,
        after.next_instance_id == before.next_instance_id,
    ensures
        after@ == before@.with_clients(language, records_of(after.entries@[i].instances@)),
{
    assert(before@.slots[i].language == language);
    lemma_slot_found(before@, i);
    assert(after@.slots =~= before@.with_clients(
        language,
        records_of(after.entries@[i].instances@),
    ).slots);
}

} // verus!
