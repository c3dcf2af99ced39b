//! The mathematical model of the pool: what the pool is, and what each
//! operation makes of it, as functions on sequences.

use crate::capabilities::CapabilitiesSummary;
use crate::config::PoolConfig;
use vstd::prelude::*;

verus! {

/// One pooled client as the contracts see it.
pub struct ClientRecord {
    /// Identifier handed out when the record was created; never reused.
    pub instance_id: u64,
    /// Project root the client was initialized against.
    pub project_root: Seq<char>,
    /// Time of the last acquisition, in milliseconds on the host's clock.
    pub last_used: u64,
    /// Outstanding references.
    pub ref_count: nat,
    /// Capabilities captured when the client was created.
    pub capabilities: CapabilitiesSummary,
}

/// The records of one language, in the order in which they were created.
pub struct LanguageSlot {
    pub language: Seq<char>,
    pub clients: Seq<ClientRecord>,
}

/// The whole pool: one slot per tracked language, the configuration, and the
/// identifier that the next new record gets.
pub struct PoolModel {
    pub slots: Seq<LanguageSlot>,
    pub config: PoolConfig,
    pub next_instance_id: u64,
}

/// What an acquisition decided.
#[derive(Clone, Copy, Debug, PartialEq, Eq, Structural)]
pub enum Acquisition {
    /// A record with the requested project root was shared once more.
    Reused { instance_id: u64 },
    /// The language is at its cap and every instance is busy: the first
    /// instance was shared anyway, whatever its project root.
    OverSubscribed { instance_id: u64 },
    /// No record can be shared: the host has to launch a new client and
    /// register it. `evicted` names the idle record that made room, if one
    /// had to go.
    Launch { evicted: Option<u64> },
}

/// How an acquisition looks for a record to share.
#[derive(Clone, Copy, Debug, PartialEq, Eq, Structural)]
pub enum Matching {
    /// Among the records with the requested root, the one with the fewest
    /// references.
    LeastLoaded,
    /// The first record with the requested root.
    FirstMatch,
}

/// A rule that picks one record out of a sequence: the first one among the
/// eligible records whose key is smallest.
pub enum Selection {
    /// Records with the given root, by reference count.
    LeastLoaded(Seq<char>),
    /// Records with the given root, by position.
    FirstWithRoot(Seq<char>),
    /// Unreferenced records, by time of last use.
    OldestIdle,
    /// Referenced records, by position.
    FirstReferenced,
}

impl Selection {
    pub open spec fn eligible(self, record: ClientRecord) -> bool {
        match self {
            Selection::LeastLoaded(root) => record.project_root == root,
            Selection::FirstWithRoot(root) => record.project_root == root,
            Selection::OldestIdle => record.ref_count == 0,
            Selection::FirstReferenced => record.ref_count > 0,
        }
    }

    pub open spec fn key(self, record: ClientRecord) -> int {
        match self {
            Selection::LeastLoaded(_) => record.ref_count as int,
            Selection::FirstWithRoot(_) => 0,
            Selection::OldestIdle => record.last_used as int,
            Selection::FirstReferenced => 0,
        }
    }

    /// `index` is eligible, no eligible record has a smaller key, and none
    /// with the same key stands before it.
    pub open spec fn picks(self, records: Seq<ClientRecord>, index: int) -> bool {
        &&& 0 <= index < records.len()
        &&& self.eligible(records[index])
        &&& forall|k: int|
            0 <= k < records.len() && self.eligible(#[trigger] records[k]) ==> {
                ||| self.key(records[index]) < self.key(records[k])
                ||| (self.key(records[index]) == self.key(records[k]) && index <= k)
            }
    }

    /// The index that the rule picks, if any record is eligible.
    pub open spec fn select(self, records: Seq<ClientRecord>) -> Option<int> {
        if exists|j: int| self.picks(records, j) {
            Some(choose|j: int| self.picks(records, j))
        } else {
            None
        }
    }
}

/// A rule picks at most one index.
pub proof fn lemma_select_unique(rule: Selection, records: Seq<ClientRecord>, index: int)
    requires
        rule.picks(records, index),
    ensures
        rule.select(records) == Some(index),
{
    let chosen = choose|j: int| rule.picks(records, j);
    assert(rule.picks(records, chosen));
    assert(rule.eligible(records[chosen]));
    assert(rule.eligible(records[index]));
}

/// Where no record is eligible, a rule picks nothing.
pub proof fn lemma_select_none(rule: Selection, records: Seq<ClientRecord>)
    requires
        forall|k: int| 0 <= k < records.len() ==> !rule.eligible(#[trigger] records[k]),
    ensures
        rule.select(records) is None,
{
}

/// What a rule picks is eligible, and picked by `picks`.
pub proof fn lemma_select_some(rule: Selection, records: Seq<ClientRecord>)
    ensures
        rule.select(records) matches Some(j) ==> rule.picks(records, j),
        rule.select(records) is None ==> forall|k: int|
            0 <= k < records.len() ==> !rule.eligible(#[trigger] records[k]),
{
    if rule.select(records) is None {
        assert forall|k: int| 0 <= k < records.len() implies !rule.eligible(
            #[trigger] records[k],
        ) by {
            if rule.eligible(records[k]) {
                lemma_some_eligible_is_picked(rule, records, records.len() as int, k);
            }
        }
    }
}

/// Among the first `n` records, of which `witness` is eligible, some index
/// is the first with the smallest key.
proof fn lemma_prefix_pick(rule: Selection, records: Seq<ClientRecord>, n: int, witness: int) -> (best: int)
    requires
        0 <= witness < n <= records.len(),
        rule.eligible(records[witness]),
    ensures
        0 <= best < n,
        rule.eligible(records[best]),
        forall|k: int|
            0 <= k < n && rule.eligible(#[trigger] records[k]) ==> {
                ||| rule.key(records[best]) < rule.key(records[k])
                ||| (rule.key(records[best]) == rule.key(records[k]) && best <= k)
            },
    decreases n,
{
    if witness == n - 1 {
        if exists|w: int| 0 <= w < n - 1 && rule.eligible(records[w]) {
            let w = choose|w: int| 0 <= w < n - 1 && rule.eligible(records[w]);
            let before = lemma_prefix_pick(rule, records, n - 1, w);
            if rule.key(records[n - 1]) < rule.key(records[before]) {
                n - 1
            } else {
                before
            }
        } else {
            n - 1
        }
    } else {
        let before = lemma_prefix_pick(rule, records, n - 1, witness);
        if rule.eligible(records[n - 1]) && rule.key(records[n - 1]) < rule.key(records[before]) {
            n - 1
        } else {
            before
        }
    }
}

proof fn lemma_some_eligible_is_picked(rule: Selection, records: Seq<ClientRecord>, n: int, witness: int)
    requires
        n == records.len(),
        0 <= witness < n,
        rule.eligible(records[witness]),
    ensures
        rule.select(records) is Some,
{
    let best = lemma_prefix_pick(rule, records, n, witness);
    assert(rule.picks(records, best));
}

impl ClientRecord {
    /// The record after one more acquisition at time `now`.
    pub open spec fn touched(self, now: u64) -> ClientRecord {
        ClientRecord { last_used: now, ref_count: self.ref_count + 1, ..self }
    }

    /// The record after it was shared although it is busy: one more
    /// reference, the time of last use as it was.
    pub open spec fn shared(self) -> ClientRecord {
        ClientRecord { ref_count: self.ref_count + 1, ..self }
    }

    /// The record after one reference was given back.
    pub open spec fn released(self) -> ClientRecord {
        ClientRecord { ref_count: (self.ref_count - 1) as nat, ..self }
    }

    /// How long the record has been unused at time `now`; zero if the clock
    /// reads earlier than the record's last use.
    pub open spec fn idle_time(self, now: u64) -> int {
        if now >= self.last_used {
            now - self.last_used
        } else {
            0
        }
    }

    /// Whether idle eviction at time `now` keeps the record: it is
    /// referenced, or has been idle for less than `max_idle_time`.
    pub open spec fn survives(self, now: u64, max_idle_time: u64) -> bool {
        self.ref_count > 0 || self.idle_time(now) < max_idle_time
    }
}

/// Identifiers grow along the sequence and stay below `bound`.
pub open spec fn ids_ordered(records: Seq<ClientRecord>, bound: u64) -> bool {
    &&& forall|a: int, b: int|
        0 <= a < b < records.len() ==> (#[trigger] records[a]).instance_id < (
        #[trigger] records[b]).instance_id
    &&& forall|a: int| 0 <= a < records.len() ==> (#[trigger] records[a]).instance_id < bound
}

/// The records that idle eviction at time `now` keeps, in their order.
pub open spec fn swept(records: Seq<ClientRecord>, now: u64, max_idle_time: u64) -> Seq<ClientRecord>
    decreases records.len(),
{
    if records.len() == 0 {
        records
    } else if records.last().survives(now, max_idle_time) {
        swept(records.drop_last(), now, max_idle_time).push(records.last())
    } else {
        swept(records.drop_last(), now, max_idle_time)
    }
}

/// The identifiers of the records that idle eviction at time `now` drops,
/// in their order.
pub open spec fn expired(records: Seq<ClientRecord>, now: u64, max_idle_time: u64) -> Seq<u64>
    decreases records.len(),
{
    if records.len() == 0 {
        Seq::empty()
    } else if records.last().survives(now, max_idle_time) {
        expired(records.drop_last(), now, max_idle_time)
    } else {
        expired(records.drop_last(), now, max_idle_time).push(records.last().instance_id)
    }
}

/// Sum of the reference counts.
pub open spec fn ref_total(records: Seq<ClientRecord>) -> nat
    decreases records.len(),
{
    if records.len() == 0 {
        0
    } else {
        ref_total(records.drop_last()) + records.last().ref_count
    }
}

/// Number of records with at least one reference.
pub open spec fn active_count(records: Seq<ClientRecord>) -> nat
    decreases records.len(),
{
    if records.len() == 0 {
        0
    } else {
        active_count(records.drop_last()) + if records.last().ref_count > 0 {
            1nat
        } else {
            0nat
        }
    }
}

impl Matching {
    /// The rule by which an acquisition for `root` looks for a record to share.
    pub open spec fn rule(self, root: Seq<char>) -> Selection {
        match self {
            Matching::LeastLoaded => Selection::LeastLoaded(root),
            Matching::FirstMatch => Selection::FirstWithRoot(root),
        }
    }
}

impl PoolModel {
    /// Whether the pool has a slot for `language`.
    pub open spec fn tracks(self, language: Seq<char>) -> bool {
        exists|i: int| 0 <= i < self.slots.len() && (#[trigger] self.slots[i]).language == language
    }

    /// The position of the slot of a tracked language.
    pub open spec fn slot_of(self, language: Seq<char>) -> int {
        choose|i: int| 0 <= i < self.slots.len() && (#[trigger] self.slots[i]).language == language
    }

    /// The records of `language`; none if the language is not tracked.
    pub open spec fn clients(self, language: Seq<char>) -> Seq<ClientRecord> {
        if self.tracks(language) {
            self.slots[self.slot_of(language)].clients
        } else {
            Seq::empty()
        }
    }

    /// The pool with the records of `language` replaced by `records`. A
    /// language that was not tracked gets a slot behind the others.
    pub open spec fn with_clients(self, language: Seq<char>, records: Seq<ClientRecord>) -> PoolModel {
        let slot = LanguageSlot { language, clients: records };
        PoolModel {
            slots: if self.tracks(language) {
                self.slots.update(self.slot_of(language), slot)
            } else {
                self.slots.push(slot)
            },
            ..self
        }
    }

    /// No language has two slots, and in every slot the identifiers grow and
    /// stay below the next one to be handed out.
    pub open spec fn wf(self) -> bool {
        &&& forall|i: int, j: int|
            0 <= i < j < self.slots.len() ==> (#[trigger] self.slots[i]).language != (
            #[trigger] self.slots[j]).language
        &&& forall|i: int|
            0 <= i < self.slots.len() ==> ids_ordered(
                (#[trigger] self.slots[i]).clients,
                self.next_instance_id,
            )
    }

    /// Every reference count can still grow by one, and one more identifier
    /// can be handed out.
    pub open spec fn has_headroom(self) -> bool {
        &&& self.next_instance_id < u64::MAX
        &&& forall|i: int, a: int|
            0 <= i < self.slots.len() && 0 <= a < self.slots[i].clients.len() ==> (
            #[trigger] self.slots[i].clients[a]).ref_count < usize::MAX
    }

    /// No language has more records than the configured maximum.
    pub open spec fn within_cap(self) -> bool {
        forall|i: int|
            0 <= i < self.slots.len() ==> (#[trigger] self.slots[i]).clients.len()
                <= self.config.max_instances_per_language
    }

    /// An empty pool.
    pub open spec fn empty(config: PoolConfig) -> PoolModel {
        PoolModel { slots: Seq::empty(), config, next_instance_id: 0 }
    }

    /// The pool while a launch for `language` is awaited and no record had
    /// to make room. An acquisition by file path tracks the language from
    /// then on, with or without a record; an acquisition by language
    /// identifier leaves the pool as it is, so that a launch that fails
    /// leaves no trace.
    pub open spec fn awaiting_launch(self, matching: Matching, language: Seq<char>) -> PoolModel {
        match matching {
            Matching::LeastLoaded => self.with_clients(language, self.clients(language)),
            Matching::FirstMatch => self,
        }
    }

    /// The first phase of an acquisition for `language` and `root` at time
    /// `now`: the pool afterwards, and what was decided.
    ///
    /// A record that `matching` picks is shared. Otherwise, below the cap a
    /// launch is asked for. At the cap the oldest idle record makes room for
    /// a launch; if every record is busy the first one is shared although it
    /// is busy; a language without any record always launches.
    pub open spec fn acquire(self, matching: Matching, language: Seq<char>, root: Seq<char>, now: u64) -> (
        PoolModel,
        Acquisition,
    ) {
        let records = self.clients(language);
        match matching.rule(root).select(records) {
            Some(j) => (
                self.with_clients(language, records.update(j, records[j].touched(now))),
                Acquisition::Reused { instance_id: records[j].instance_id },
            ),
            None => {
                if records.len() >= self.config.max_instances_per_language {
                    match Selection::OldestIdle.select(records) {
                        Some(k) => (
                            self.with_clients(language, records.remove(k)),
                            Acquisition::Launch { evicted: Some(records[k].instance_id) },
                        ),
                        None => {
                            if records.len() > 0 {
                                (
                                    self.with_clients(
                                        language,
                                        records.update(0, records[0].shared()),
                                    ),
                                    Acquisition::OverSubscribed {
                                        instance_id: records[0].instance_id,
                                    },
                                )
                            } else {
                                (
                                    self.awaiting_launch(matching, language),
                                    Acquisition::Launch { evicted: None },
                                )
                            }
                        },
                    }
                } else {
                    (
                        self.awaiting_launch(matching, language),
                        Acquisition::Launch { evicted: None },
                    )
                }
            },
        }
    }

    /// The record that a launched client gets: the next identifier and one
    /// reference.
    pub open spec fn fresh_record(self, root: Seq<char>, capabilities: CapabilitiesSummary, now: u64) -> ClientRecord {
        ClientRecord {
            instance_id: self.next_instance_id,
            project_root: root,
            last_used: now,
            ref_count: 1,
            capabilities,
        }
    }

    /// The second phase of an acquisition that asked for a launch: the new
    /// client's record goes behind the other records of its language.
    pub open spec fn register(self, language: Seq<char>, root: Seq<char>, capabilities: CapabilitiesSummary, now: u64) -> PoolModel {
        let grown = self.with_clients(
            language,
            self.clients(language).push(self.fresh_record(root, capabilities, now)),
        );
        PoolModel { next_instance_id: (self.next_instance_id + 1) as u64, ..grown }
    }

    /// A whole acquisition whose launch, where one is needed, succeeds with
    /// `capabilities`.
    pub open spec fn acquire_launched(self, matching: Matching, language: Seq<char>, root: Seq<char>, capabilities: CapabilitiesSummary, now: u64) -> PoolModel {
        let (decided, decision) = self.acquire(matching, language, root, now);
        if decision is Launch {
            decided.register(language, root, capabilities, now)
        } else {
            decided
        }
    }

    /// One reference of `language` given back: the first referenced record
    /// loses one reference. Without a referenced record nothing changes.
    pub open spec fn release(self, language: Seq<char>) -> PoolModel {
        let records = self.clients(language);
        match Selection::FirstReferenced.select(records) {
            Some(j) => self.with_clients(language, records.update(j, records[j].released())),
            None => self,
        }
    }

    /// Idle eviction at time `now`: every slot keeps the records that
    /// survive, and slots left without a record go.
    pub open spec fn cleanup(self, now: u64) -> PoolModel {
        PoolModel { slots: swept_slots(self.slots, now, self.config.max_idle_time), ..self }
    }

    /// The identifiers of the records that idle eviction at time `now`
    /// drops.
    pub open spec fn evicted_by_cleanup(self, now: u64) -> Seq<u64> {
        expired_in(self.slots, now, self.config.max_idle_time)
    }

    /// The pool without any record.
    pub open spec fn shutdown(self) -> PoolModel {
        PoolModel { slots: Seq::empty(), ..self }
    }

    /// Outstanding references of `language`.
    pub open spec fn references(self, language: Seq<char>) -> nat {
        ref_total(self.clients(language))
    }
}

/// The slots after idle eviction at time `now`.
pub open spec fn swept_slots(slots: Seq<LanguageSlot>, now: u64, max_idle_time: u64) -> Seq<LanguageSlot>
    decreases slots.len(),
{
    if slots.len() == 0 {
        slots
    } else {
        let before = swept_slots(slots.drop_last(), now, max_idle_time);
        let kept = swept(slots.last().clients, now, max_idle_time);
        if kept.len() > 0 {
            before.push(LanguageSlot { language: slots.last().language, clients: kept })
        } else {
            before
        }
    }
}

/// The identifiers that idle eviction at time `now` drops from the slots,
/// slot by slot.
pub open spec fn expired_in(slots: Seq<LanguageSlot>, now: u64, max_idle_time: u64) -> Seq<u64>
    decreases slots.len(),
{
    if slots.len() == 0 {
        Seq::empty()
    } else {
        expired_in(slots.drop_last(), now, max_idle_time) + expired(
            slots.last().clients,
            now,
            max_idle_time,
        )
    }
}

/// Number of records in all slots.
pub open spec fn total_clients(slots: Seq<LanguageSlot>) -> nat
    decreases slots.len(),
{
    if slots.len() == 0 {
        0
    } else {
        total_clients(slots.drop_last()) + slots.last().clients.len()
    }
}

/// Number of referenced records in all slots.
pub open spec fn active_clients(slots: Seq<LanguageSlot>) -> nat
    decreases slots.len(),
{
    if slots.len() == 0 {
        0
    } else {
        active_clients(slots.drop_last()) + active_count(slots.last().clients)
    }
}

/// In a well-formed pool the slot found under a language is the slot of
/// that language.
pub proof fn lemma_slot_found(pool: PoolModel, i: int)
    requires
        pool.wf(),
        0 <= i < pool.slots.len(),
    ensures
        pool.tracks(pool.slots[i].language),
        pool.slot_of(pool.slots[i].language) == i,
        pool.clients(pool.slots[i].language) == pool.slots[i].clients,
{
    let language = pool.slots[i].language;
    let chosen = pool.slot_of(language);
    assert(pool.slots[chosen].language == language);
    if chosen < i {
        assert(pool.slots[chosen].language != pool.slots[i].language);
    } else if i < chosen {
        assert(pool.slots[i].language != pool.slots[chosen].language);
    }
}

/// Replacing the records of one language leaves the other languages alone
/// and keeps the pool well formed, provided the new identifiers are in
/// order.
pub proof fn lemma_with_clients(pool: PoolModel, language: Seq<char>, records: Seq<ClientRecord>)
    requires
        pool.wf(),
        ids_ordered(records, pool.next_instance_id),
    ensures
        pool.with_clients(language, records).wf(),
        pool.with_clients(language, records).tracks(language),
        pool.with_clients(language, records).clients(language) == records,
        pool.with_clients(language, records).slots.len() == if pool.tracks(language) {
            pool.slots.len()
        } else {
            pool.slots.len() + 1
        },
        forall|other: Seq<char>|
            other != language ==> #[trigger] pool.with_clients(language, records).tracks(other)
                == pool.tracks(other),
        forall|other: Seq<char>|
            other != language ==> #[trigger] pool.with_clients(language, records).clients(other)
                == pool.clients(other),
{
    let after = pool.with_clients(language, records);
    let slot = LanguageSlot { language, clients: records };
    let at = if pool.tracks(language) {
        pool.slot_of(language)
    } else {
        pool.slots.len() as int
    };
    assert(0 <= at < after.slots.len());
    assert(after.slots[at] == slot);
    assert forall|i: int| 0 <= i < after.slots.len() && i != at implies #[trigger] after.slots[i]
        == pool.slots[i] && pool.slots[i].language != language by {
        if pool.tracks(language) {
            lemma_slot_found(pool, i);
        }
    }
    assert(after.wf());
    lemma_slot_found(after, at);
    assert forall|other: Seq<char>| other != language implies (#[trigger] after.tracks(other))
        == pool.tracks(other) && after.clients(other) == pool.clients(other) by {
        if pool.tracks(other) {
            let i = pool.slot_of(other);
            assert(after.slots[i] == pool.slots[i]);
            lemma_slot_found(after, i);
        }
        if after.tracks(other) {
            let i = after.slot_of(other);
            assert(after.slots[i] == pool.slots[i]);
            lemma_slot_found(pool, i);
        }
    }
}

/// Every record that idle eviction keeps was there before, and survives.
pub proof fn lemma_swept_members(records: Seq<ClientRecord>, now: u64, max_idle_time: u64)
    ensures
        forall|a: int|
            0 <= a < swept(records, now, max_idle_time).len() ==> {
                &&& records.contains(#[trigger] swept(records, now, max_idle_time)[a])
                &&& swept(records, now, max_idle_time)[a].survives(now, max_idle_time)
            },
        forall|b: int|
            0 <= b < records.len() && (#[trigger] records[b]).survives(now, max_idle_time)
                ==> swept(records, now, max_idle_time).contains(records[b]),
        swept(records, now, max_idle_time).len() <= records.len(),
    decreases records.len(),
{
    if records.len() > 0 {
        let init = records.drop_last();
        let kept = swept(init, now, max_idle_time);
        let all = swept(records, now, max_idle_time);
        lemma_swept_members(init, now, max_idle_time);
        assert forall|a: int| 0 <= a < all.len() implies records.contains(#[trigger] all[a])
            && all[a].survives(now, max_idle_time) by {
            if a < kept.len() {
                assert(all[a] == kept[a]);
                let k = choose|k: int| 0 <= k < init.len() && init[k] == kept[a];
                assert(records[k] == kept[a]);
            } else {
                assert(all[a] == records[records.len() - 1]);
            }
        }
        assert forall|b: int|
            0 <= b < records.len() && (#[trigger] records[b]).survives(
                now,
                max_idle_time,
            ) implies all.contains(records[b]) by {
            if b < init.len() {
                assert(init[b] == records[b]);
                let k = choose|k: int| 0 <= k < kept.len() && kept[k] == init[b];
                assert(all[k] == records[b]);
            } else {
                assert(all[all.len() - 1] == records[b]);
            }
        }
    }
}

/// Idle eviction keeps the identifiers in order.
pub proof fn lemma_swept_ordered(records: Seq<ClientRecord>, now: u64, max_idle_time: u64, bound: u64)
    requires
        ids_ordered(records, bound),
    ensures
        ids_ordered(swept(records, now, max_idle_time), bound),
    decreases records.len(),
{
    if records.len() > 0 {
        let init = records.drop_last();
        let kept = swept(init, now, max_idle_time);
        let all = swept(records, now, max_idle_time);
        assert(ids_ordered(init, bound)) by {
            assert forall|a: int, b: int| 0 <= a < b < init.len() implies (#[trigger] init[a]).instance_id
                < (#[trigger] init[b]).instance_id by {
                assert(init[a] == records[a] && init[b] == records[b]);
            }
            assert forall|a: int| 0 <= a < init.len() implies (#[trigger] init[a]).instance_id
                < bound by {
                assert(init[a] == records[a]);
            }
        }
        lemma_swept_ordered(init, now, max_idle_time, bound);
        lemma_swept_members(init, now, max_idle_time);
        assert forall|a: int, b: int| 0 <= a < b < all.len() implies (#[trigger] all[a]).instance_id
            < (#[trigger] all[b]).instance_id by {
            if b < kept.len() {
                assert(all[a] == kept[a] && all[b] == kept[b]);
            } else {
                assert(all[a] == kept[a]);
                let k = choose|k: int| 0 <= k < init.len() && init[k] == kept[a];
                assert(records[k] == kept[a]);
                assert(all[b] == records[records.len() - 1]);
            }
        }
        assert forall|a: int| 0 <= a < all.len() implies (#[trigger] all[a]).instance_id
            < bound by {
            if a < kept.len() {
                assert(all[a] == kept[a]);
            } else {
                assert(all[a] == records[records.len() - 1]);
            }
        }
    }
}

/// Every slot that idle eviction leaves comes from a slot with the same
/// language, holds what that slot keeps, and holds at least one record.
pub proof fn lemma_swept_slots_members(slots: Seq<LanguageSlot>, now: u64, max_idle_time: u64)
    ensures
        forall|a: int|
            0 <= a < swept_slots(slots, now, max_idle_time).len() ==> exists|k: int|
                {
                    &&& 0 <= k < slots.len()
                    &&& (#[trigger] slots[k]).language == (#[trigger] swept_slots(
                        slots,
                        now,
                        max_idle_time,
                    )[a]).language
                    &&& swept_slots(slots, now, max_idle_time)[a].clients == swept(
                        slots[k].clients,
                        now,
                        max_idle_time,
                    )
                    &&& swept(slots[k].clients, now, max_idle_time).len() > 0
                },
        swept_slots(slots, now, max_idle_time).len() <= slots.len(),
    decreases slots.len(),
{
    if slots.len() > 0 {
        let init = slots.drop_last();
        let kept = swept_slots(init, now, max_idle_time);
        let all = swept_slots(slots, now, max_idle_time);
        lemma_swept_slots_members(init, now, max_idle_time);
        assert forall|a: int| 0 <= a < all.len() implies exists|k: int|
            {
                &&& 0 <= k < slots.len()
                &&& (#[trigger] slots[k]).language == (#[trigger] all[a]).language
                &&& all[a].clients == swept(slots[k].clients, now, max_idle_time)
                &&& swept(slots[k].clients, now, max_idle_time).len() > 0
            } by {
            if a < kept.len() {
                assert(all[a] == kept[a]);
                let k = choose|k: int|
                    {
                        &&& 0 <= k < init.len()
                        &&& (#[trigger] init[k]).language == kept[a].language
                        &&& kept[a].clients == swept(init[k].clients, now, max_idle_time)
                        &&& swept(init[k].clients, now, max_idle_time).len() > 0
                    };
                assert(slots[k] == init[k]);
            } else {
                let k = slots.len() - 1;
                assert(slots[k].language == all[a].language);
            }
        }
    }
}

/// Idle eviction keeps a pool well formed.
pub proof fn lemma_cleanup_wf(pool: PoolModel, now: u64)
    requires
        pool.wf(),
    ensures
        pool.cleanup(now).wf(),
{
    lemma_swept_slots_wf(pool.slots, now, pool.config.max_idle_time, pool.next_instance_id);
}

proof fn lemma_swept_slots_wf(slots: Seq<LanguageSlot>, now: u64, max_idle_time: u64, bound: u64)
    requires
        forall|i: int, j: int|
            0 <= i < j < slots.len() ==> (#[trigger] slots[i]).language != (
            #[trigger] slots[j]).language,
        forall|i: int| 0 <= i < slots.len() ==> ids_ordered((#[trigger] slots[i]).clients, bound),
    ensures
        forall|i: int, j: int|
            0 <= i < j < swept_slots(slots, now, max_idle_time).len() ==> (#[trigger] swept_slots(
                slots,
                now,
                max_idle_time,
            )[i]).language != (#[trigger] swept_slots(slots, now, max_idle_time)[j]).language,
        forall|i: int|
            0 <= i < swept_slots(slots, now, max_idle_time).len() ==> ids_ordered(
                (#[trigger] swept_slots(slots, now, max_idle_time)[i]).clients,
                bound,
            ),
    decreases slots.len(),
{
    if slots.len() > 0 {
        let init = slots.drop_last();
        let kept = swept_slots(init, now, max_idle_time);
        let all = swept_slots(slots, now, max_idle_time);
        let last = slots.last();
        assert forall|i: int, j: int| 0 <= i < j < init.len() implies (#[trigger] init[i]).language
            != (#[trigger] init[j]).language by {
            assert(init[i] == slots[i] && init[j] == slots[j]);
        }
        assert forall|i: int| 0 <= i < init.len() implies ids_ordered(
            (#[trigger] init[i]).clients,
            bound,
        ) by {
            assert(init[i] == slots[i]);
        }
        lemma_swept_slots_wf(init, now, max_idle_time, bound);
        lemma_swept_slots_members(init, now, max_idle_time);
        lemma_swept_ordered(last.clients, now, max_idle_time, bound);
        assert forall|i: int, j: int| 0 <= i < j < all.len() implies (#[trigger] all[i]).language
            != (#[trigger] all[j]).language by {
            if j < kept.len() {
                assert(all[i] == kept[i] && all[j] == kept[j]);
            } else {
                assert(all[i] == kept[i]);
                let k = choose|k: int|
                    {
                        &&& 0 <= k < init.len()
                        &&& (#[trigger] init[k]).language == kept[i].language
                        &&& kept[i].clients == swept(init[k].clients, now, max_idle_time)
                        &&& swept(init[k].clients, now, max_idle_time).len() > 0
                    };
                assert(init[k] == slots[k]);
                assert(slots[k].language != slots[slots.len() - 1].language);
            }
        }
        assert forall|i: int| 0 <= i < all.len() implies ids_ordered(
            (#[trigger] all[i]).clients,
            bound,
        ) by {
            if i < kept.len() {
                assert(all[i] == kept[i]);
            }
        }
    }
}

} // verus!
