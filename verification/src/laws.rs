//! What holds of the pool's operations, proved over the model.

use crate::capabilities::CapabilitiesSummary;
use crate::model::{
    ids_ordered, lemma_cleanup_wf, lemma_select_none, lemma_select_some, lemma_select_unique,
    lemma_slot_found, lemma_swept_members, lemma_swept_slots_members, lemma_with_clients,
    ref_total, swept, swept_slots, Acquisition, ClientRecord, LanguageSlot, Matching, PoolModel,
    Selection,
};
use vstd::prelude::*;

verus! {

/// Replacing one record changes the sum of the reference counts by the
/// difference between the two.
pub proof fn lemma_ref_total_update(records: Seq<ClientRecord>, at: int, record: ClientRecord)
    requires
        0 <= at < records.len(),
    ensures
        ref_total(records.update(at, record)) == ref_total(records) - records[at].ref_count
            + record.ref_count,
        records[at].ref_count <= ref_total(records),
    decreases records.len(),
{
    let changed = records.update(at, record);
    if at == records.len() - 1 {
        assert(changed.drop_last() =~= records.drop_last());
    } else {
        lemma_ref_total_update(records.drop_last(), at, record);
        assert(changed.drop_last() =~= records.drop_last().update(at, record));
    }
}

/// Removing one record takes its references out of the sum.
pub proof fn lemma_ref_total_remove(records: Seq<ClientRecord>, at: int)
    requires
        0 <= at < records.len(),
    ensures
        ref_total(records.remove(at)) == ref_total(records) - records[at].ref_count,
    decreases records.len(),
{
    let shorter = records.remove(at);
    if at == records.len() - 1 {
        assert(shorter =~= records.drop_last());
    } else {
        lemma_ref_total_remove(records.drop_last(), at);
        assert(shorter.drop_last() =~= records.drop_last().remove(at));
        assert(shorter.last() == records.last());
    }
}

/// A new record adds its references to the sum.
pub proof fn lemma_ref_total_push(records: Seq<ClientRecord>, record: ClientRecord)
    ensures
        ref_total(records.push(record)) == ref_total(records) + record.ref_count,
{
    assert(records.push(record).drop_last() =~= records);
}

/// The sum of the reference counts is zero exactly when no record is
/// referenced.
pub proof fn lemma_ref_total_zero(records: Seq<ClientRecord>)
    ensures
        ref_total(records) == 0 <==> forall|a: int|
            0 <= a < records.len() ==> (#[trigger] records[a]).ref_count == 0,
    decreases records.len(),
{
    if records.len() > 0 {
        let init = records.drop_last();
        lemma_ref_total_zero(init);
        if ref_total(records) == 0 {
            assert forall|a: int| 0 <= a < records.len() implies (#[trigger] records[a]).ref_count
                == 0 by {
                if a < init.len() {
                    assert(init[a] == records[a]);
                }
            }
        }
        if forall|a: int| 0 <= a < records.len() ==> (#[trigger] records[a]).ref_count == 0 {
            assert forall|a: int| 0 <= a < init.len() implies (#[trigger] init[a]).ref_count
                == 0 by {
                assert(init[a] == records[a]);
            }
            assert(records.last() == records[records.len() - 1]);
        }
    }
}

/// The first phase of an acquisition keeps the pool well formed, touches no
/// other language, and adds one reference to the language unless it asks
/// for a launch. Where it asks for a launch below a cap of at least one,
/// the language has room for one more record. The language is tracked
/// afterwards, unless an acquisition by language identifier asks for a
/// launch for a language that was not tracked: that one leaves the pool as
/// it was.
pub proof fn lemma_acquire(pool: PoolModel, matching: Matching, language: Seq<char>, root: Seq<char>, now: u64)
    requires
        pool.wf(),
    ensures
        ({
            let (after, decision) = pool.acquire(matching, language, root, now);
            &&& after.wf()
            &&& after.config == pool.config
            &&& after.next_instance_id == pool.next_instance_id
            &&& after.tracks(language) == (pool.tracks(language) || !(decision is Launch)
                || matching is LeastLoaded)
            &&& !pool.tracks(language) && matching is FirstMatch ==> after == pool
            &&& after.references(language) == pool.references(language) + if decision is Launch {
                0nat
            } else {
                1nat
            }
            &&& after.clients(language).len() <= pool.clients(language).len()
            &&& decision is Launch && pool.config.max_instances_per_language >= 1
                && pool.clients(language).len() <= pool.config.max_instances_per_language
                ==> after.clients(language).len() < pool.config.max_instances_per_language
            &&& decision is Launch ==> matching.rule(root).select(after.clients(language)) is None
            &&& forall|other: Seq<char>|
                other != language ==> #[trigger] after.clients(other) == pool.clients(other)
            &&& forall|other: Seq<char>|
                other != language ==> #[trigger] after.tracks(other) == pool.tracks(other)
        }),
{
    let records = pool.clients(language);
    let rule = matching.rule(root);
    assert(ids_ordered(records, pool.next_instance_id)) by {
        if pool.tracks(language) {
            lemma_slot_found(pool, pool.slot_of(language));
        }
    }
    lemma_select_some(rule, records);
    lemma_select_some(Selection::OldestIdle, records);
    match rule.select(records) {
        Some(j) => {
            let updated = records.update(j, records[j].touched(now));
            lemma_with_clients(pool, language, updated);
            lemma_ref_total_update(records, j, records[j].touched(now));
        },
        None => {
            if records.len() >= pool.config.max_instances_per_language {
                match Selection::OldestIdle.select(records) {
                    Some(k) => {
                        let shorter = records.remove(k);
                        lemma_with_clients(pool, language, shorter);
                        lemma_ref_total_remove(records, k);
                        assert forall|a: int| 0 <= a < shorter.len() implies !rule.eligible(
                            #[trigger] shorter[a],
                        ) by {
                            if a < k {
                                assert(shorter[a] == records[a]);
                            } else {
                                assert(shorter[a] == records[a + 1]);
                            }
                        }
                        lemma_select_none(rule, shorter);
                    },
                    None => {
                        if records.len() > 0 {
                            let updated = records.update(0, records[0].shared());
                            lemma_with_clients(pool, language, updated);
                            lemma_ref_total_update(records, 0, records[0].shared());
                        } else {
                            lemma_with_clients(pool, language, records);
                        }
                    },
                }
            } else {
                lemma_with_clients(pool, language, records);
            }
        },
    }
}

/// An acquisition by language identifier that asks for a launch without
/// evicting a record leaves the pool exactly as it was: if the launch
/// fails, nothing is left of the acquisition, and a language that was not
/// tracked is not tracked afterwards.
pub proof fn lemma_launch_by_language_leaves_pool(pool: PoolModel, language: Seq<char>, root: Seq<char>, now: u64)
    requires
        pool.wf(),
        pool.acquire(Matching::FirstMatch, language, root, now).1 == (Acquisition::Launch {
            evicted: None,
        }),
    ensures
        pool.acquire(Matching::FirstMatch, language, root, now).0 == pool,
{
    lemma_select_some(Selection::OldestIdle, pool.clients(language));
}

/// Registering a launched client keeps the pool well formed, touches no
/// other language, and puts a record with one reference behind the records
/// of its language.
pub proof fn lemma_register(pool: PoolModel, language: Seq<char>, root: Seq<char>, capabilities: CapabilitiesSummary, now: u64)
    requires
        pool.wf(),
        pool.next_instance_id < u64::MAX,
    ensures
        ({
            let after = pool.register(language, root, capabilities, now);
            &&& after.wf()
            &&& after.config == pool.config
            &&& after.next_instance_id == pool.next_instance_id + 1
            &&& after.clients(language) == pool.clients(language).push(
                pool.fresh_record(root, capabilities, now),
            )
            &&& after.references(language) == pool.references(language) + 1
            &&& forall|other: Seq<char>|
                other != language ==> #[trigger] after.clients(other) == pool.clients(other)
            &&& forall|other: Seq<char>|
                other != language ==> #[trigger] after.tracks(other) == pool.tracks(other)
        }),
{
    let records = pool.clients(language);
    let fresh = pool.fresh_record(root, capabilities, now);
    let raised = PoolModel { next_instance_id: (pool.next_instance_id + 1) as u64, ..pool };
    assert(raised.wf()) by {
        assert forall|i: int| 0 <= i < raised.slots.len() implies ids_ordered(
            (#[trigger] raised.slots[i]).clients,
            raised.next_instance_id,
        ) by {
            assert(ids_ordered(pool.slots[i].clients, pool.next_instance_id));
        }
    }
    assert(ids_ordered(records, pool.next_instance_id)) by {
        if pool.tracks(language) {
            lemma_slot_found(pool, pool.slot_of(language));
        }
    }
    assert(raised.slots == pool.slots);
    assert(raised.tracks(language) == pool.tracks(language));
    assert(raised.slot_of(language) == pool.slot_of(language));
    lemma_with_clients(raised, language, records.push(fresh));
    lemma_ref_total_push(records, fresh);
    let after = pool.register(language, root, capabilities, now);
    assert(after == raised.with_clients(language, records.push(fresh)));
    assert forall|other: Seq<char>| other != language implies #[trigger] after.clients(other)
        == pool.clients(other) by {
        assert(raised.tracks(other) == pool.tracks(other));
        assert(raised.slot_of(other) == pool.slot_of(other));
        assert(raised.clients(other) == pool.clients(other));
    }
    assert forall|other: Seq<char>| other != language implies #[trigger] after.tracks(other)
        == pool.tracks(other) by {
        assert(raised.tracks(other) == pool.tracks(other));
    }
}

/// A release keeps the pool well formed, touches no other language, and
/// takes one reference from the language if it has one.
pub proof fn lemma_release(pool: PoolModel, language: Seq<char>)
    requires
        pool.wf(),
    ensures
        ({
            let after = pool.release(language);
            &&& after.wf()
            &&& after.config == pool.config
            &&& after.next_instance_id == pool.next_instance_id
            &&& after.clients(language).len() == pool.clients(language).len()
            &&& after.references(language) == if pool.references(language) > 0 {
                (pool.references(language) - 1) as nat
            } else {
                0nat
            }
            &&& forall|other: Seq<char>|
                other != language ==> #[trigger] after.clients(other) == pool.clients(other)
            &&& forall|other: Seq<char>|
                other != language ==> #[trigger] after.tracks(other) == pool.tracks(other)
        }),
{
    let records = pool.clients(language);
    assert(ids_ordered(records, pool.next_instance_id)) by {
        if pool.tracks(language) {
            lemma_slot_found(pool, pool.slot_of(language));
        }
    }
    lemma_select_some(Selection::FirstReferenced, records);
    lemma_ref_total_zero(records);
    match Selection::FirstReferenced.select(records) {
        Some(j) => {
            let updated = records.update(j, records[j].released());
            lemma_with_clients(pool, language, updated);
            lemma_ref_total_update(records, j, records[j].released());
        },
        None => {},
    }
}

/// Two acquisitions in a row for the same language and root, of which the
/// first has a client launched, share one record: the second reuses the
/// record that the first registered, and that record then has exactly two
/// references.
pub proof fn lemma_second_acquisition_shares(pool: PoolModel, matching: Matching, language: Seq<char>, root: Seq<char>, capabilities: CapabilitiesSummary, first: u64, second: u64)
    requires
        pool.wf(),
        pool.next_instance_id < u64::MAX,
        pool.acquire(matching, language, root, first).1 is Launch,
    ensures
        ({
            let once = pool.acquire_launched(matching, language, root, capabilities, first);
            let (twice, decision) = once.acquire(matching, language, root, second);
            let last = twice.clients(language).len() - 1;
            &&& decision == Acquisition::Reused { instance_id: pool.next_instance_id }
            &&& twice.clients(language).len() == once.clients(language).len()
            &&& twice.clients(language)[last].instance_id == pool.next_instance_id
            &&& twice.clients(language)[last].ref_count == 2
        }),
{
    let (decided, _) = pool.acquire(matching, language, root, first);
    lemma_acquire(pool, matching, language, root, first);
    lemma_register(decided, language, root, capabilities, first);
    let once = decided.register(language, root, capabilities, first);
    let before = decided.clients(language);
    let records = once.clients(language);
    let fresh = decided.fresh_record(root, capabilities, first);
    let rule = matching.rule(root);
    let last = records.len() - 1;
    lemma_select_some(rule, before);
    assert(records[last] == fresh);
    assert(rule.picks(records, last)) by {
        assert forall|k: int| 0 <= k < records.len() && rule.eligible(
            #[trigger] records[k],
        ) implies k == last by {
            if k < last {
                assert(records[k] == before[k]);
            }
        }
    }
    lemma_select_unique(rule, records, last);
    lemma_with_clients(once, language, records.update(last, records[last].touched(second)));
}

/// Two acquisitions in a row for a language and root of which the pool
/// holds exactly one record, and that one unreferenced, share that record:
/// both reuse it, and it then has exactly two references.
pub proof fn lemma_two_acquisitions_share(pool: PoolModel, matching: Matching, language: Seq<char>, root: Seq<char>, at: int, first: u64, second: u64)
    requires
        pool.wf(),
        0 <= at < pool.clients(language).len(),
        pool.clients(language)[at].project_root == root,
        pool.clients(language)[at].ref_count == 0,
        forall|k: int|
            0 <= k < pool.clients(language).len() && (#[trigger] pool.clients(
                language,
            )[k]).project_root == root ==> k == at,
    ensures
        ({
            let (once, first_decision) = pool.acquire(matching, language, root, first);
            let (twice, second_decision) = once.acquire(matching, language, root, second);
            let shared = Acquisition::Reused { instance_id: pool.clients(language)[at].instance_id };
            &&& first_decision == shared
            &&& second_decision == shared
            &&& twice.clients(language).len() == pool.clients(language).len()
            &&& twice.clients(language)[at].ref_count == 2
        }),
{
    let rule = matching.rule(root);
    let records = pool.clients(language);
    assert(ids_ordered(records, pool.next_instance_id)) by {
        if pool.tracks(language) {
            lemma_slot_found(pool, pool.slot_of(language));
        }
    }
    assert(rule.picks(records, at));
    lemma_select_unique(rule, records, at);
    let touched = records.update(at, records[at].touched(first));
    lemma_with_clients(pool, language, touched);
    assert(rule.picks(touched, at)) by {
        assert forall|k: int| 0 <= k < touched.len() && rule.eligible(
            #[trigger] touched[k],
        ) implies k == at by {
            if k != at {
                assert(touched[k] == records[k]);
            }
        }
    }
    lemma_select_unique(rule, touched, at);
    let once = pool.with_clients(language, touched);
    lemma_with_clients(once, language, touched.update(at, touched[at].touched(second)));
}

/// Within a language no two records have the same identifier.
pub proof fn lemma_instance_ids_differ(pool: PoolModel, language: Seq<char>, a: int, b: int)
    requires
        pool.wf(),
        0 <= a < pool.clients(language).len(),
        0 <= b < pool.clients(language).len(),
        a != b,
    ensures
        pool.clients(language)[a].instance_id != pool.clients(language)[b].instance_id,
{
    lemma_slot_found(pool, pool.slot_of(language));
    let records = pool.clients(language);
    if a < b {
        assert(records[a].instance_id < records[b].instance_id);
    } else {
        assert(records[b].instance_id < records[a].instance_id);
    }
}

/// An acquisition evicts only a record without references: where it names
/// an evicted record, that record was unreferenced, the language was at its
/// cap, and the other records of the language stay as they were.
pub proof fn lemma_acquisition_evicts_idle(pool: PoolModel, matching: Matching, language: Seq<char>, root: Seq<char>, now: u64)
    requires
        pool.wf(),
    ensures
        ({
            let (after, decision) = pool.acquire(matching, language, root, now);
            decision matches Acquisition::Launch { evicted: Some(instance_id) } ==> exists|k: int|
                {
                    &&& 0 <= k < pool.clients(language).len()
                    &&& (#[trigger] pool.clients(language)[k]).instance_id == instance_id
                    &&& pool.clients(language)[k].ref_count == 0
                    &&& pool.clients(language).len() >= pool.config.max_instances_per_language
                    &&& after.clients(language) == pool.clients(language).remove(k)
                }
        }),
{
    let records = pool.clients(language);
    lemma_acquire(pool, matching, language, root, now);
    lemma_select_some(Selection::OldestIdle, records);
    assert(ids_ordered(records, pool.next_instance_id)) by {
        if pool.tracks(language) {
            lemma_slot_found(pool, pool.slot_of(language));
        }
    }
    if let Some(k) = Selection::OldestIdle.select(records) {
        lemma_with_clients(pool, language, records.remove(k));
        assert(records[k].ref_count == 0);
    }
}

/// The pool after one acquisition at each of `times`, each with a launch
/// that succeeds where one is needed.
pub open spec fn acquired_at(pool: PoolModel, matching: Matching, language: Seq<char>, root: Seq<char>, capabilities: CapabilitiesSummary, times: Seq<u64>) -> PoolModel
    decreases times.len(),
{
    if times.len() == 0 {
        pool
    } else {
        acquired_at(
            pool,
            matching,
            language,
            root,
            capabilities,
            times.drop_last(),
        ).acquire_launched(matching, language, root, capabilities, times.last())
    }
}

/// The pool after `count` releases of `language`.
pub open spec fn released_times(pool: PoolModel, language: Seq<char>, count: nat) -> PoolModel
    decreases count,
{
    if count == 0 {
        pool
    } else {
        released_times(pool, language, (count - 1) as nat).release(language)
    }
}

/// Every acquisition adds one reference to its language.
pub proof fn lemma_acquisitions_add_references(pool: PoolModel, matching: Matching, language: Seq<char>, root: Seq<char>, capabilities: CapabilitiesSummary, times: Seq<u64>)
    requires
        pool.wf(),
        pool.next_instance_id + times.len() <= u64::MAX,
    ensures
        ({
            let after = acquired_at(pool, matching, language, root, capabilities, times);
            &&& after.wf()
            &&& after.next_instance_id <= pool.next_instance_id + times.len()
            &&& after.references(language) == pool.references(language) + times.len()
        }),
    decreases times.len(),
{
    if times.len() > 0 {
        let earlier = acquired_at(pool, matching, language, root, capabilities, times.drop_last());
        lemma_acquisitions_add_references(
            pool,
            matching,
            language,
            root,
            capabilities,
            times.drop_last(),
        );
        lemma_acquire(earlier, matching, language, root, times.last());
        let (decided, decision) = earlier.acquire(matching, language, root, times.last());
        if decision is Launch {
            lemma_register(decided, language, root, capabilities, times.last());
        }
    }
}

/// Every release takes one reference from its language, as long as it has
/// one.
pub proof fn lemma_releases_take_references(pool: PoolModel, language: Seq<char>, count: nat)
    requires
        pool.wf(),
    ensures
        released_times(pool, language, count).wf(),
        released_times(pool, language, count).references(language) == if pool.references(language)
            >= count {
            (pool.references(language) - count) as nat
        } else {
            0nat
        },
    decreases count,
{
    if count > 0 {
        lemma_releases_take_references(pool, language, (count - 1) as nat);
        lemma_release(released_times(pool, language, (count - 1) as nat), language);
    }
}

/// As many releases as acquisitions bring the references of a language
/// back to what they were. Where the language had none before, it has none
/// after, so every one of its records is unreferenced and may be evicted
/// once it has been idle for long enough.
pub proof fn lemma_releases_undo_acquisitions(pool: PoolModel, matching: Matching, language: Seq<char>, root: Seq<char>, capabilities: CapabilitiesSummary, times: Seq<u64>)
    requires
        pool.wf(),
        pool.next_instance_id + times.len() <= u64::MAX,
    ensures
        ({
            let acquired = acquired_at(pool, matching, language, root, capabilities, times);
            let released = released_times(acquired, language, times.len());
            &&& released.references(language) == pool.references(language)
            &&& pool.references(language) == 0 ==> forall|a: int|
                0 <= a < released.clients(language).len() ==> (#[trigger] released.clients(
                    language,
                )[a]).ref_count == 0
        }),
{
    let acquired = acquired_at(pool, matching, language, root, capabilities, times);
    lemma_acquisitions_add_references(pool, matching, language, root, capabilities, times);
    lemma_releases_take_references(acquired, language, times.len());
    lemma_ref_total_zero(released_times(acquired, language, times.len()).clients(language));
}

/// Every slot that keeps a record in idle eviction is found among the
/// slots that idle eviction leaves, with the records that it keeps.
pub proof fn lemma_swept_slots_sources(slots: Seq<LanguageSlot>, now: u64, max_idle_time: u64)
    ensures
        forall|k: int|
            0 <= k < slots.len() && swept((#[trigger] slots[k]).clients, now, max_idle_time).len()
                > 0 ==> exists|a: int|
                {
                    &&& 0 <= a < swept_slots(slots, now, max_idle_time).len()
                    &&& (#[trigger] swept_slots(slots, now, max_idle_time)[a]).language
                        == slots[k].language
                    &&& swept_slots(slots, now, max_idle_time)[a].clients == swept(
                        slots[k].clients,
                        now,
                        max_idle_time,
                    )
                },
    decreases slots.len(),
{
    if slots.len() > 0 {
        let init = slots.drop_last();
        let kept = swept_slots(init, now, max_idle_time);
        let all = swept_slots(slots, now, max_idle_time);
        lemma_swept_slots_sources(init, now, max_idle_time);
        assert forall|k: int|
            0 <= k < slots.len() && swept(
                (#[trigger] slots[k]).clients,
                now,
                max_idle_time,
            ).len() > 0 implies exists|a: int|
            {
                &&& 0 <= a < all.len()
                &&& (#[trigger] all[a]).language == slots[k].language
                &&& all[a].clients == swept(slots[k].clients, now, max_idle_time)
            } by {
            if k < init.len() {
                assert(init[k] == slots[k]);
                let a = choose|a: int|
                    {
                        &&& 0 <= a < kept.len()
                        &&& (#[trigger] kept[a]).language == init[k].language
                        &&& kept[a].clients == swept(init[k].clients, now, max_idle_time)
                    };
                assert(all[a] == kept[a]);
            } else {
                let a = all.len() - 1;
                assert(all[a].language == slots[k].language);
            }
        }
    }
}

/// Idle eviction does to every language what it does to a sequence of
/// records: the language keeps exactly its surviving records, in their
/// order.
pub proof fn lemma_cleanup_by_language(pool: PoolModel, now: u64, language: Seq<char>)
    requires
        pool.wf(),
    ensures
        pool.cleanup(now).wf(),
        pool.cleanup(now).clients(language) == swept(
            pool.clients(language),
            now,
            pool.config.max_idle_time,
        ),
        pool.cleanup(now).tracks(language) <==> swept(
            pool.clients(language),
            now,
            pool.config.max_idle_time,
        ).len() > 0,
{
    let max_idle_time = pool.config.max_idle_time;
    let cleaned = pool.cleanup(now);
    lemma_cleanup_wf(pool, now);
    lemma_swept_slots_members(pool.slots, now, max_idle_time);
    lemma_swept_slots_sources(pool.slots, now, max_idle_time);
    let kept = swept(pool.clients(language), now, max_idle_time);
    if cleaned.tracks(language) {
        let a = cleaned.slot_of(language);
        lemma_slot_found(cleaned, a);
        let k = choose|k: int|
            {
                &&& 0 <= k < pool.slots.len()
                &&& (#[trigger] pool.slots[k]).language == cleaned.slots[a].language
                &&& cleaned.slots[a].clients == swept(pool.slots[k].clients, now, max_idle_time)
                &&& swept(pool.slots[k].clients, now, max_idle_time).len() > 0
            };
        lemma_slot_found(pool, k);
    } else {
        if pool.tracks(language) {
            let k = pool.slot_of(language);
            lemma_slot_found(pool, k);
            if swept(pool.slots[k].clients, now, max_idle_time).len() > 0 {
                let a = choose|a: int|
                    {
                        &&& 0 <= a < cleaned.slots.len()
                        &&& (#[trigger] cleaned.slots[a]).language == pool.slots[k].language
                        &&& cleaned.slots[a].clients == swept(
                            pool.slots[k].clients,
                            now,
                            max_idle_time,
                        )
                    };
                assert(cleaned.tracks(language));
            }
        }
        assert(kept =~= Seq::empty());
    }
}

/// Idle eviction never drops a referenced record, however long it has been
/// idle.
pub proof fn lemma_cleanup_keeps_referenced(pool: PoolModel, now: u64, language: Seq<char>, at: int)
    requires
        pool.wf(),
        0 <= at < pool.clients(language).len(),
        pool.clients(language)[at].ref_count > 0,
    ensures
        pool.cleanup(now).clients(language).contains(pool.clients(language)[at]),
{
    lemma_cleanup_by_language(pool, now, language);
    lemma_swept_members(pool.clients(language), now, pool.config.max_idle_time);
}

/// Idle eviction drops an unreferenced record exactly when it has been idle
/// for `max_idle_time` or longer.
pub proof fn lemma_cleanup_drops_idle(pool: PoolModel, now: u64, language: Seq<char>, at: int)
    requires
        pool.wf(),
        0 <= at < pool.clients(language).len(),
        pool.clients(language)[at].ref_count == 0,
    ensures
        pool.cleanup(now).clients(language).contains(pool.clients(language)[at])
            <==> pool.clients(language)[at].idle_time(now) < pool.config.max_idle_time,
{
    let records = pool.clients(language);
    let kept = swept(records, now, pool.config.max_idle_time);
    lemma_cleanup_by_language(pool, now, language);
    lemma_swept_members(records, now, pool.config.max_idle_time);
    if kept.contains(records[at]) {
        let a = choose|a: int| 0 <= a < kept.len() && kept[a] == records[at];
        assert(kept[a].survives(now, pool.config.max_idle_time));
    }
}

/// In a well-formed pool the cap holds of the slots exactly when it holds
/// of the records of every language.
pub proof fn lemma_within_cap_by_language(pool: PoolModel)
    requires
        pool.wf(),
    ensures
        pool.within_cap() <==> forall|language: Seq<char>| #[trigger]
            pool.clients(language).len() <= pool.config.max_instances_per_language,
{
    if pool.within_cap() {
        assert forall|language: Seq<char>| #[trigger]
            pool.clients(language).len() <= pool.config.max_instances_per_language by {
            if pool.tracks(language) {
                lemma_slot_found(pool, pool.slot_of(language));
            }
        }
    }
    if forall|language: Seq<char>| #[trigger]
        pool.clients(language).len() <= pool.config.max_instances_per_language {
        assert forall|i: int| 0 <= i < pool.slots.len() implies (#[trigger] pool.slots[i]).clients.len()
            <= pool.config.max_instances_per_language by {
            lemma_slot_found(pool, i);
            assert(pool.clients(pool.slots[i].language).len()
                <= pool.config.max_instances_per_language);
        }
    }
}

/// With a cap of at least one, a whole acquisition keeps every language
/// within the cap: a record is added only where the language has room, or
/// after an idle record has made room. At the cap with every record busy
/// the acquisition shares a busy record and adds none.
pub proof fn lemma_acquisition_within_cap(pool: PoolModel, matching: Matching, language: Seq<char>, root: Seq<char>, capabilities: CapabilitiesSummary, now: u64)
    requires
        pool.wf(),
        pool.next_instance_id < u64::MAX,
        pool.within_cap(),
        pool.config.max_instances_per_language >= 1,
    ensures
        pool.acquire_launched(matching, language, root, capabilities, now).wf(),
        pool.acquire_launched(matching, language, root, capabilities, now).within_cap(),
{
    let (decided, decision) = pool.acquire(matching, language, root, now);
    let after = pool.acquire_launched(matching, language, root, capabilities, now);
    lemma_acquire(pool, matching, language, root, now);
    lemma_within_cap_by_language(pool);
    if decision is Launch {
        lemma_register(decided, language, root, capabilities, now);
    }
    assert forall|other: Seq<char>| #[trigger]
        after.clients(other).len() <= after.config.max_instances_per_language by {
        assert(pool.clients(other).len() <= pool.config.max_instances_per_language);
        if other != language {
            assert(decided.clients(other) == pool.clients(other));
        }
    }
    lemma_within_cap_by_language(after);
}

/// A release keeps every language within the cap.
pub proof fn lemma_release_within_cap(pool: PoolModel, language: Seq<char>)
    requires
        pool.wf(),
        pool.within_cap(),
    ensures
        pool.release(language).wf(),
        pool.release(language).within_cap(),
{
    let after = pool.release(language);
    lemma_release(pool, language);
    lemma_within_cap_by_language(pool);
    assert forall|other: Seq<char>| #[trigger]
        after.clients(other).len() <= after.config.max_instances_per_language by {
        assert(pool.clients(other).len() <= pool.config.max_instances_per_language);
    }
    lemma_within_cap_by_language(after);
}

/// Idle eviction keeps every language within the cap.
pub proof fn lemma_cleanup_within_cap(pool: PoolModel, now: u64)
    requires
        pool.wf(),
        pool.within_cap(),
    ensures
        pool.cleanup(now).wf(),
        pool.cleanup(now).within_cap(),
{
    let after = pool.cleanup(now);
    lemma_cleanup_wf(pool, now);
    lemma_within_cap_by_language(pool);
    assert forall|other: Seq<char>| #[trigger]
        after.clients(other).len() <= after.config.max_instances_per_language by {
        lemma_cleanup_by_language(pool, now, other);
        lemma_swept_members(pool.clients(other), now, pool.config.max_idle_time);
        assert(pool.clients(other).len() <= pool.config.max_instances_per_language);
    }
    lemma_within_cap_by_language(after);
}

/// The references of `language` after a scope that began at `first` with
/// an acquisition for `root` and ended at once. `launched` tells whether
/// the client that the acquisition may have asked for was launched and
/// registered before the scope ended.
pub open spec fn after_scope(pool: PoolModel, language: Seq<char>, root: Seq<char>, capabilities: CapabilitiesSummary, now: u64, launched: bool) -> PoolModel {
    let (decided, decision) = pool.acquire(Matching::LeastLoaded, language, root, now);
    if !(decision is Launch) {
        decided.release(language)
    } else if launched {
        decided.register(language, root, capabilities, now).release(language)
    } else {
        decided
    }
}

/// A scope that ends leaves the references of its language as they were
/// before it began: what the acquisition added, the release took back, and
/// a scope whose launch never came added nothing.
pub proof fn lemma_scope_restores_references(pool: PoolModel, language: Seq<char>, root: Seq<char>, capabilities: CapabilitiesSummary, now: u64, launched: bool)
    requires
        pool.wf(),
        pool.next_instance_id < u64::MAX,
    ensures
        after_scope(pool, language, root, capabilities, now, launched).wf(),
        after_scope(pool, language, root, capabilities, now, launched).references(language)
            == pool.references(language),
{
    let (decided, decision) = pool.acquire(Matching::LeastLoaded, language, root, now);
    lemma_acquire(pool, Matching::LeastLoaded, language, root, now);
    if !(decision is Launch) {
        lemma_release(decided, language);
    } else if launched {
        lemma_register(decided, language, root, capabilities, now);
        lemma_release(decided.register(language, root, capabilities, now), language);
    }
}

} // verus!
