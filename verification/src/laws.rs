//! What holds of the registry across calls, proved from the model that the
//! operations are held to.

use crate::client::{fresh_client, ClientView};
use crate::model::{
    distinct_ids, has_id, is_live, lemma_evicted_wf, lemma_survivors, recolored, survivors, synced,
    RegistryView,
};
use crate::registry::RegistryError;
use vstd::prelude::*;

verus! {

/// One registration: the id drawn, the name given and the time.
pub ghost struct Arrival {
    pub id: Seq<char>,
    pub name: Seq<char>,
    pub at: nat,
}

/// The registry after the arrivals registered one after the other.
pub open spec fn enrolled_all(r: RegistryView, arrivals: Seq<Arrival>) -> RegistryView
    decreases arrivals.len(),
{
    if arrivals.len() == 0 {
        r
    } else {
        let last = arrivals.last();
        enrolled_all(r, arrivals.drop_last()).enrolled(last.id, last.name, last.at)
    }
}

/// No two arrivals share an id, and none brings an id that `r` holds.
pub open spec fn all_fresh(r: RegistryView, arrivals: Seq<Arrival>) -> bool {
    &&& forall|i: int, j: int|
        0 <= i < j < arrivals.len() ==> (#[trigger] arrivals[i]).id != (#[trigger] arrivals[j]).id
    &&& forall|i: int| 0 <= i < arrivals.len() ==> !has_id(r.clients, (#[trigger] arrivals[i]).id)
}

/// A registration under an unused id keeps the invariant.
pub proof fn lemma_enrolled_wf(r: RegistryView, id: Seq<char>, name: Seq<char>, now: nat)
    requires
        r.wf(),
        !has_id(r.clients, id),
    ensures
        r.enrolled(id, name, now).wf(),
{
    let after = r.enrolled(id, name, now);
    assert forall|i: int, j: int| 0 <= i < j < after.clients.len() implies (
    #[trigger] after.clients[i]).uuid != (#[trigger] after.clients[j]).uuid by {
        if j < r.clients.len() {
            assert(r.clients[i].uuid != r.clients[j].uuid);
        } else {
            assert(r.clients[i].uuid != id);
        }
    }
    assert forall|i: int| 0 <= i < after.clients.len() implies (
    #[trigger] after.clients[i]).last_updated <= after.version by {
        if i < r.clients.len() {
            assert(r.clients[i].last_updated <= r.version);
        }
    }
}

/// A colour update keeps the invariant, and so does a poll.
pub proof fn lemma_calls_keep_wf(r: RegistryView, id: Seq<char>, color: u16, now: nat)
    requires
        r.wf(),
    ensures
        r.after_update(id, color, now).wf(),
        r.after_poll(id, now).wf(),
{
    lemma_evicted_wf(r, now);
    let m = r.maintained(now);
    let u = r.after_update(id, color, now);
    let p = r.after_poll(id, now);
    assert forall|i: int, j: int| 0 <= i < j < u.clients.len() implies (#[trigger] u.clients[i]).uuid
        != (#[trigger] u.clients[j]).uuid by {
        assert(m.clients[i].uuid != m.clients[j].uuid);
    }
    assert forall|i: int| 0 <= i < u.clients.len() implies (#[trigger] u.clients[i]).last_updated
        <= u.version by {
        assert(m.clients[i].last_updated <= m.version);
    }
    assert forall|i: int, j: int| 0 <= i < j < p.clients.len() implies (#[trigger] p.clients[i]).uuid
        != (#[trigger] p.clients[j]).uuid by {
        assert(m.clients[i].uuid != m.clients[j].uuid);
    }
    assert forall|i: int| 0 <= i < p.clients.len() implies (#[trigger] p.clients[i]).last_updated
        <= p.version by {
        assert(m.clients[i].last_updated <= m.version);
    }
}

/// Maintenance never brings in an id: one that is absent stays absent.
pub proof fn lemma_maintenance_adds_no_id(r: RegistryView, id: Seq<char>, now: nat)
    requires
        !has_id(r.clients, id),
    ensures
        !has_id(r.maintained(now).clients, id),
{
    lemma_survivors(r.clients, now, r.timeout_ms);
    let m = r.maintained(now);
    if has_id(m.clients, id) {
        let k = choose|k: int| 0 <= k < m.clients.len() && (#[trigger] m.clients[k]).uuid == id;
        assert(r.clients.contains(m.clients[k]));
        let j = choose|j: int| 0 <= j < r.clients.len() && r.clients[j] == m.clients[k];
        assert(r.clients[j].uuid == id);
    }
}

/// Every registration under a fresh id adds exactly one record: after `n`
/// of them the registry holds `n` more records, in the order of arrival,
/// and all ids in it are distinct.
pub proof fn law_registrations_add_up(r: RegistryView, arrivals: Seq<Arrival>)
    requires
        r.wf(),
        all_fresh(r, arrivals),
    ensures
        enrolled_all(r, arrivals).wf(),
        distinct_ids(enrolled_all(r, arrivals).clients),
        enrolled_all(r, arrivals).clients.len() == r.clients.len() + arrivals.len(),
        enrolled_all(r, arrivals).state().clients.len() == r.clients.len() + arrivals.len(),
        enrolled_all(r, arrivals).version == r.version + arrivals.len(),
        forall|i: int|
            0 <= i < r.clients.len() ==> enrolled_all(r, arrivals).clients[i] == r.clients[i],
        forall|i: int|
            0 <= i < arrivals.len() ==> enrolled_all(r, arrivals).clients[r.clients.len() + i]
                == fresh_client(
                (#[trigger] arrivals[i]).id,
                arrivals[i].name,
                arrivals[i].at,
            ),
    decreases arrivals.len(),
{
    if arrivals.len() > 0 {
        let front = arrivals.drop_last();
        let last = arrivals.last();
        assert(all_fresh(r, front)) by {
            assert forall|i: int, j: int| 0 <= i < j < front.len() implies (#[trigger] front[i]).id
                != (#[trigger] front[j]).id by {
                assert(arrivals[i].id != arrivals[j].id);
            }
            assert forall|i: int| 0 <= i < front.len() implies !has_id(
                r.clients,
                (#[trigger] front[i]).id,
            ) by {
                assert(!has_id(r.clients, arrivals[i].id));
            }
        }
        law_registrations_add_up(r, front);
        let before = enrolled_all(r, front);
        assert(!has_id(before.clients, last.id)) by {
            if has_id(before.clients, last.id) {
                let k = choose|k: int|
                    0 <= k < before.clients.len() && (#[trigger] before.clients[k]).uuid == last.id;
                if k < r.clients.len() {
                    assert(r.clients[k].uuid == last.id);
                    assert(!has_id(r.clients, arrivals[arrivals.len() - 1].id));
                } else {
                    let i = k - r.clients.len();
                    assert(before.clients[r.clients.len() + i] == fresh_client(
                        front[i].id,
                        front[i].name,
                        front[i].at,
                    ));
                    assert(arrivals[i].id != arrivals[arrivals.len() - 1].id);
                }
            }
        }
        lemma_enrolled_wf(before, last.id, last.name, last.at);
        let after = enrolled_all(r, arrivals);
        assert forall|i: int| 0 <= i < arrivals.len() implies after.clients[r.clients.len() + i]
            == fresh_client((#[trigger] arrivals[i]).id, arrivals[i].name, arrivals[i].at) by {
            if i < front.len() {
                assert(before.clients[r.clients.len() + i] == fresh_client(
                    front[i].id,
                    front[i].name,
                    front[i].at,
                ));
            }
        }
    }
}

/// A record that polls before it could be swept out gets the full state on
/// its first poll, and finds itself in it: it starts with no version seen,
/// and its own registration has moved the version on.
pub proof fn law_first_poll_is_full(
    r: RegistryView,
    id: Seq<char>,
    name: Seq<char>,
    registered_at: nat,
    now: nat,
)
    requires
        r.wf(),
        !has_id(r.clients, id),
        !r.enrolled(id, name, registered_at).sweep_due(now) || now - registered_at < r.timeout_ms,
    ensures
        r.enrolled(id, name, registered_at).poll_reply(id, now) matches Ok(Some(state)) && has_id(
            state.clients,
            id,
        ),
{
    let r1 = r.enrolled(id, name, registered_at);
    lemma_enrolled_wf(r, id, name, registered_at);
    lemma_evicted_wf(r1, now);
    lemma_survivors(r1.clients, now, r1.timeout_ms);
    let m = r1.maintained(now);
    let me = fresh_client(id, name, registered_at);
    assert(r1.clients[r1.clients.len() - 1] == me);
    assert(m.clients.contains(me));
    let k = choose|k: int| 0 <= k < m.clients.len() && m.clients[k] == me;
    assert(m.clients[k].uuid == id);
    assert(!m.is_synced(id)) by {
        if m.is_synced(id) {
            let j = choose|j: int|
                0 <= j < m.clients.len() && (#[trigger] m.clients[j]).uuid == id
                    && m.clients[j].last_updated == m.version;
            if j != k {
                if j < k {
                    assert(m.clients[j].uuid != m.clients[k].uuid);
                } else {
                    assert(m.clients[k].uuid != m.clients[j].uuid);
                }
            }
        }
    }
    let state = r1.after_poll(id, now).state();
    assert(state.clients[k].uuid == id);
}

/// A record that has never polled is never taken for up to date: whenever
/// it polls and is still there, it gets the full state.
pub proof fn law_never_synced_gets_full_state(r: RegistryView, id: Seq<char>, now: nat)
    requires
        r.wf(),
        has_id(r.maintained(now).clients, id),
        forall|i: int|
            0 <= i < r.clients.len() && (#[trigger] r.clients[i]).uuid == id
                ==> r.clients[i].last_updated == 0,
    ensures
        r.poll_reply(id, now) == Ok::<_, RegistryError>(Some(r.after_poll(id, now).state())),
{
    lemma_evicted_wf(r, now);
    lemma_survivors(r.clients, now, r.timeout_ms);
    let m = r.maintained(now);
    if m.is_synced(id) {
        let k = choose|k: int|
            0 <= k < m.clients.len() && (#[trigger] m.clients[k]).uuid == id
                && m.clients[k].last_updated == m.version;
        assert(r.clients.contains(m.clients[k]));
        let j = choose|j: int| 0 <= j < r.clients.len() && r.clients[j] == m.clients[k];
        assert(r.clients[j].uuid == id);
    }
}

/// Of two polls by one record with no change in between, the second has
/// nothing to send. The first sends the full state unless the record had
/// seen the current version already.
pub proof fn law_second_poll_is_unchanged(r: RegistryView, id: Seq<char>, first: nat, second: nat)
    requires
        r.wf(),
        has_id(r.maintained(first).clients, id),
        r.after_poll(id, first).maintained(second).clients == r.after_poll(id, first).clients,
    ensures
        !r.maintained(first).is_synced(id) ==> r.poll_reply(id, first) is Ok && r.poll_reply(
            id,
            first,
        )->Ok_0 is Some,
        r.after_poll(id, first).poll_reply(id, second) == Ok::<_, RegistryError>(
            None::<crate::model::StateView>,
        ),
{
    let m = r.maintained(first);
    let r1 = r.after_poll(id, first);
    let m2 = r1.maintained(second);
    let k = choose|k: int| 0 <= k < m.clients.len() && (#[trigger] m.clients[k]).uuid == id;
    assert(r1.clients[k].uuid == id && r1.clients[k].last_updated == r1.version);
    assert(m2.version == r1.version);
    assert(m2.clients[k].uuid == id && m2.clients[k].last_updated == m2.version);
}

/// A colour update reaches every poller: whoever polls next, the updater
/// itself or another record, and however up to date it was, gets the full
/// state, and in it the updater carries the new colour.
pub proof fn law_update_reaches_pollers(
    r: RegistryView,
    updater: Seq<char>,
    color: u16,
    updated_at: nat,
    poller: Seq<char>,
    polled_at: nat,
)
    requires
        r.wf(),
        has_id(r.maintained(updated_at).clients, updater),
        has_id(r.after_update(updater, color, updated_at).maintained(polled_at).clients, poller),
        has_id(r.after_update(updater, color, updated_at).maintained(polled_at).clients, updater),
    ensures
        r.after_update(updater, color, updated_at).poll_reply(poller, polled_at) matches Ok(
            Some(state),
        ) && has_id(state.clients, updater) && forall|k: int|
            0 <= k < state.clients.len() && (#[trigger] state.clients[k]).uuid == updater
                ==> state.clients[k].color == color,
{
    lemma_evicted_wf(r, updated_at);
    lemma_calls_keep_wf(r, updater, color, updated_at);
    let m = r.maintained(updated_at);
    let r1 = r.after_update(updater, color, updated_at);
    lemma_evicted_wf(r1, polled_at);
    lemma_survivors(r1.clients, polled_at, r1.timeout_ms);
    let m2 = r1.maintained(polled_at);
    assert forall|k: int| 0 <= k < m2.clients.len() implies (#[trigger] m2.clients[k]).last_updated
        < m2.version && (m2.clients[k].uuid == updater ==> m2.clients[k].color == color) by {
        assert(r1.clients.contains(m2.clients[k]));
        let j = choose|j: int| 0 <= j < r1.clients.len() && r1.clients[j] == m2.clients[k];
        assert(m.clients[j].last_updated <= m.version);
    }
    assert(!m2.is_synced(poller));
    let state = r1.after_poll(poller, polled_at).state();
    let u = choose|u: int| 0 <= u < m2.clients.len() && (#[trigger] m2.clients[u]).uuid == updater;
    assert(state.clients[u].uuid == updater);
    assert forall|k: int|
        0 <= k < state.clients.len() && (#[trigger] state.clients[k]).uuid
            == updater implies state.clients[k].color == color by {
        assert(m2.clients[k].uuid == updater);
    }
}

/// A record that has made no call for a liveness window or longer leaves
/// with the next call that sweeps, whoever makes that call; the call finds
/// it gone, be it a poll or a colour update by that very record.
pub proof fn law_stale_record_leaves(
    r: RegistryView,
    id: Seq<char>,
    now: nat,
    caller: Seq<char>,
    color: u16,
)
    requires
        r.wf(),
        r.sweep_due(now),
        forall|i: int|
            0 <= i < r.clients.len() && (#[trigger] r.clients[i]).uuid == id ==> !is_live(
                r.clients[i],
                now,
                r.timeout_ms,
            ),
    ensures
        !has_id(r.maintained(now).clients, id),
        r.poll_reply(id, now) == Err::<Option<crate::model::StateView>, _>(
            RegistryError::NotRegistered,
        ),
        !has_id(r.after_poll(caller, now).clients, id),
        !has_id(r.after_update(caller, color, now).clients, id),
{
    lemma_survivors(r.clients, now, r.timeout_ms);
    let m = r.maintained(now);
    if has_id(m.clients, id) {
        let k = choose|k: int| 0 <= k < m.clients.len() && (#[trigger] m.clients[k]).uuid == id;
        assert(is_live(m.clients[k], now, r.timeout_ms));
        assert(r.clients.contains(m.clients[k]));
        let j = choose|j: int| 0 <= j < r.clients.len() && r.clients[j] == m.clients[k];
        assert(r.clients[j].uuid == id);
    }
    lemma_calls_add_no_id(m, id, caller, color, now);
}

/// Neither a poll's nor an update's own step brings in an id.
proof fn lemma_calls_add_no_id(
    m: RegistryView,
    id: Seq<char>,
    caller: Seq<char>,
    color: u16,
    now: nat,
)
    requires
        !has_id(m.clients, id),
    ensures
        !has_id(synced(m.clients, caller, now, m.version), id),
        !has_id(recolored(m.clients, caller, color, now), id),
{
    let s = synced(m.clients, caller, now, m.version);
    if has_id(s, id) {
        let k = choose|k: int| 0 <= k < s.len() && (#[trigger] s[k]).uuid == id;
        assert(m.clients[k].uuid == id);
    }
    let c = recolored(m.clients, caller, color, now);
    if has_id(c, id) {
        let k = choose|k: int| 0 <= k < c.len() && (#[trigger] c[k]).uuid == id;
        assert(m.clients[k].uuid == id);
    }
}

/// An id that the registry does not hold is turned down by every poll and
/// every colour update, and no poll or update brings it back.
pub proof fn law_unknown_id_is_turned_down(
    r: RegistryView,
    id: Seq<char>,
    now: nat,
    caller: Seq<char>,
    color: u16,
)
    requires
        !has_id(r.clients, id),
    ensures
        r.poll_reply(id, now) == Err::<Option<crate::model::StateView>, _>(
            RegistryError::NotRegistered,
        ),
        !has_id(r.maintained(now).clients, id),
        r.after_update(id, color, now) == r.maintained(now),
        !has_id(r.after_poll(caller, now).clients, id),
        !has_id(r.after_update(caller, color, now).clients, id),
{
    lemma_maintenance_adds_no_id(r, id, now);
    lemma_calls_add_no_id(r.maintained(now), id, caller, color, now);
}

/// Two sweeps lie at least a sweep interval apart: after a call that
/// swept, no call sweeps again before the interval has passed.
pub proof fn law_sweeps_keep_their_distance(
    r: RegistryView,
    swept_at: nat,
    later: nat,
    caller: Seq<char>,
    color: u16,
)
    requires
        r.sweep_due(swept_at),
        later - swept_at < r.check_every_ms,
    ensures
        !r.maintained(swept_at).sweep_due(later),
        !r.after_poll(caller, swept_at).sweep_due(later),
        !r.after_update(caller, color, swept_at).sweep_due(later),
        r.after_poll(caller, swept_at).maintained(later) == r.after_poll(caller, swept_at),
        r.after_update(caller, color, swept_at).maintained(later) == r.after_update(
            caller,
            color,
            swept_at,
        ),
{
}

/// Every colour update that finds its record counts as a change, also one
/// that sets the colour that is there already: the version moves on by one
/// with each call, on top of what the sweeps at the start of the calls add.
pub proof fn law_each_update_counts(
    r: RegistryView,
    id: Seq<char>,
    color: u16,
    first: nat,
    second: nat,
)
    requires
        has_id(r.maintained(first).clients, id),
        has_id(r.after_update(id, color, first).maintained(second).clients, id),
    ensures
        r.after_update(id, color, first).version == r.maintained(first).version + 1,
        r.after_update(id, color, first).after_update(id, color, second).version == r.after_update(
            id,
            color,
            first,
        ).maintained(second).version + 1,
        r.maintained(first).clients.len() == r.clients.len() && r.after_update(
            id,
            color,
            first,
        ).maintained(second).clients.len() == r.clients.len() ==> r.after_update(
            id,
            color,
            first,
        ).after_update(id, color, second).version == r.version + 2,
{
    lemma_survivors(r.clients, first, r.timeout_ms);
    let r1 = r.after_update(id, color, first);
    lemma_survivors(r1.clients, second, r1.timeout_ms);
}

/// A sweep is exact: the records it leaves are the live ones, all of them,
/// each once and unchanged.
pub proof fn law_sweep_keeps_exactly_the_live(r: RegistryView, now: nat)
    requires
        r.wf(),
    ensures
        r.evicted(now).wf(),
        forall|k: int|
            0 <= k < r.evicted(now).clients.len() ==> is_live(
                #[trigger] r.evicted(now).clients[k],
                now,
                r.timeout_ms,
            ) && r.clients.contains(r.evicted(now).clients[k]),
        forall|i: int|
            0 <= i < r.clients.len() && is_live(r.clients[i], now, r.timeout_ms) ==> r.evicted(
                now,
            ).clients.contains(#[trigger] r.clients[i]),
        r.evicted(now).version == r.version <==> r.evicted(now).clients == r.clients,
        r.evicted(now).version == r.version || r.evicted(now).version == r.version + 1,
{
    lemma_survivors(r.clients, now, r.timeout_ms);
    lemma_evicted_wf(r, now);
    let kept = survivors(r.clients, now, r.timeout_ms);
    if kept.len() == r.clients.len() {
        lemma_full_length_survivors(r.clients, now, r.timeout_ms);
    }
}

/// Where a sweep keeps as many records as there were, it keeps them as they were.
proof fn lemma_full_length_survivors(clients: Seq<ClientView>, now: nat, window: nat)
    requires
        survivors(clients, now, window).len() == clients.len(),
    ensures
        survivors(clients, now, window) == clients,
    decreases clients.len(),
{
    let p = crate::model::live_at(now, window);
    if clients.len() == 0 {
        assert(survivors(clients, now, window) =~= clients);
    } else {
        let front = clients.drop_last();
        let last = clients.last();
        assert(front.push(last) =~= clients);
        front.lemma_filter_push(last, p);
        lemma_survivors(front, now, window);
        lemma_full_length_survivors(front, now, window);
        assert(survivors(clients, now, window) =~= clients);
    }
}

/// The version never goes back: no operation lowers it, and a registration
/// or a colour update that finds its record raises it.
pub proof fn law_version_never_goes_back(
    r: RegistryView,
    id: Seq<char>,
    name: Seq<char>,
    color: u16,
    now: nat,
)
    ensures
        r.evicted(now).version >= r.version,
        r.maintained(now).version >= r.version,
        r.after_poll(id, now).version == r.maintained(now).version,
        r.after_update(id, color, now).version >= r.version,
        has_id(r.maintained(now).clients, id) ==> r.after_update(id, color, now).version
            > r.version,
        r.enrolled(id, name, now).version > r.version,
{
}

/// Every call that finds its record counts as a sign of life: afterwards
/// the record's last call is the time of this one, and nothing else about
/// the other records has changed.
pub proof fn law_calls_refresh_liveness(r: RegistryView, id: Seq<char>, color: u16, now: nat)
    requires
        has_id(r.maintained(now).clients, id),
    ensures
        r.after_poll(id, now).clients.len() == r.maintained(now).clients.len(),
        r.after_update(id, color, now).clients.len() == r.maintained(now).clients.len(),
        forall|k: int|
            0 <= k < r.maintained(now).clients.len() ==> {
                let before = #[trigger] r.maintained(now).clients[k];
                let polled = r.after_poll(id, now).clients[k];
                let updated = r.after_update(id, color, now).clients[k];
                if before.uuid == id {
                    &&& polled == ClientView {
                        last_ping: now,
                        last_updated: r.maintained(now).version,
                        ..before
                    }
                    &&& updated == ClientView { last_ping: now, color: color, ..before }
                } else {
                    polled == before && updated == before
                }
            },
{
}

/// Every record has made a call since a liveness window before the last sweep.
pub open spec fn seen_since_last_sweep(r: RegistryView) -> bool {
    forall|i: int|
        0 <= i < r.clients.len() ==> r.last_check - (#[trigger] r.clients[i]).last_ping
            <= r.timeout_ms
}

/// Staleness is bounded: as long as the clock does not step back behind the
/// last sweep, a call leaves no record in the registry whose last call lies
/// a sweep interval and a liveness window back, or more. (With an interval
/// and a window of zero there is no such bound to speak of.)
pub proof fn law_staleness_is_bounded(
    r: RegistryView,
    id: Seq<char>,
    name: Seq<char>,
    color: u16,
    now: nat,
)
    requires
        seen_since_last_sweep(r),
        now >= r.last_check,
        r.check_every_ms + r.timeout_ms > 0,
    ensures
        seen_since_last_sweep(RegistryView::empty(r.timeout_ms, r.check_every_ms)),
        seen_since_last_sweep(r.maintained(now)),
        seen_since_last_sweep(r.after_poll(id, now)),
        seen_since_last_sweep(r.after_update(id, color, now)),
        seen_since_last_sweep(r.enrolled(id, name, now)),
        forall|k: int|
            0 <= k < r.maintained(now).clients.len() ==> now - (
            #[trigger] r.maintained(now).clients[k]).last_ping < r.check_every_ms + r.timeout_ms,
        forall|k: int|
            0 <= k < r.after_poll(id, now).clients.len() ==> now - (#[trigger] r.after_poll(
                id,
                now,
            ).clients[k]).last_ping < r.check_every_ms + r.timeout_ms,
        forall|k: int|
            0 <= k < r.after_update(id, color, now).clients.len() ==> now - (
            #[trigger] r.after_update(id, color, now).clients[k]).last_ping < r.check_every_ms
                + r.timeout_ms,
{
    lemma_survivors(r.clients, now, r.timeout_ms);
    let m = r.maintained(now);
    assert forall|k: int| 0 <= k < m.clients.len() implies m.last_check - (
    #[trigger] m.clients[k]).last_ping <= m.timeout_ms && now - m.clients[k].last_ping
        < r.check_every_ms + r.timeout_ms by {
        if r.sweep_due(now) {
            assert(is_live(m.clients[k], now, r.timeout_ms));
        } else {
            assert(r.last_check - r.clients[k].last_ping <= r.timeout_ms);
        }
    }
    let p = r.after_poll(id, now);
    assert forall|k: int| 0 <= k < p.clients.len() implies p.last_check - (
    #[trigger] p.clients[k]).last_ping <= p.timeout_ms && now - p.clients[k].last_ping
        < r.check_every_ms + r.timeout_ms by {
        assert(m.last_check - m.clients[k].last_ping <= m.timeout_ms);
    }
    let u = r.after_update(id, color, now);
    assert forall|k: int| 0 <= k < u.clients.len() implies u.last_check - (
    #[trigger] u.clients[k]).last_ping <= u.timeout_ms && now - u.clients[k].last_ping
        < r.check_every_ms + r.timeout_ms by {
        assert(m.last_check - m.clients[k].last_ping <= m.timeout_ms);
    }
    let e = r.enrolled(id, name, now);
    assert forall|k: int| 0 <= k < e.clients.len() implies e.last_check - (
    #[trigger] e.clients[k]).last_ping <= e.timeout_ms by {
        if k < r.clients.len() {
            assert(r.last_check - r.clients[k].last_ping <= r.timeout_ms);
        }
    }
}

} // verus!
