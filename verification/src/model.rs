//! The mathematical model of the registry: its view and the transitions
//! that the executable operations are held to.

use crate::client::{fresh_client, Client, ClientView};
use vstd::prelude::*;

verus! {

/// What a snapshot of the registry stands for: the records in insertion
/// order and the version marker they were taken at.
pub ghost struct StateView {
    pub clients: Seq<ClientView>,
    pub last_updated: nat,
}

/// What a registry stands for.
pub ghost struct RegistryView {
    /// The records, in insertion order.
    pub clients: Seq<ClientView>,
    /// Counts the observable changes made so far.
    pub version: nat,
    /// Time of the last sweep.
    pub last_check: nat,
    /// Liveness window: a record this long without a call is stale.
    pub timeout_ms: nat,
    /// Least time between two sweeps.
    pub check_every_ms: nat,
}

/// The views of a sequence of records, one for one.
pub open spec fn views(clients: Seq<Client>) -> Seq<ClientView> {
    clients.map_values(|c: Client| c@)
}

/// Some record carries `id`.
pub open spec fn has_id(clients: Seq<ClientView>, id: Seq<char>) -> bool {
    exists|i: int| 0 <= i < clients.len() && (#[trigger] clients[i]).uuid == id
}

/// No two records carry the same id.
pub open spec fn distinct_ids(clients: Seq<ClientView>) -> bool {
    forall|i: int, j: int|
        0 <= i < j < clients.len() ==> (#[trigger] clients[i]).uuid != (#[trigger] clients[j]).uuid
}

/// A record is live while less than `window` has passed since its last call.
pub open spec fn is_live(c: ClientView, now: nat, window: nat) -> bool {
    now - c.last_ping < window
}

/// The liveness test at one moment, as a predicate on records.
pub open spec fn live_at(now: nat, window: nat) -> spec_fn(ClientView) -> bool {
    |c: ClientView| is_live(c, now, window)
}

/// The records that a sweep at `now` keeps, in their order.
pub open spec fn survivors(clients: Seq<ClientView>, now: nat, window: nat) -> Seq<ClientView> {
    clients.filter(live_at(now, window))
}

/// The records after the one with `id` changed its colour at `now`.
pub open spec fn recolored(clients: Seq<ClientView>, id: Seq<char>, color: u16, now: nat) -> Seq<
    ClientView,
> {
    clients.map_values(
        |c: ClientView|
            if c.uuid == id {
                ClientView { color, last_ping: now, ..c }
            } else {
                c
            },
    )
}

/// The records after the one with `id` polled at `now` and saw `version`.
pub open spec fn synced(clients: Seq<ClientView>, id: Seq<char>, now: nat, version: nat) -> Seq<
    ClientView,
> {
    clients.map_values(
        |c: ClientView|
            if c.uuid == id {
                ClientView { last_ping: now, last_updated: version, ..c }
            } else {
                c
            },
    )
}

/// What a poll answers: an error, nothing new, or the full state.
pub type PollView = Result<Option<StateView>, crate::registry::RegistryError>;

impl RegistryView {
    /// An empty registry that has never swept.
    pub open spec fn empty(timeout_ms: nat, check_every_ms: nat) -> RegistryView {
        RegistryView { clients: Seq::empty(), version: 0, last_check: 0, timeout_ms, check_every_ms }
    }

    /// Ids are unique, no record has seen a version that does not exist
    /// yet, and version 0 is that of a registry which nobody has joined, so
    /// that a record which has seen version 0 has seen none.
    pub open spec fn wf(self) -> bool {
        &&& distinct_ids(self.clients)
        &&& forall|i: int|
            0 <= i < self.clients.len() ==> (#[trigger] self.clients[i]).last_updated
                <= self.version
        &&& self.clients.len() > 0 ==> self.version > 0
    }

    /// What a snapshot taken now holds.
    pub open spec fn state(self) -> StateView {
        StateView { clients: self.clients, last_updated: self.version }
    }

    /// The record with `id` has seen the current version.
    pub open spec fn is_synced(self, id: Seq<char>) -> bool {
        exists|i: int|
            0 <= i < self.clients.len() && (#[trigger] self.clients[i]).uuid == id
                && self.clients[i].last_updated == self.version
    }

    /// A sweep at `now`: stale records leave, and if any left the version
    /// moves on by one, however many they were.
    pub open spec fn evicted(self, now: nat) -> RegistryView {
        let kept = survivors(self.clients, now, self.timeout_ms);
        RegistryView {
            clients: kept,
            version: if kept.len() < self.clients.len() {
                self.version + 1
            } else {
                self.version
            },
            ..self
        }
    }

    /// The sweep interval has passed since the last sweep.
    pub open spec fn sweep_due(self, now: nat) -> bool {
        now - self.last_check >= self.check_every_ms
    }

    /// The maintenance at the start of a call: a sweep if one is due.
    pub open spec fn maintained(self, now: nat) -> RegistryView {
        if self.sweep_due(now) {
            RegistryView { last_check: now, ..self.evicted(now) }
        } else {
            self
        }
    }

    /// A new record with `id` joins; peers learn of it by the version.
    pub open spec fn enrolled(self, id: Seq<char>, name: Seq<char>, now: nat) -> RegistryView {
        RegistryView {
            clients: self.clients.push(fresh_client(id, name, now)),
            version: self.version + 1,
            ..self
        }
    }

    /// The registry after `id` asked to change its colour at `now`.
    pub open spec fn after_update(self, id: Seq<char>, color: u16, now: nat) -> RegistryView {
        let m = self.maintained(now);
        if has_id(m.clients, id) {
            RegistryView {
                clients: recolored(m.clients, id, color, now),
                version: m.version + 1,
                ..m
            }
        } else {
            m
        }
    }

    /// The registry after `id` polled at `now`.
    pub open spec fn after_poll(self, id: Seq<char>, now: nat) -> RegistryView {
        let m = self.maintained(now);
        if has_id(m.clients, id) {
            RegistryView { clients: synced(m.clients, id, now, m.version), ..m }
        } else {
            m
        }
    }

    /// What a poll by `id` at `now` answers.
    pub open spec fn poll_reply(self, id: Seq<char>, now: nat) -> PollView {
        let m = self.maintained(now);
        if !has_id(m.clients, id) {
            Err(crate::registry::RegistryError::NotRegistered)
        } else if m.is_synced(id) {
            Ok(None)
        } else {
            Ok(Some(self.after_poll(id, now).state()))
        }
    }
}

/// What a sweep keeps: only live records, every live record, in an order
/// that keeps ids unique where they were.
pub proof fn lemma_survivors(clients: Seq<ClientView>, now: nat, window: nat)
    ensures
        survivors(clients, now, window).len() <= clients.len(),
        forall|k: int|
            0 <= k < survivors(clients, now, window).len() ==> is_live(
                #[trigger] survivors(clients, now, window)[k],
                now,
                window,
            ) && clients.contains(survivors(clients, now, window)[k]),
        forall|i: int|
            0 <= i < clients.len() && is_live(clients[i], now, window) ==> survivors(
                clients,
                now,
                window,
            ).contains(#[trigger] clients[i]),
        distinct_ids(clients) ==> distinct_ids(survivors(clients, now, window)),
    decreases clients.len(),
{
    let p = live_at(now, window);
    let kept = survivors(clients, now, window);
    if clients.len() == 0 {
        reveal(Seq::filter);
    } else {
        let front = clients.drop_last();
        let last = clients.last();
        let front_kept = survivors(front, now, window);
        lemma_survivors(front, now, window);
        assert(front.push(last) =~= clients);
        front.lemma_filter_push(last, p);
        assert forall|k: int| 0 <= k < kept.len() implies is_live(#[trigger] kept[k], now, window)
            && clients.contains(kept[k]) by {
            if k < front_kept.len() {
                assert(front.contains(front_kept[k]));
                let j = choose|j: int| 0 <= j < front.len() && front[j] == front_kept[k];
                assert(clients[j] == kept[k]);
            } else {
                assert(clients[clients.len() - 1] == kept[k]);
            }
        }
        assert forall|i: int| 0 <= i < clients.len() && is_live(clients[i], now, window) implies kept.contains(
            #[trigger] clients[i],
        ) by {
            if i < front.len() {
                assert(front_kept.contains(front[i]));
                let j = choose|j: int| 0 <= j < front_kept.len() && front_kept[j] == front[i];
                assert(kept[j] == clients[i]);
            } else {
                assert(kept[kept.len() - 1] == clients[i]);
            }
        }
        if distinct_ids(clients) {
            assert(distinct_ids(front)) by {
                assert forall|i: int, j: int| 0 <= i < j < front.len() implies (#[trigger] front[i]).uuid
                    != (#[trigger] front[j]).uuid by {
                    assert(clients[i].uuid != clients[j].uuid);
                }
            }
            assert forall|i: int, j: int| 0 <= i < j < kept.len() implies (#[trigger] kept[i]).uuid
                != (#[trigger] kept[j]).uuid by {
                if j < front_kept.len() {
                    assert(front_kept[i].uuid != front_kept[j].uuid);
                } else {
                    assert(front.contains(front_kept[i]));
                    let k = choose|k: int| 0 <= k < front.len() && front[k] == front_kept[i];
                    assert(clients[k].uuid != clients[clients.len() - 1].uuid);
                }
            }
        }
    }
}

/// A sweep keeps the invariant.
pub proof fn lemma_evicted_wf(r: RegistryView, now: nat)
    requires
        r.wf(),
    ensures
        r.evicted(now).wf(),
        r.maintained(now).wf(),
{
    lemma_survivors(r.clients, now, r.timeout_ms);
    let kept = survivors(r.clients, now, r.timeout_ms);
    assert forall|k: int| 0 <= k < kept.len() implies (#[trigger] kept[k]).last_updated
        <= r.version by {
        assert(r.clients.contains(kept[k]));
        let j = choose|j: int| 0 <= j < r.clients.len() && r.clients[j] == kept[k];
        assert(r.clients[j].last_updated <= r.version);
    }
}

} // verus!
