//! The registry itself: the shared store of records, its version counter
//! and the operations that clients call.

use crate::client::{fresh_client, Client, ClientView};
use crate::ident::{is_hyphenated_id, random_id};
use crate::model::{
    has_id, lemma_evicted_wf, lemma_survivors, live_at, recolored, survivors, synced, views,
    PollView, RegistryView, StateView,
};
use vstd::prelude::*;

verus! {

/// Liveness window of a registry made by `Registry::new`, in milliseconds.
pub const TIMEOUT_MS: u64 = 2000;

/// Sweep interval of a registry made by `Registry::new`, in milliseconds.
pub const CHECK_TIMEOUT_EVERY_MS: u64 = 4000;

/// What the transport tells a caller whose id the registry does not hold.
pub const NOT_REGISTERED_ERROR: &'static str = "owwwo you dwo nwot hwave an acwount :3";

/// What the transport tells a caller whose new id was in use already.
pub const ID_TAKEN_ERROR: &'static str = "that id is taken, try again";

/// Why a registry operation was turned down.
#[derive(Clone, Copy, Debug, PartialEq, Eq, Structural)]
pub enum RegistryError {
    /// The id is not, or no longer, in the registry. The caller registers anew.
    NotRegistered,
    /// The id offered for a new record is already in use.
    IdTaken,
}

impl RegistryError {
    /// The text that goes to the caller.
    pub fn message(&self) -> (text: String)
        ensures
            text@ == match *self {
                RegistryError::NotRegistered => NOT_REGISTERED_ERROR@,
                RegistryError::IdTaken => ID_TAKEN_ERROR@,
            },
    {
        match self {
            RegistryError::NotRegistered => String::from_str(NOT_REGISTERED_ERROR),
            RegistryError::IdTaken => String::from_str(ID_TAKEN_ERROR),
        }
    }
}

/// The state that pollers receive: every record and the version marker.
pub struct GlobalState {
    /// The records, in insertion order.
    pub clients: Vec<Client>,
    /// The version of the registry that the records were taken at.
    pub last_updated: u64,
}

impl View for GlobalState {
    type V = StateView;

    open spec fn view(&self) -> StateView {
        StateView { clients: views(self.clients@), last_updated: self.last_updated as nat }
    }
}

/// What a poll's result stands for.
pub open spec fn reply_view(reply: Result<Option<GlobalState>, RegistryError>) -> PollView {
    match reply {
        Ok(Some(state)) => Ok(Some(state@)),
        Ok(None) => Ok(None),
        Err(e) => Err(e),
    }
}

/// The store of all records, with the bookkeeping of the sweeper.
pub struct Registry {
    state: GlobalState,
    last_check: u64,
    timeout_ms: u64,
    check_every_ms: u64,
}

impl View for Registry {
    type V = RegistryView;

    closed spec fn view(&self) -> RegistryView {
        RegistryView {
            clients: views(self.state.clients@),
            version: self.state.last_updated as nat,
            last_check: self.last_check as nat,
            timeout_ms: self.timeout_ms as nat,
            check_every_ms: self.check_every_ms as nat,
        }
    }
}

impl Registry {
    /// The invariant of the type, stated on its view.
    pub open spec fn wf(&self) -> bool {
        self@.wf()
    }

    /// An empty registry with the default liveness window and sweep interval.
    pub fn new() -> (registry: Registry)
        ensures
            registry@ == RegistryView::empty(TIMEOUT_MS as nat, CHECK_TIMEOUT_EVERY_MS as nat),
            registry.wf(),
    {
        Registry::with_timing(TIMEOUT_MS, CHECK_TIMEOUT_EVERY_MS)
    }

    /// An empty registry with a liveness window and a sweep interval of the caller's choice.
    pub fn with_timing(timeout_ms: u64, check_every_ms: u64) -> (registry: Registry)
        ensures
            registry@ == RegistryView::empty(timeout_ms as nat, check_every_ms as nat),
            registry.wf(),
    {
        let registry = Registry {
            state: GlobalState { clients: Vec::new(), last_updated: 0 },
            last_check: 0,
            timeout_ms,
            check_every_ms,
        };
        assert(registry@.clients =~= Seq::<ClientView>::empty());
        registry
    }

    /// The current version.
    pub fn version(&self) -> (version: u64)
        ensures
            version == self@.version,
    {
        self.state.last_updated
    }

    /// The time of the last sweep.
    pub fn last_check(&self) -> (at: u64)
        ensures
            at == self@.last_check,
    {
        self.last_check
    }

    /// The number of records.
    pub fn len(&self) -> (n: usize)
        ensures
            n == self@.clients.len(),
    {
        self.state.clients.len()
    }

    /// Every record, in insertion order, with the current version. Changes nothing.
    pub fn snapshot(&self) -> (state: GlobalState)
        ensures
            state@ == self@.state(),
    {
        let clients = self.state.clients.clone();
        assert(views(clients@) =~= views(self.state.clients@));
        GlobalState { clients, last_updated: self.state.last_updated }
    }

    /// Where the record with `uuid` stands, if there is one.
    fn position(&self, uuid: &String) -> (found: Option<usize>)
        ensures
            match found {
                Some(i) => i < self@.clients.len() && self@.clients[i as int].uuid == uuid@,
                None => !has_id(self@.clients, uuid@),
            },
    {
        let mut i: usize = 0;
        while i < self.state.clients.len()
            invariant
                i <= self.state.clients.len(),
                forall|k: int| 0 <= k < i ==> (#[trigger] self@.clients[k]).uuid != uuid@,
            decreases self.state.clients.len() - i,
        {
            if self.state.clients[i].uuid == *uuid {
                return Some(i);
            }
            i += 1;
        }
        None
    }

    /// Removes every record whose last call lies a liveness window or more
    /// before `now`. If any record leaves, the version moves on by one.
    pub fn delete_inactive_clients(&mut self, now: u64)
        requires
            old(self).wf(),
            old(self)@.version < u64::MAX,
        ensures
            final(self)@ == old(self)@.evicted(now as nat),
            final(self).wf(),
    {
        let ghost before = self@;
        let ghost window = self.timeout_ms as nat;
        let mut all: Vec<Client> = Vec::new();
        std::mem::swap(&mut all, &mut self.state.clients);
        let ghost records = all@;
        let count = all.len();
        let mut kept: Vec<Client> = Vec::new();
        for client in it: all
            invariant
                it.seq() == records,
                window == self.timeout_ms as nat,
                views(kept@) == survivors(views(records.take(it.index() as int)), now as nat, window),
        {
            proof {
                let i = it.index() as int;
                assert(records.take(i + 1) =~= records.take(i).push(client));
                assert(views(records.take(i + 1)) =~= views(records.take(i)).push(client@));
                views(records.take(i)).lemma_filter_push(client@, live_at(now as nat, window));
            }
            if now < client.last_ping || now - client.last_ping < self.timeout_ms {
                kept.push(client);
                proof {
                    let i = it.index() as int;
                    assert(views(kept@) =~= survivors(views(records.take(i)), now as nat, window).push(
                        client@,
                    ));
                }
            }
        }
        proof {
            assert(records.take(records.len() as int) =~= records);
            lemma_evicted_wf(before, now as nat);
            lemma_survivors(before.clients, now as nat, window);
        }
        if kept.len() < count {
            self.state.last_updated = self.state.last_updated + 1;
        }
        self.state.clients = kept;
    }

    /// The maintenance at the start of a call: sweeps if the sweep interval
    /// has passed since the last sweep, and notes the time of the sweep.
    fn maintain(&mut self, now: u64)
        requires
            old(self).wf(),
            old(self)@.version < u64::MAX,
        ensures
            final(self)@ == old(self)@.maintained(now as nat),
            final(self).wf(),
    {
        if now >= self.last_check && now - self.last_check >= self.check_every_ms {
            self.last_check = now;
            self.delete_inactive_clients(now);
        }
    }

    /// Adds a record for a participant that brings its own `uuid`: default
    /// colour, last call at `now`, no version seen. The version moves on by
    /// one, so that pollers learn of the arrival. No sweep takes place. An id
    /// that is already in use is turned down and nothing changes.
    pub fn enroll(&mut self, uuid: String, name: String, now: u64) -> (result: Result<
        Client,
        RegistryError,
    >)
        requires
            old(self).wf(),
            old(self)@.version < u64::MAX,
        ensures
            final(self).wf(),
            has_id(old(self)@.clients, uuid@) ==> result == Err::<Client, RegistryError>(
                RegistryError::IdTaken,
            ) && final(self)@ == old(self)@,
            !has_id(old(self)@.clients, uuid@) ==> result is Ok && result->Ok_0@ == fresh_client(
                uuid@,
                name@,
                now as nat,
            ) && final(self)@ == old(self)@.enrolled(uuid@, name@, now as nat),
    {
        if self.position(&uuid).is_some() {
            return Err(RegistryError::IdTaken);
        }
        let client = Client::new(uuid, name, now);
        let copy = client.clone();
        let ghost before = self.state.clients@;
        self.state.clients.push(client);
        self.state.last_updated = self.state.last_updated + 1;
        proof {
            assert(views(self.state.clients@) =~= views(before).push(copy@));
            assert forall|i: int, j: int| 0 <= i < j < self@.clients.len() implies (
            #[trigger] self@.clients[i]).uuid != (#[trigger] self@.clients[j]).uuid by {
                if j < before.len() {
                    assert(views(before)[i].uuid != views(before)[j].uuid);
                } else {
                    assert(views(before)[i].uuid != copy@.uuid);
                }
            }
        }
        Ok(copy)
    }

    /// Registers a new participant under a random id. The record starts
    /// with the default colour and has seen no version yet. Should the id
    /// drawn be in use already, the registration is turned down and nothing
    /// changes; the caller may simply try again. That cannot happen while
    /// no record carries an id of the random kind, as in an empty registry.
    pub fn register_user(&mut self, name: String, now: u64) -> (result: Result<
        Client,
        RegistryError,
    >)
        requires
            old(self).wf(),
            old(self)@.version < u64::MAX,
        ensures
            final(self).wf(),
            match result {
                Ok(client) => {
                    &&& is_hyphenated_id(client.uuid@)
                    &&& !has_id(old(self)@.clients, client.uuid@)
                    &&& client@ == fresh_client(client.uuid@, name@, now as nat)
                    &&& final(self)@ == old(self)@.enrolled(client.uuid@, name@, now as nat)
                },
                Err(e) => e == RegistryError::IdTaken && final(self)@ == old(self)@,
            },
            (forall|i: int|
                0 <= i < old(self)@.clients.len() ==> !is_hyphenated_id(
                    (#[trigger] old(self)@.clients[i]).uuid,
                )) ==> result is Ok,
    {
        let uuid = random_id();
        self.enroll(uuid, name, now)
    }

    /// Changes the colour of the record with `uuid`, after the maintenance
    /// that starts every call. The record's last call becomes `now` and the
    /// version moves on by one, also where the colour is the one it had. The
    /// update is no poll: the record has not seen the version that it made.
    /// An id that the registry does not hold, or no longer holds after the
    /// maintenance, is turned down.
    pub fn update_color(&mut self, uuid: String, color: u16, now: u64) -> (result: Result<
        (),
        RegistryError,
    >)
        requires
            old(self).wf(),
            old(self)@.version + 2 <= u64::MAX,
        ensures
            final(self).wf(),
            final(self)@ == old(self)@.after_update(uuid@, color, now as nat),
            result == if has_id(old(self)@.maintained(now as nat).clients, uuid@) {
                Ok::<(), RegistryError>(())
            } else {
                Err::<(), RegistryError>(RegistryError::NotRegistered)
            },
    {
        self.maintain(now);
        let ghost m = self@;
        match self.position(&uuid) {
            None => Err(RegistryError::NotRegistered),
            Some(i) => {
                self.state.clients[i].last_ping = now;
                self.state.clients[i].color = color;
                self.state.last_updated = self.state.last_updated + 1;
                proof {
                    assert(self@.clients =~= recolored(m.clients, uuid@, color, now as nat)) by {
                        assert forall|k: int| 0 <= k < m.clients.len() implies self@.clients[k]
                            == recolored(m.clients, uuid@, color, now as nat)[k] by {
                            if k != i {
                                assert(m.clients[k].uuid != m.clients[i as int].uuid);
                            }
                        }
                    }
                    assert forall|a: int, b: int| 0 <= a < b < self@.clients.len() implies (
                    #[trigger] self@.clients[a]).uuid != (#[trigger] self@.clients[b]).uuid by {
                        assert(m.clients[a].uuid != m.clients[b].uuid);
                    }
                }
                Ok(())
            },
        }
    }

    /// Answers a poll by the record with `uuid`, after the maintenance that
    /// starts every call. The record's last call becomes `now`. If the record
    /// has seen the current version already, there is nothing to send;
    /// otherwise the answer is the full state as it stands after this call,
    /// and the record is noted as having seen the current version. A poll
    /// does not move the version. An id that the registry does not hold, or
    /// no longer holds after the maintenance, is turned down.
    pub fn fetch_global_state(&mut self, uuid: String, now: u64) -> (reply: Result<
        Option<GlobalState>,
        RegistryError,
    >)
        requires
            old(self).wf(),
            old(self)@.version < u64::MAX,
        ensures
            final(self).wf(),
            final(self)@ == old(self)@.after_poll(uuid@, now as nat),
            reply_view(reply) == old(self)@.poll_reply(uuid@, now as nat),
    {
        self.maintain(now);
        let ghost m = self@;
        match self.position(&uuid) {
            None => Err(RegistryError::NotRegistered),
            Some(i) => {
                let unchanged = self.state.clients[i].last_updated == self.state.last_updated;
                self.state.clients[i].last_ping = now;
                self.state.clients[i].last_updated = self.state.last_updated;
                proof {
                    assert(self@.clients =~= synced(m.clients, uuid@, now as nat, m.version)) by {
                        assert forall|k: int| 0 <= k < m.clients.len() implies self@.clients[k]
                            == synced(m.clients, uuid@, now as nat, m.version)[k] by {
                            if k != i {
                                assert(m.clients[k].uuid != m.clients[i as int].uuid);
                            }
                        }
                    }
                    assert forall|a: int, b: int| 0 <= a < b < self@.clients.len() implies (
                    #[trigger] self@.clients[a]).uuid != (#[trigger] self@.clients[b]).uuid by {
                        assert(m.clients[a].uuid != m.clients[b].uuid);
                    }
                    assert(unchanged == m.is_synced(uuid@)) by {
                        if m.is_synced(uuid@) {
                            let k = choose|k: int|
                                0 <= k < m.clients.len() && (#[trigger] m.clients[k]).uuid == uuid@
                                    && m.clients[k].last_updated == m.version;
                            if k != i {
                                assert(m.clients[k].uuid != m.clients[i as int].uuid);
                            }
                        }
                    }
                }
                if unchanged {
                    Ok(None)
                } else {
                    Ok(Some(self.snapshot()))
                }
            },
        }
    }

    /// Whether a record with `uuid` is in the registry.
    pub fn contains(&self, uuid: &String) -> (present: bool)
        ensures
            present == has_id(self@.clients, uuid@),
    {
        self.position(uuid).is_some()
    }
}

} // verus!
