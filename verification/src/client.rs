//! The record of one connected participant and its mathematical view.

use vstd::prelude::*;

verus! {

/// One connected participant.
pub struct Client {
    /// Human-readable label, fixed at registration.
    pub name: String,
    /// Hue picked by the participant.
    pub color: u16,
    /// Time of the participant's last call, in milliseconds since the epoch.
    pub last_ping: u64,
    /// Opaque identifier, the sole lookup key.
    pub uuid: String,
    /// Registry version that the participant last observed; 0 before the first poll.
    pub last_updated: u64,
}

/// What a `Client` stands for in contracts.
pub ghost struct ClientView {
    pub name: Seq<char>,
    pub color: u16,
    pub last_ping: nat,
    pub uuid: Seq<char>,
    pub last_updated: nat,
}

impl View for Client {
    type V = ClientView;

    open spec fn view(&self) -> ClientView {
        ClientView {
            name: self.name@,
            color: self.color,
            last_ping: self.last_ping as nat,
            uuid: self.uuid@,
            last_updated: self.last_updated as nat,
        }
    }
}

/// The record that registration creates: default colour, never synced.
pub open spec fn fresh_client(uuid: Seq<char>, name: Seq<char>, now: nat) -> ClientView {
    ClientView { name, color: 0, last_ping: now, uuid, last_updated: 0 }
}

impl Client {
    /// A record for a participant that registers at `now`.
    pub fn new(uuid: String, name: String, now: u64) -> (client: Client)
        ensures
            client@ == fresh_client(uuid@, name@, now as nat),
    {
        Client { name, color: 0, last_ping: now, uuid, last_updated: 0 }
    }
}

impl Clone for Client {
    fn clone(&self) -> (copy: Client)
        ensures
            copy == *self,
    {
        Client {
            name: self.name.clone(),
            color: self.color,
            last_ping: self.last_ping,
            uuid: self.uuid.clone(),
            last_updated: self.last_updated,
        }
    }
}

} // verus!
