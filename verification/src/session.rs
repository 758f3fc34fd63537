//! The caller's side of the polling protocol: what a participant asks of
//! the registry next, given what it has heard so far. The transport makes
//! the request and hands the answer back as the next event.

use crate::client::{Client, ClientView};
use crate::model::{views, StateView};
use crate::registry::{GlobalState, NOT_REGISTERED_ERROR};
use vstd::prelude::*;

verus! {

/// What the transport puts in front of the text of an error that says an
/// argument was missing; the registry's refusals travel under that heading.
pub const MISSING_ARGUMENT_PREFIX: &'static str = "missing argument ";

/// Where the exchange that is under way stands.
#[derive(Clone, Copy, Debug, PartialEq, Eq, Structural)]
pub enum Step {
    /// No request is under way.
    Idle,
    /// A registration is under way, and a poll follows it.
    Registering,
    /// A poll is under way.
    Polling,
    /// The registry no longer knew the id; a new registration is under way.
    Recovering,
}

/// What the session hears.
pub enum Event {
    /// The polling timer fired.
    Tick,
    /// The registry registered the participant.
    Registered(Client),
    /// The registration did not go through.
    RegistrationFailed,
    /// The registry answered a poll: the full state, or nothing new.
    Polled(Option<GlobalState>),
    /// The poll failed; the text is the error as the transport words it.
    PollFailed(String),
    /// The participant picked a colour.
    ColorPicked(u16),
}

/// What the session asks of the registry.
#[derive(Debug)]
pub enum Request {
    /// Register a new participant.
    Register,
    /// Poll for the record with this id.
    Poll(String),
    /// Set the colour of the record with this id.
    UpdateColor(String, u16),
}

/// What an `Event` stands for.
pub ghost enum EventView {
    Tick,
    Registered(ClientView),
    RegistrationFailed,
    Polled(Option<StateView>),
    PollFailed(Seq<char>),
    ColorPicked(u16),
}

/// What a `Request` stands for.
pub ghost enum RequestView {
    Register,
    Poll(Seq<char>),
    UpdateColor(Seq<char>, u16),
}

impl View for Event {
    type V = EventView;

    open spec fn view(&self) -> EventView {
        match *self {
            Event::Tick => EventView::Tick,
            Event::Registered(client) => EventView::Registered(client@),
            Event::RegistrationFailed => EventView::RegistrationFailed,
            Event::Polled(Some(state)) => EventView::Polled(Some(state@)),
            Event::Polled(None) => EventView::Polled(None),
            Event::PollFailed(text) => EventView::PollFailed(text@),
            Event::ColorPicked(color) => EventView::ColorPicked(color),
        }
    }
}

impl View for Request {
    type V = RequestView;

    open spec fn view(&self) -> RequestView {
        match *self {
            Request::Register => RequestView::Register,
            Request::Poll(uuid) => RequestView::Poll(uuid@),
            Request::UpdateColor(uuid, color) => RequestView::UpdateColor(uuid@, color),
        }
    }
}

impl Clone for Request {
    fn clone(&self) -> (copy: Request)
        ensures
            copy == *self,
    {
        match self {
            Request::Register => Request::Register,
            Request::Poll(uuid) => Request::Poll(uuid.clone()),
            Request::UpdateColor(uuid, color) => Request::UpdateColor(uuid.clone(), *color),
        }
    }
}

/// What an optional request stands for.
pub open spec fn asked(request: Option<Request>) -> Option<RequestView> {
    match request {
        Some(r) => Some(r@),
        None => None,
    }
}

/// The error text says that the registry does not hold the caller's id.
pub open spec fn says_not_registered(text: Seq<char>) -> bool {
    text == MISSING_ARGUMENT_PREFIX@ + NOT_REGISTERED_ERROR@
}

/// What a session stands for.
pub ghost struct SessionView {
    /// The participant's own record as registered, if it has registered.
    pub client: Option<ClientView>,
    /// The records of the last full state received.
    pub peers: Seq<ClientView>,
    /// The colour picked last.
    pub color: u16,
    /// Where the exchange under way stands.
    pub step: Step,
}

impl SessionView {
    /// A session that has not registered and has heard nothing.
    pub open spec fn start() -> SessionView {
        SessionView { client: None, peers: Seq::empty(), color: 0, step: Step::Idle }
    }

    /// The session after it heard `event`.
    pub open spec fn after(self, event: EventView) -> SessionView {
        match event {
            EventView::Tick => match (self.step, self.client) {
                (Step::Idle, None) => SessionView { step: Step::Registering, ..self },
                (Step::Idle, Some(_)) => SessionView { step: Step::Polling, ..self },
                _ => self,
            },
            EventView::Registered(client) => match self.step {
                Step::Registering => SessionView {
                    client: Some(client),
                    step: Step::Polling,
                    ..self
                },
                Step::Recovering => SessionView { client: Some(client), step: Step::Idle, ..self },
                _ => self,
            },
            EventView::RegistrationFailed => match self.step {
                Step::Registering | Step::Recovering => SessionView { step: Step::Idle, ..self },
                _ => self,
            },
            EventView::Polled(reply) => match (self.step, reply) {
                (Step::Polling, Some(state)) => SessionView {
                    peers: state.clients,
                    step: Step::Idle,
                    ..self
                },
                (Step::Polling, None) => SessionView { step: Step::Idle, ..self },
                _ => self,
            },
            EventView::PollFailed(text) => match self.step {
                Step::Polling => SessionView {
                    step: if says_not_registered(text) {
                        Step::Recovering
                    } else {
                        Step::Idle
                    },
                    ..self
                },
                _ => self,
            },
            EventView::ColorPicked(color) => SessionView { color, ..self },
        }
    }

    /// What the session asks of the registry when it hears `event`.
    pub open spec fn asks(self, event: EventView) -> Option<RequestView> {
        match event {
            EventView::Tick => match (self.step, self.client) {
                (Step::Idle, None) => Some(RequestView::Register),
                (Step::Idle, Some(client)) => Some(RequestView::Poll(client.uuid)),
                _ => None,
            },
            EventView::Registered(client) => match self.step {
                Step::Registering => Some(RequestView::Poll(client.uuid)),
                _ => None,
            },
            EventView::RegistrationFailed => None,
            EventView::Polled(_) => None,
            EventView::PollFailed(text) => match self.step {
                Step::Polling => if says_not_registered(text) {
                    Some(RequestView::Register)
                } else {
                    None
                },
                _ => None,
            },
            EventView::ColorPicked(color) => match self.client {
                Some(client) => Some(RequestView::UpdateColor(client.uuid, color)),
                None => None,
            },
        }
    }
}

/// Whether an error text, as the transport words it, says that the
/// registry does not hold the caller's id.
pub fn is_not_registered(text: &String) -> (yes: bool)
    ensures
        yes == says_not_registered(text@),
{
    let mut expected = String::from_str(MISSING_ARGUMENT_PREFIX);
    expected.append(NOT_REGISTERED_ERROR);
    *text == expected
}

/// One participant's session with the registry.
pub struct Session {
    client: Option<Client>,
    peers: Vec<Client>,
    color: u16,
    step: Step,
}

impl View for Session {
    type V = SessionView;

    closed spec fn view(&self) -> SessionView {
        SessionView {
            client: match self.client {
                Some(client) => Some(client@),
                None => None,
            },
            peers: views(self.peers@),
            color: self.color,
            step: self.step,
        }
    }
}

impl Session {
    /// A session that has not registered yet.
    pub fn new() -> (session: Session)
        ensures
            session@ == SessionView::start(),
    {
        let session = Session { client: None, peers: Vec::new(), color: 0, step: Step::Idle };
        assert(views(session.peers@) =~= Seq::<ClientView>::empty());
        session
    }

    /// Takes in one event and says what to ask of the registry next, if
    /// anything. An answer that no request of this session waits for is
    /// passed over.
    pub fn handle(&mut self, event: Event) -> (request: Option<Request>)
        ensures
            final(self)@ == old(self)@.after(event@),
            asked(request) == old(self)@.asks(event@),
    {
        match event {
            Event::Tick => {
                match self.step {
                    Step::Idle => {
                        let request = match &self.client {
                            None => Request::Register,
                            Some(client) => Request::Poll(client.uuid.clone()),
                        };
                        self.step = if self.client.is_none() {
                            Step::Registering
                        } else {
                            Step::Polling
                        };
                        Some(request)
                    },
                    _ => None,
                }
            },
            Event::Registered(client) => {
                match self.step {
                    Step::Registering => {
                        let uuid = client.uuid.clone();
                        self.client = Some(client);
                        self.step = Step::Polling;
                        Some(Request::Poll(uuid))
                    },
                    Step::Recovering => {
                        self.client = Some(client);
                        self.step = Step::Idle;
                        None
                    },
                    _ => None,
                }
            },
            Event::RegistrationFailed => {
                match self.step {
                    Step::Registering | Step::Recovering => {
                        self.step = Step::Idle;
                    },
                    _ => {},
                }
                None
            },
            Event::Polled(reply) => {
                match self.step {
                    Step::Polling => {
                        if let Some(state) = reply {
                            self.peers = state.clients;
                        }
                        self.step = Step::Idle;
                    },
                    _ => {},
                }
                None
            },
            Event::PollFailed(text) => {
                match self.step {
                    Step::Polling => {
                        if is_not_registered(&text) {
                            self.step = Step::Recovering;
                            Some(Request::Register)
                        } else {
                            self.step = Step::Idle;
                            None
                        }
                    },
                    _ => None,
                }
            },
            Event::ColorPicked(color) => {
                self.color = color;
                match &self.client {
                    Some(client) => Some(Request::UpdateColor(client.uuid.clone(), color)),
                    None => None,
                }
            },
        }
    }

    /// The participant's own record as registered, if it has registered.
    pub fn client(&self) -> (client: Option<&Client>)
        ensures
            match client {
                Some(c) => self@.client == Some(c@),
                None => self@.client is None,
            },
    {
        self.client.as_ref()
    }

    /// The records of the last full state received.
    pub fn peers(&self) -> (peers: &Vec<Client>)
        ensures
            views(peers@) == self@.peers,
    {
        &self.peers
    }

    /// The colour picked last.
    pub fn color(&self) -> (color: u16)
        ensures
            color == self@.color,
    {
        self.color
    }

    /// Where the exchange under way stands.
    pub fn step(&self) -> (step: Step)
        ensures
            step == self@.step,
    {
        self.step
    }
}

/// A first tick registers, and the poll follows at once: once the
/// registration is through, the session polls under the id it was given.
pub proof fn law_session_registers_then_polls(me: ClientView)
    ensures
        SessionView::start().asks(EventView::Tick) == Some(RequestView::Register),
        SessionView::start().after(EventView::Tick).asks(EventView::Registered(me)) == Some(
            RequestView::Poll(me.uuid),
        ),
        SessionView::start().after(EventView::Tick).after(EventView::Registered(me)).client == Some(
            me,
        ),
{
}

/// A session that is told that the registry no longer holds its id starts
/// over: it asks for a new registration, takes the record it is given as its
/// own, and polls under the new id from the next tick on.
pub proof fn law_session_recovers(s: SessionView, text: Seq<char>, anew: ClientView)
    requires
        s.step == Step::Polling,
        says_not_registered(text),
    ensures
        s.asks(EventView::PollFailed(text)) == Some(RequestView::Register),
        s.after(EventView::PollFailed(text)).after(EventView::Registered(anew)).client == Some(anew),
        s.after(EventView::PollFailed(text)).after(EventView::Registered(anew)).asks(
            EventView::Tick,
        ) == Some(RequestView::Poll(anew.uuid)),
{
}

/// While an exchange is under way a tick asks nothing and changes nothing,
/// so a session never has two polls or registrations under way at a time.
pub proof fn law_session_one_exchange_at_a_time(s: SessionView)
    requires
        s.step != Step::Idle,
    ensures
        s.asks(EventView::Tick) is None,
        s.after(EventView::Tick) == s,
{
}

} // verus!
