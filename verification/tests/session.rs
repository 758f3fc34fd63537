use presence::client::Client;
use presence::registry::{GlobalState, Registry, RegistryError, NOT_REGISTERED_ERROR};
use presence::session::{is_not_registered, Event, Request, Session, Step, MISSING_ARGUMENT_PREFIX};

fn client(uuid: &str) -> Client {
    Client::new(String::from(uuid), String::from("calm owl"), 10)
}

fn not_registered_text() -> String {
    format!("missing argument {}", NOT_REGISTERED_ERROR)
}

fn is_poll(request: &Option<Request>, uuid: &str) -> bool {
    matches!(request, Some(Request::Poll(id)) if id == uuid)
}

#[test]
fn session_starts_unregistered_and_idle() {
    let session = Session::new();
    assert!(session.client().is_none());
    assert!(session.peers().is_empty());
    assert_eq!(session.color(), 0);
    assert_eq!(session.step(), Step::Idle);
}

#[test]
fn first_tick_registers_then_polls() {
    let mut session = Session::new();
    assert!(matches!(session.handle(Event::Tick), Some(Request::Register)));
    assert_eq!(session.step(), Step::Registering);
    let request = session.handle(Event::Registered(client("a")));
    assert!(is_poll(&request, "a"));
    assert_eq!(session.step(), Step::Polling);
    assert_eq!(session.client().unwrap().uuid, "a");
}

#[test]
fn tick_while_an_exchange_runs_asks_nothing() {
    let mut session = Session::new();
    assert!(session.handle(Event::Tick).is_some());
    assert!(session.handle(Event::Tick).is_none());
    assert_eq!(session.step(), Step::Registering);
    let _ = session.handle(Event::Registered(client("a")));
    assert!(session.handle(Event::Tick).is_none());
    assert_eq!(session.step(), Step::Polling);
}

#[test]
fn full_reply_replaces_the_peers() {
    let mut session = Session::new();
    let _ = session.handle(Event::Tick);
    let _ = session.handle(Event::Registered(client("a")));
    let state = GlobalState { clients: vec![client("a"), client("b")], last_updated: 2 };
    assert!(session.handle(Event::Polled(Some(state))).is_none());
    assert_eq!(session.step(), Step::Idle);
    assert_eq!(session.peers().len(), 2);
    assert_eq!(session.peers()[1].uuid, "b");
    // an empty reply keeps them
    assert!(is_poll(&session.handle(Event::Tick), "a"));
    assert!(session.handle(Event::Polled(None)).is_none());
    assert_eq!(session.step(), Step::Idle);
    assert_eq!(session.peers().len(), 2);
}

#[test]
fn not_registered_leads_to_a_new_registration() {
    let mut session = Session::new();
    let _ = session.handle(Event::Tick);
    let _ = session.handle(Event::Registered(client("a")));
    let request = session.handle(Event::PollFailed(not_registered_text()));
    assert!(matches!(request, Some(Request::Register)));
    assert_eq!(session.step(), Step::Recovering);
    assert!(session.handle(Event::Tick).is_none());
    assert!(session.handle(Event::Registered(client("b"))).is_none());
    assert_eq!(session.step(), Step::Idle);
    assert_eq!(session.client().unwrap().uuid, "b");
    assert!(is_poll(&session.handle(Event::Tick), "b"));
}

#[test]
fn other_poll_failures_end_the_exchange() {
    let mut session = Session::new();
    let _ = session.handle(Event::Tick);
    let _ = session.handle(Event::Registered(client("a")));
    assert!(session.handle(Event::PollFailed(String::from("request timed out"))).is_none());
    assert_eq!(session.step(), Step::Idle);
    assert_eq!(session.client().unwrap().uuid, "a");
    assert!(is_poll(&session.handle(Event::Tick), "a"));
}

#[test]
fn failed_registration_is_tried_again_on_the_next_tick() {
    let mut session = Session::new();
    let _ = session.handle(Event::Tick);
    assert!(session.handle(Event::RegistrationFailed).is_none());
    assert_eq!(session.step(), Step::Idle);
    assert!(session.client().is_none());
    assert!(matches!(session.handle(Event::Tick), Some(Request::Register)));
}

#[test]
fn failed_recovery_keeps_the_old_identity() {
    let mut session = Session::new();
    let _ = session.handle(Event::Tick);
    let _ = session.handle(Event::Registered(client("a")));
    let _ = session.handle(Event::PollFailed(not_registered_text()));
    assert!(session.handle(Event::RegistrationFailed).is_none());
    assert_eq!(session.step(), Step::Idle);
    assert!(is_poll(&session.handle(Event::Tick), "a"));
}

#[test]
fn answers_nobody_waits_for_are_passed_over() {
    let mut session = Session::new();
    assert!(session.handle(Event::Registered(client("x"))).is_none());
    assert!(session.client().is_none());
    let state = GlobalState { clients: vec![client("x")], last_updated: 1 };
    assert!(session.handle(Event::Polled(Some(state))).is_none());
    assert!(session.peers().is_empty());
    assert!(session.handle(Event::PollFailed(not_registered_text())).is_none());
    assert!(session.handle(Event::RegistrationFailed).is_none());
    assert_eq!(session.step(), Step::Idle);
}

#[test]
fn picked_color_is_sent_once_registered() {
    let mut session = Session::new();
    assert!(session.handle(Event::ColorPicked(120)).is_none());
    assert_eq!(session.color(), 120);
    let _ = session.handle(Event::Tick);
    let _ = session.handle(Event::Registered(client("a")));
    let request = session.handle(Event::ColorPicked(359));
    assert!(matches!(request, Some(Request::UpdateColor(id, 359)) if id == "a"));
    assert_eq!(session.color(), 359);
    assert_eq!(session.step(), Step::Polling);
}

#[test]
fn not_registered_text_is_matched_exactly() {
    assert_eq!(MISSING_ARGUMENT_PREFIX, "missing argument ");
    assert!(is_not_registered(&not_registered_text()));
    assert!(is_not_registered(&String::from(
        "missing argument owwwo you dwo nwot hwave an acwount :3"
    )));
    assert!(!is_not_registered(&String::from(NOT_REGISTERED_ERROR)));
    assert!(!is_not_registered(&String::from("missing argument ")));
    assert!(!is_not_registered(&String::new()));
    assert!(!is_not_registered(&format!("{} ", not_registered_text())));
}

#[test]
fn session_against_a_registry() {
    let mut registry = Registry::with_timing(2000, 4000);
    let mut session = Session::new();
    let mut now = 0u64;
    let mut request = session.handle(Event::Tick);
    let mut polls = 0;
    let mut registrations = 0;
    // run the exchange that the tick began, then one tick every 35 ms,
    // with a pause of three seconds in the middle
    for round in 0..400 {
        while let Some(r) = request {
            request = match r {
                Request::Register => {
                    registrations += 1;
                    match registry.register_user(String::from("calm owl"), now) {
                        Ok(c) => session.handle(Event::Registered(c)),
                        Err(_) => session.handle(Event::RegistrationFailed),
                    }
                }
                Request::Poll(uuid) => {
                    polls += 1;
                    match registry.fetch_global_state(uuid, now) {
                        Ok(reply) => session.handle(Event::Polled(reply)),
                        Err(RegistryError::NotRegistered) => session.handle(Event::PollFailed(
                            format!("missing argument {}", RegistryError::NotRegistered.message()),
                        )),
                        Err(e) => session.handle(Event::PollFailed(e.message())),
                    }
                }
                Request::UpdateColor(uuid, color) => {
                    let _ = registry.update_color(uuid, color, now);
                    None
                }
            };
        }
        assert_eq!(session.step(), Step::Idle);
        now += if round == 200 { 3000 } else { 35 };
        // 200 * 35 = 7000, then 10000: the sweep at 10010 or so finds the record stale
        request = session.handle(Event::Tick);
    }
    assert_eq!(registrations, 2);
    assert_eq!(polls, 400);
    assert_eq!(registry.len(), 1);
    assert_eq!(session.peers().len(), 1);
    assert_eq!(session.peers()[0].uuid, session.client().unwrap().uuid);
}

#[test]
fn request_clone_keeps_the_request() {
    let poll = Request::Poll(String::from("a"));
    assert!(matches!(poll.clone(), Request::Poll(id) if id == "a"));
    let update = Request::UpdateColor(String::from("b"), 17);
    assert!(matches!(update.clone(), Request::UpdateColor(id, 17) if id == "b"));
    assert!(matches!(Request::Register.clone(), Request::Register));
}
