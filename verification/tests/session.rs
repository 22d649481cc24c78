use wsss::protocol::{ErrorKind, Event, FlowControl, Parity, PortConfig, RawRequest, Request};
use wsss::session::{Inbound, Session, SessionState, MAX_SEND_ERROR_COUNT};

fn active(id: u64, threshold: u32) -> Session {
    let mut session = Session::new(id, threshold);
    session.established();
    session
}

fn protocol_error() -> Inbound {
    Inbound::Reply { event: Event::Error { kind: ErrorKind::Protocol, detail: String::new() } }
}

#[test]
fn default_threshold_is_five() {
    assert_eq!(MAX_SEND_ERROR_COUNT, 5);
}

#[test]
fn session_starts_connecting() {
    let mut session = Session::new(7, 5);
    assert_eq!(session.id(), 7);
    assert_eq!(session.state(), SessionState::Connecting);
    assert_eq!(session.failures(), 0);
    assert_eq!(session.threshold(), 5);
    assert!(!session.accepts());
    session.established();
    assert_eq!(session.state(), SessionState::Active);
    assert!(session.accepts());
    session.established();
    assert_eq!(session.state(), SessionState::Active);
}

#[test]
fn random_session_starts_connecting() {
    let session = Session::connect(MAX_SEND_ERROR_COUNT);
    assert_eq!(session.state(), SessionState::Connecting);
    assert_eq!(session.failures(), 0);
    assert_eq!(session.threshold(), 5);
}

#[test]
fn five_failures_in_a_row_terminate() {
    let mut session = active(1, MAX_SEND_ERROR_COUNT);
    for count in 1..5u32 {
        assert!(!session.delivered(false));
        assert_eq!(session.failures(), count);
        assert_eq!(session.state(), SessionState::Active);
    }
    assert!(session.delivered(false));
    assert_eq!(session.failures(), 5);
    assert_eq!(session.state(), SessionState::Closing);
    assert!(!session.accepts());
    // Nothing counts any more.
    assert!(!session.delivered(false));
    assert!(!session.delivered(true));
    assert_eq!(session.failures(), 5);
    assert_eq!(session.state(), SessionState::Closing);
    session.finish_close();
    assert_eq!(session.state(), SessionState::Closed);
}

#[test]
fn a_delivery_resets_the_count() {
    let mut session = active(1, 5);
    for _ in 0..4 {
        assert!(!session.delivered(false));
    }
    assert!(!session.delivered(true));
    assert_eq!(session.failures(), 0);
    for _ in 0..4 {
        assert!(!session.delivered(false));
    }
    assert_eq!(session.state(), SessionState::Active);
    assert!(session.delivered(false));
    assert_eq!(session.state(), SessionState::Closing);
}

#[test]
fn threshold_is_configurable() {
    let mut session = active(1, 2);
    assert!(!session.delivered(false));
    assert!(session.delivered(false));
    let mut session = active(2, 1);
    assert!(session.delivered(false));
    let mut session = active(3, 0);
    assert!(session.delivered(false));
    assert_eq!(session.failures(), 1);
}

#[test]
fn connecting_session_counts_nothing() {
    let mut session = Session::new(1, 1);
    assert!(!session.delivered(false));
    assert_eq!(session.failures(), 0);
    assert_eq!(session.state(), SessionState::Connecting);
}

#[test]
fn malformed_message_is_answered_and_session_stays_active() {
    let session = active(1, 5);
    assert_eq!(session.receive(None), protocol_error());
    assert_eq!(session.state(), SessionState::Active);
    assert_eq!(session.failures(), 0);
    // A valid request still goes through.
    assert_eq!(
        session.receive(Some(RawRequest::Close { device: String::from("/dev/ttyS0") })),
        Inbound::Forward { request: Request::Close { device: String::from("/dev/ttyS0") } }
    );
}

#[test]
fn undecodable_request_is_a_protocol_error() {
    let session = active(1, 5);
    assert_eq!(
        session.receive(Some(RawRequest::Write {
            device: String::from("/dev/ttyS0"),
            payload: String::from("not base64")
        })),
        protocol_error()
    );
    assert_eq!(session.receive(Some(RawRequest::Close { device: String::new() })), protocol_error());
    assert_eq!(session.state(), SessionState::Active);
}

#[test]
fn valid_requests_are_forwarded() {
    let session = active(1, 5);
    let config = PortConfig {
        baud_rate: 9600,
        data_bits: 8,
        parity: Parity::Even,
        stop_bits: 2,
        flow_control: FlowControl::Hardware,
    };
    assert_eq!(
        session.receive(Some(RawRequest::Open { device: String::from("/dev/ttyS0"), config })),
        Inbound::Forward { request: Request::Open { device: String::from("/dev/ttyS0"), config } }
    );
    assert_eq!(
        session.receive(Some(RawRequest::Write {
            device: String::from("/dev/ttyS0"),
            payload: String::from("QUI=")
        })),
        Inbound::Forward {
            request: Request::Write { device: String::from("/dev/ttyS0"), bytes: vec![0x41, 0x42] }
        }
    );
    assert_eq!(session.receive(Some(RawRequest::List)), Inbound::Forward { request: Request::List });
}

#[test]
fn inactive_session_drops_messages() {
    let session = Session::new(1, 5);
    assert_eq!(session.receive(Some(RawRequest::List)), Inbound::Dropped);
    assert_eq!(session.receive(None), Inbound::Dropped);
    let mut session = active(1, 5);
    session.begin_close();
    assert_eq!(session.state(), SessionState::Closing);
    assert_eq!(session.route(Some(Request::List)), Inbound::Dropped);
    session.finish_close();
    assert_eq!(session.state(), SessionState::Closed);
    assert_eq!(session.route(None), Inbound::Dropped);
}

#[test]
fn route_takes_the_decoded_request() {
    let session = active(1, 5);
    assert_eq!(session.route(Some(Request::List)), Inbound::Forward { request: Request::List });
    assert_eq!(session.route(None), protocol_error());
}

#[test]
fn closing_goes_one_way() {
    let mut session = Session::new(1, 5);
    session.finish_close();
    assert_eq!(session.state(), SessionState::Connecting);
    session.begin_close();
    assert_eq!(session.state(), SessionState::Closing);
    session.established();
    assert_eq!(session.state(), SessionState::Closing);
    session.finish_close();
    assert_eq!(session.state(), SessionState::Closed);
    session.begin_close();
    assert_eq!(session.state(), SessionState::Closed);
}

fn line(baud_rate: u32) -> PortConfig {
    PortConfig {
        baud_rate,
        data_bits: 8,
        parity: Parity::Off,
        stop_bits: 1,
        flow_control: FlowControl::Off,
    }
}

fn subscribe(arbiter: &mut wsss::registry::Arbiter, device: &str, session: u64) {
    match arbiter.open(String::from(device), line(9600), session) {
        wsss::registry::Verdict::Hardware => {
            arbiter.device_opened(String::from(device), line(9600), session, true);
        }
        wsss::registry::Verdict::Reply { event } => {
            assert_eq!(event, Event::Opened { device: String::from(device) });
        }
    }
}

#[test]
fn session_past_its_threshold_leaves_every_device() {
    let mut arbiter = wsss::registry::Arbiter::new();
    let mut slow = active(1, 5);
    subscribe(&mut arbiter, "/dev/ttyS0", 1);
    subscribe(&mut arbiter, "/dev/ttyS0", 2);
    subscribe(&mut arbiter, "/dev/ttyS1", 1);
    for _ in 0..4 {
        assert_eq!(slow.settle(&mut arbiter, false), None);
    }
    assert_eq!(arbiter.subscribers(&String::from("/dev/ttyS0")), vec![1, 2]);
    assert_eq!(slow.settle(&mut arbiter, false), Some(vec![String::from("/dev/ttyS1")]));
    assert_eq!(slow.state(), SessionState::Closed);
    assert!(!slow.accepts());
    // The other subscriber is unaffected.
    assert_eq!(arbiter.subscribers(&String::from("/dev/ttyS0")), vec![2]);
    assert_eq!(arbiter.config(&String::from("/dev/ttyS0")), Some(line(9600)));
    assert!(!arbiter.is_open(&String::from("/dev/ttyS1")));
    let deliveries = arbiter.deliver(&String::from("/dev/ttyS0"), &vec![0x41, 0x42]);
    assert_eq!(deliveries.len(), 1);
    assert_eq!(deliveries[0].session, 2);
    // Nothing more happens through the closed session.
    assert_eq!(slow.settle(&mut arbiter, false), None);
    assert_eq!(arbiter.open_ports(), 1);
}

#[test]
fn settled_delivery_resets_the_count() {
    let mut arbiter = wsss::registry::Arbiter::new();
    let mut session = active(1, 2);
    subscribe(&mut arbiter, "/dev/ttyS0", 1);
    assert_eq!(session.settle(&mut arbiter, false), None);
    assert_eq!(session.settle(&mut arbiter, true), None);
    assert_eq!(session.failures(), 0);
    assert_eq!(session.settle(&mut arbiter, false), None);
    assert_eq!(session.settle(&mut arbiter, false), Some(vec![String::from("/dev/ttyS0")]));
    assert_eq!(arbiter.open_ports(), 0);
}

#[test]
fn leaving_session_is_unsubscribed_and_closed() {
    let mut arbiter = wsss::registry::Arbiter::new();
    let mut session = active(1, 5);
    subscribe(&mut arbiter, "/dev/ttyS0", 1);
    subscribe(&mut arbiter, "/dev/ttyS1", 2);
    subscribe(&mut arbiter, "/dev/ttyS1", 1);
    assert_eq!(session.leave(&mut arbiter), vec![String::from("/dev/ttyS0")]);
    assert_eq!(session.state(), SessionState::Closed);
    assert_eq!(arbiter.subscribers(&String::from("/dev/ttyS1")), vec![2]);
    assert_eq!(arbiter.open_ports(), 1);
}
