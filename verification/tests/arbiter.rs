use wsss::protocol::{ErrorKind, Event, FlowControl, Parity, PortConfig, Request};
use wsss::registry::{write_reply, Arbiter, Closing, Command, Delivery, Verdict};

fn baud(baud_rate: u32) -> PortConfig {
    PortConfig {
        baud_rate,
        data_bits: 8,
        parity: Parity::Off,
        stop_bits: 1,
        flow_control: FlowControl::Off,
    }
}

fn dev(name: &str) -> String {
    String::from(name)
}

fn opened(name: &str) -> Event {
    Event::Opened { device: dev(name) }
}

fn data(session: u64, name: &str, text: &str) -> Delivery {
    Delivery { session, event: Event::Data { device: dev(name), bytes: String::from(text) } }
}

fn open_fresh(arbiter: &mut Arbiter, name: &str, config: PortConfig, session: u64) {
    assert_eq!(arbiter.open(dev(name), config, session), Verdict::Hardware);
    assert_eq!(arbiter.device_opened(dev(name), config, session, true), opened(name));
}

#[test]
fn new_arbiter_has_no_port() {
    let arbiter = Arbiter::new();
    assert_eq!(arbiter.open_ports(), 0);
    assert!(!arbiter.is_open(&dev("/dev/ttyS0")));
    assert_eq!(arbiter.subscribers(&dev("/dev/ttyS0")), Vec::<u64>::new());
    assert_eq!(arbiter.config(&dev("/dev/ttyS0")), None);
}

#[test]
fn two_sessions_share_one_port() {
    let mut arbiter = Arbiter::new();
    // Session A opens the device: the hardware is needed once.
    assert_eq!(arbiter.open(dev("/dev/ttyS0"), baud(9600), 1), Verdict::Hardware);
    assert_eq!(arbiter.open_ports(), 0);
    assert_eq!(arbiter.device_opened(dev("/dev/ttyS0"), baud(9600), 1, true), opened("/dev/ttyS0"));
    // Session B joins without any hardware call.
    assert_eq!(
        arbiter.open(dev("/dev/ttyS0"), baud(9600), 2),
        Verdict::Reply { event: opened("/dev/ttyS0") }
    );
    assert_eq!(arbiter.open_ports(), 1);
    assert_eq!(arbiter.subscribers(&dev("/dev/ttyS0")), vec![1, 2]);
    // The device emits two bytes: both receive them.
    assert_eq!(
        arbiter.deliver(&dev("/dev/ttyS0"), &vec![0x41, 0x42]),
        vec![data(1, "/dev/ttyS0", "QUI="), data(2, "/dev/ttyS0", "QUI=")]
    );
    // A closes: the port stays open for B.
    assert_eq!(
        arbiter.close(dev("/dev/ttyS0"), 1),
        Closing { event: Event::Closed { device: dev("/dev/ttyS0") }, release: false }
    );
    assert!(arbiter.is_open(&dev("/dev/ttyS0")));
    assert_eq!(arbiter.subscribers(&dev("/dev/ttyS0")), vec![2]);
    // B closes: the handle is released and the entry removed.
    assert_eq!(
        arbiter.close(dev("/dev/ttyS0"), 2),
        Closing { event: Event::Closed { device: dev("/dev/ttyS0") }, release: true }
    );
    assert!(!arbiter.is_open(&dev("/dev/ttyS0")));
    assert_eq!(arbiter.open_ports(), 0);
}

#[test]
fn one_entry_per_device() {
    let mut arbiter = Arbiter::new();
    open_fresh(&mut arbiter, "/dev/ttyS0", baud(9600), 1);
    open_fresh(&mut arbiter, "/dev/ttyS1", baud(115200), 1);
    for session in 2..6u64 {
        assert_eq!(
            arbiter.open(dev("/dev/ttyS0"), baud(9600), session),
            Verdict::Reply { event: opened("/dev/ttyS0") }
        );
    }
    assert_eq!(arbiter.open_ports(), 2);
    // A handle that the driver reports for a registered device is refused.
    assert_eq!(
        arbiter.device_opened(dev("/dev/ttyS0"), baud(9600), 9, true),
        Event::Error { kind: ErrorKind::AlreadyOpen, detail: dev("/dev/ttyS0") }
    );
    assert_eq!(arbiter.open_ports(), 2);
    assert_eq!(arbiter.subscribers(&dev("/dev/ttyS0")), vec![1, 2, 3, 4, 5]);
}

#[test]
fn joining_twice_subscribes_once() {
    let mut arbiter = Arbiter::new();
    open_fresh(&mut arbiter, "/dev/ttyS0", baud(9600), 1);
    assert_eq!(
        arbiter.open(dev("/dev/ttyS0"), baud(9600), 1),
        Verdict::Reply { event: opened("/dev/ttyS0") }
    );
    assert_eq!(arbiter.subscribers(&dev("/dev/ttyS0")), vec![1]);
}

#[test]
fn conflicting_configuration_is_refused() {
    let mut arbiter = Arbiter::new();
    open_fresh(&mut arbiter, "/dev/ttyS0", baud(9600), 1);
    assert_eq!(
        arbiter.open(dev("/dev/ttyS0"), baud(115200), 2),
        Verdict::Reply {
            event: Event::Error { kind: ErrorKind::AlreadyOpen, detail: dev("/dev/ttyS0") }
        }
    );
    assert_eq!(arbiter.config(&dev("/dev/ttyS0")), Some(baud(9600)));
    assert_eq!(arbiter.subscribers(&dev("/dev/ttyS0")), vec![1]);
    assert_eq!(arbiter.open_ports(), 1);
}

#[test]
fn failed_hardware_open_is_device_unavailable() {
    let mut arbiter = Arbiter::new();
    assert_eq!(arbiter.open(dev("/dev/none"), baud(9600), 1), Verdict::Hardware);
    assert_eq!(
        arbiter.device_opened(dev("/dev/none"), baud(9600), 1, false),
        Event::Error { kind: ErrorKind::DeviceUnavailable, detail: dev("/dev/none") }
    );
    assert!(!arbiter.is_open(&dev("/dev/none")));
    assert_eq!(arbiter.open_ports(), 0);
}

#[test]
fn write_needs_an_open_device() {
    let mut arbiter = Arbiter::new();
    let not_open = Verdict::Reply {
        event: Event::Error { kind: ErrorKind::NotOpen, detail: dev("/dev/ttyS0") },
    };
    // Never opened.
    assert_eq!(arbiter.write(dev("/dev/ttyS0")), not_open);
    open_fresh(&mut arbiter, "/dev/ttyS0", baud(9600), 1);
    assert_eq!(arbiter.write(dev("/dev/ttyS0")), Verdict::Hardware);
    // Closed again.
    assert!(arbiter.close(dev("/dev/ttyS0"), 1).release);
    assert_eq!(arbiter.write(dev("/dev/ttyS0")), not_open);
}

#[test]
fn write_failure_goes_to_the_requester() {
    assert_eq!(write_reply(dev("/dev/ttyS0"), true), None);
    assert_eq!(
        write_reply(dev("/dev/ttyS0"), false),
        Some(Event::Error { kind: ErrorKind::IOError, detail: dev("/dev/ttyS0") })
    );
}

#[test]
fn late_subscriber_misses_earlier_data() {
    let mut arbiter = Arbiter::new();
    open_fresh(&mut arbiter, "/dev/ttyS0", baud(9600), 1);
    let first = arbiter.deliver(&dev("/dev/ttyS0"), &vec![1]);
    assert_eq!(
        arbiter.open(dev("/dev/ttyS0"), baud(9600), 2),
        Verdict::Reply { event: opened("/dev/ttyS0") }
    );
    let second = arbiter.deliver(&dev("/dev/ttyS0"), &vec![2]);
    let third = arbiter.deliver(&dev("/dev/ttyS0"), &vec![3]);
    assert_eq!(first, vec![data(1, "/dev/ttyS0", "AQ==")]);
    assert_eq!(second, vec![data(1, "/dev/ttyS0", "Ag=="), data(2, "/dev/ttyS0", "Ag==")]);
    assert_eq!(third, vec![data(1, "/dev/ttyS0", "Aw=="), data(2, "/dev/ttyS0", "Aw==")]);
}

#[test]
fn data_of_a_closed_device_reaches_nobody() {
    let mut arbiter = Arbiter::new();
    assert_eq!(arbiter.deliver(&dev("/dev/ttyS0"), &vec![1]), vec![]);
    open_fresh(&mut arbiter, "/dev/ttyS1", baud(9600), 1);
    assert_eq!(arbiter.deliver(&dev("/dev/ttyS0"), &vec![1]), vec![]);
}

#[test]
fn close_by_a_stranger_changes_nothing() {
    let mut arbiter = Arbiter::new();
    open_fresh(&mut arbiter, "/dev/ttyS0", baud(9600), 1);
    assert_eq!(
        arbiter.close(dev("/dev/ttyS0"), 7),
        Closing { event: Event::Closed { device: dev("/dev/ttyS0") }, release: false }
    );
    assert_eq!(arbiter.subscribers(&dev("/dev/ttyS0")), vec![1]);
    assert_eq!(
        arbiter.close(dev("/dev/other"), 1),
        Closing { event: Event::Closed { device: dev("/dev/other") }, release: false }
    );
    assert_eq!(arbiter.open_ports(), 1);
}

#[test]
fn read_failure_closes_the_port_for_everyone() {
    let mut arbiter = Arbiter::new();
    open_fresh(&mut arbiter, "/dev/ttyS0", baud(9600), 1);
    open_fresh(&mut arbiter, "/dev/ttyS1", baud(9600), 1);
    assert_eq!(
        arbiter.open(dev("/dev/ttyS0"), baud(9600), 2),
        Verdict::Reply { event: opened("/dev/ttyS0") }
    );
    let failure = Event::Error { kind: ErrorKind::IOError, detail: dev("/dev/ttyS0") };
    assert_eq!(
        arbiter.read_failed(&dev("/dev/ttyS0")),
        vec![
            Delivery { session: 1, event: failure.clone() },
            Delivery { session: 2, event: failure }
        ]
    );
    assert!(!arbiter.is_open(&dev("/dev/ttyS0")));
    assert_eq!(arbiter.subscribers(&dev("/dev/ttyS1")), vec![1]);
    assert_eq!(arbiter.read_failed(&dev("/dev/ttyS0")), vec![]);
    assert_eq!(arbiter.open_ports(), 1);
}

#[test]
fn disconnect_leaves_every_device() {
    let mut arbiter = Arbiter::new();
    open_fresh(&mut arbiter, "/dev/ttyS0", baud(9600), 1);
    open_fresh(&mut arbiter, "/dev/ttyS1", baud(9600), 2);
    open_fresh(&mut arbiter, "/dev/ttyS2", baud(19200), 1);
    assert_eq!(
        arbiter.open(dev("/dev/ttyS0"), baud(9600), 2),
        Verdict::Reply { event: opened("/dev/ttyS0") }
    );
    assert_eq!(
        arbiter.open(dev("/dev/ttyS1"), baud(9600), 1),
        Verdict::Reply { event: opened("/dev/ttyS1") }
    );
    assert_eq!(
        arbiter.open(dev("/dev/ttyS1"), baud(9600), 3),
        Verdict::Reply { event: opened("/dev/ttyS1") }
    );
    // Session 1 is gone: only the device it held alone is released.
    assert_eq!(arbiter.disconnect(1), vec![dev("/dev/ttyS2")]);
    assert_eq!(arbiter.subscribers(&dev("/dev/ttyS0")), vec![2]);
    assert_eq!(arbiter.subscribers(&dev("/dev/ttyS1")), vec![2, 3]);
    assert_eq!(arbiter.config(&dev("/dev/ttyS1")), Some(baud(9600)));
    assert!(!arbiter.is_open(&dev("/dev/ttyS2")));
    assert_eq!(arbiter.open_ports(), 2);
    // No further event reaches it.
    assert_eq!(arbiter.deliver(&dev("/dev/ttyS0"), &vec![0x41]), vec![data(2, "/dev/ttyS0", "QQ==")]);
    assert_eq!(arbiter.deliver(&dev("/dev/ttyS2"), &vec![0x41]), vec![]);
    // Disconnecting it again changes nothing.
    assert_eq!(arbiter.disconnect(1), Vec::<String>::new());
    assert_eq!(arbiter.open_ports(), 2);
}

#[test]
fn reopening_after_close_needs_the_hardware_again() {
    let mut arbiter = Arbiter::new();
    open_fresh(&mut arbiter, "/dev/ttyS0", baud(9600), 1);
    assert!(arbiter.close(dev("/dev/ttyS0"), 1).release);
    assert_eq!(arbiter.open(dev("/dev/ttyS0"), baud(115200), 2), Verdict::Hardware);
    assert_eq!(arbiter.device_opened(dev("/dev/ttyS0"), baud(115200), 2, true), opened("/dev/ttyS0"));
    assert_eq!(arbiter.config(&dev("/dev/ttyS0")), Some(baud(115200)));
}

#[test]
fn dispatch_tells_the_driver_what_to_do() {
    let mut arbiter = Arbiter::new();
    assert_eq!(arbiter.dispatch(Request::List, 1), Command::ListDevices);
    assert_eq!(
        arbiter.dispatch(Request::Write { device: dev("/dev/ttyS0"), bytes: vec![1] }, 1),
        Command::Send {
            event: Event::Error { kind: ErrorKind::NotOpen, detail: dev("/dev/ttyS0") }
        }
    );
    assert_eq!(
        arbiter.dispatch(Request::Open { device: dev("/dev/ttyS0"), config: baud(9600) }, 1),
        Command::OpenDevice { device: dev("/dev/ttyS0"), config: baud(9600) }
    );
    assert_eq!(arbiter.device_opened(dev("/dev/ttyS0"), baud(9600), 1, true), opened("/dev/ttyS0"));
    assert_eq!(
        arbiter.dispatch(Request::Open { device: dev("/dev/ttyS0"), config: baud(9600) }, 2),
        Command::Send { event: opened("/dev/ttyS0") }
    );
    assert_eq!(
        arbiter.dispatch(Request::Open { device: dev("/dev/ttyS0"), config: baud(300) }, 3),
        Command::Send {
            event: Event::Error { kind: ErrorKind::AlreadyOpen, detail: dev("/dev/ttyS0") }
        }
    );
    assert_eq!(
        arbiter.dispatch(Request::Write { device: dev("/dev/ttyS0"), bytes: vec![1, 2] }, 3),
        Command::WriteDevice { device: dev("/dev/ttyS0"), bytes: vec![1, 2] }
    );
    assert_eq!(
        arbiter.dispatch(Request::Close { device: dev("/dev/ttyS0") }, 1),
        Command::Send { event: Event::Closed { device: dev("/dev/ttyS0") } }
    );
    assert_eq!(
        arbiter.dispatch(Request::Close { device: dev("/dev/ttyS0") }, 2),
        Command::Release { event: Event::Closed { device: dev("/dev/ttyS0") }, device: dev("/dev/ttyS0") }
    );
    assert_eq!(arbiter.open_ports(), 0);
}

#[test]
fn port_list_can_hide_open_ports() {
    let mut arbiter = Arbiter::new();
    open_fresh(&mut arbiter, "/dev/ttyS1", baud(9600), 1);
    let found = vec![dev("/dev/ttyS0"), dev("/dev/ttyS1"), dev("/dev/ttyUSB0")];
    assert_eq!(
        arbiter.port_list(Some(found.clone()), false),
        Event::PortList { devices: found.clone() }
    );
    assert_eq!(
        arbiter.port_list(Some(found), true),
        Event::PortList { devices: vec![dev("/dev/ttyS0"), dev("/dev/ttyUSB0")] }
    );
    assert_eq!(arbiter.port_list(Some(vec![]), true), Event::PortList { devices: vec![] });
    assert_eq!(
        arbiter.port_list(None, true),
        Event::Error { kind: ErrorKind::DeviceEnumerationFailed, detail: String::new() }
    );
}

#[test]
fn subscriptions_follow_the_registry() {
    let mut arbiter = Arbiter::new();
    assert_eq!(arbiter.subscriptions(1), Vec::<String>::new());
    open_fresh(&mut arbiter, "/dev/ttyS0", baud(9600), 1);
    open_fresh(&mut arbiter, "/dev/ttyS1", baud(9600), 2);
    open_fresh(&mut arbiter, "/dev/ttyS2", baud(9600), 1);
    assert_eq!(arbiter.subscriptions(1), vec![dev("/dev/ttyS0"), dev("/dev/ttyS2")]);
    assert_eq!(arbiter.subscriptions(2), vec![dev("/dev/ttyS1")]);
    assert_eq!(arbiter.subscriptions(3), Vec::<String>::new());
    arbiter.close(dev("/dev/ttyS0"), 1);
    assert_eq!(arbiter.subscriptions(1), vec![dev("/dev/ttyS2")]);
    arbiter.disconnect(1);
    assert_eq!(arbiter.subscriptions(1), Vec::<String>::new());
}
