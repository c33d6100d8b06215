use gkd::control::address_message;
use gkd::control::address_reply;
use gkd::control::exit_message;
use gkd::control::heartbeat_message;
use gkd::control::heartbeat_reply;
use gkd::control::request_reply;
use gkd::control::ControlAction;
use gkd::control::ControlSession;
use gkd::control::HeartbeatOutcome;
use gkd::records::DeviceItem;
use gkd::records::RequestItem;

fn device(id: i32, rs: i32, leftrs: i32) -> DeviceItem {
    DeviceItem { id, ip: "0.0.0.0".into(), port: 0, is_online: false, rs, time: 5, leftrs }
}

#[test]
fn messages_are_read_back() {
    let s = ControlSession::new();
    let m = heartbeat_message(3, 100);
    assert_eq!(m, "1 3 100\n");
    assert!(matches!(s.decide(&m), ControlAction::Heartbeat { id: 3, rs: 100 }));
    let m = address_message(3, "10.0.0.7", 2794);
    assert_eq!(m, "3 3 10.0.0.7 2794\n");
    match s.decide(&m) {
        ControlAction::SetAddress { id, ip, port } => {
            assert_eq!((id, ip.as_str(), port), (3, "10.0.0.7", 2794));
        }
        _ => panic!("not an address report"),
    }
    assert_eq!(exit_message(), "exit\n");
}

#[test]
fn session_binds_to_first_device() {
    let mut s = ControlSession::new();
    assert_eq!(s.client_id(), -1);
    assert_eq!(s.bound_device(), None);
    match s.heartbeat(3, 100, device(3, 80, 30)) {
        HeartbeatOutcome::Updated(d) => {
            assert!(d.is_online);
            assert_eq!(d.rs, 100);
            assert_eq!(d.leftrs, 50);
            assert_eq!(d.time, 5);
        }
        _ => panic!("report not taken"),
    }
    assert_eq!(s.bound_device(), Some(3));
    assert!(matches!(s.decide("1 4 10\n"), ControlAction::Reject));
    assert!(matches!(s.decide("2 4\n"), ControlAction::Reject));
    assert!(matches!(s.decide("2 3\n"), ControlAction::FirstRequest { id: 3 }));
}

#[test]
fn unknown_device_does_not_bind() {
    let mut s = ControlSession::new();
    assert!(matches!(s.heartbeat(3, 10, device(-1, 0, 0)), HeartbeatOutcome::UnknownDevice));
    assert_eq!(s.client_id(), -1);
    assert!(s.set_address(3, "x".into(), 1, device(-1, 0, 0)).is_none());
    assert_eq!(s.client_id(), -1);
    let d = s.set_address(3, "1.1.1.1".into(), 9, device(3, 7, 2)).unwrap();
    assert_eq!(d.ip, "1.1.1.1");
    assert_eq!(d.port, 9);
    assert_eq!(d.rs, 7);
    assert_eq!(s.client_id(), 3);
}

#[test]
fn free_space_overflow_is_reported() {
    let mut s = ControlSession::new();
    assert!(matches!(s.heartbeat(3, i32::MAX, device(3, -10, 0)), HeartbeatOutcome::Overflow));
    assert_eq!(s.client_id(), -1);
}

#[test]
fn lines_that_end_the_connection() {
    let s = ControlSession::new();
    assert!(matches!(s.decide(""), ControlAction::Close));
    assert!(matches!(s.decide("9 1 2\n"), ControlAction::Close));
    assert!(matches!(s.decide("exit\n"), ControlAction::Close));
    assert!(matches!(s.decide("1\n"), ControlAction::Malformed));
    assert!(matches!(s.decide("1 3\n"), ControlAction::Malformed));
    assert!(matches!(s.decide("3 3 ip\n"), ControlAction::Malformed));
    assert!(matches!(s.decide("2 x\n"), ControlAction::Malformed));
    // only the first character selects the command
    assert!(matches!(s.decide("2x 5"), ControlAction::FirstRequest { id: 5 }));
}

#[test]
fn server_replies() {
    assert_eq!(heartbeat_reply(2), "received with 2 unread request!\n");
    assert_eq!(request_reply(&RequestItem::init(9, 2, 1401, 3)), "9 1401 2\n");
    assert_eq!(address_reply("1.2.3.4", 80), "set ip=1.2.3.4, port=80 successfully\n");
}
