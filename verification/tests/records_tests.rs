use gkd::records::AnotherRequestItem;
use gkd::records::DeviceItem;
use gkd::records::FileAttrs;
use gkd::records::FileItem;
use gkd::records::FileUtil;
use gkd::records::RequestItem;
use gkd::records::DFS_server;

#[test]
fn request_item_getters_and_setters() {
    let mut r = RequestItem::init(5, 1, 702, 3);
    assert_eq!(r.get_id(), 5);
    assert_eq!(r.get_type(), 1);
    assert_eq!(r.get_fragment_id(), 702);
    assert_eq!(r.get_device_id(), 3);
    r.set_type(3);
    r.set_fragment_id(801);
    r.set_device_id(9);
    assert_eq!(r.get_type(), 3);
    assert_eq!(r.get_fragment_id(), 801);
    assert_eq!(r.get_device_id(), 9);
    assert_eq!(r.get_id(), 5);
}

#[test]
fn request_item_init_2_has_no_id_yet() {
    let mut r = RequestItem::init_2(2, 1203, 4);
    assert_eq!(r.get_id(), 0);
    assert_eq!(r.get_type(), 2);
    assert_eq!(r.get_fragment_id(), 1203);
    assert_eq!(r.get_device_id(), 4);
}

#[test]
fn request_item_matches_kind_and_fragment() {
    let r = RequestItem::init(1, 2, 700, 3);
    assert!(r.matches(700, 2));
    assert!(!r.matches(700, 1));
    assert!(!r.matches(701, 2));
}

#[test]
fn another_request_item_accessors() {
    let mut a = AnotherRequestItem::init(
        "10.0.0.2".to_string(),
        "8080".to_string(),
        "a.txt".to_string(),
        "txt".to_string(),
        120,
        1300,
    );
    assert_eq!(a.get_ip(), "10.0.0.2");
    assert_eq!(a.get_port(), "8080");
    assert_eq!(a.get_file_name(), "a.txt");
    assert_eq!(a.get_file_type_(), "txt");
    assert_eq!(a.get_fragment_id(), 1300);
    a.set_port("9090".to_string());
    a.set_file_name("b ü.txt".to_string());
    assert_eq!(a.get_port(), "9090");
    assert_eq!(a.get_file_name(), "b ü.txt");
}

#[test]
fn file_attrs_init_keeps_fields() {
    let fa = FileAttrs::init("n".to_string(), "/p".to_string(), "rw".to_string(), 6);
    assert_eq!(fa.name, "n");
    assert_eq!(fa.path, "/p");
    assert_eq!(fa.attr, "rw");
    assert_eq!(fa.noa, 6);
    let _u = FileUtil::new();
    let s = DFS_server { connecting: true };
    assert!(s.connecting);
}

#[test]
fn file_item_and_device_item() {
    let f = FileItem::init_2("n".into(), "/".into(), "rw".into(), "20240101".into(), -3, false);
    assert_eq!(f.id, 0);
    assert_eq!(f.noa, -3);
    assert!(!f.is_folder);
    let d = DeviceItem {
        id: 2,
        ip: "1.2.3.4".into(),
        port: 7,
        is_online: true,
        rs: 10,
        time: 0,
        leftrs: 4,
    };
    let o = d.offline();
    assert!(!o.is_online);
    assert_eq!(o.id, 2);
    assert_eq!(o.leftrs, 4);
}
