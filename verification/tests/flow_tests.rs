use gkd::delivery::send_step;
use gkd::delivery::SendAction;
use gkd::delivery::SendEvent;
use gkd::delivery::SendPhase;
use gkd::delivery::SendState;
use gkd::records::FileItem;
use gkd::records::RequestItem;
use gkd::records::REQUEST_DELETE;
use gkd::records::REQUEST_DOWNLOAD;
use gkd::upload::check_folder_entry;
use gkd::upload::folder_check_stops;
use gkd::upload::FolderStep;
use gkd::upload_flow::upload_step;
use gkd::upload_flow::UploadAction;
use gkd::upload_flow::UploadEvent;
use gkd::upload_flow::UploadPhase;
use gkd::upload_flow::UploadState;

#[test]
fn upload_refuses_a_fragment_out_of_range() {
    let st = UploadState::new(7, 3, 3);
    let (st, a) = upload_step(&st, UploadEvent::Found { noa: -3 });
    assert!(matches!(a, UploadAction::Refuse));
    assert_eq!(st.phase, UploadPhase::Done);
    assert!(!st.status);
}

#[test]
fn upload_refuses_a_finished_file() {
    let st = UploadState::new(7, 0, 3);
    let (_, a) = upload_step(&st, UploadEvent::Found { noa: 3 });
    assert!(matches!(a, UploadAction::Refuse));
}

#[test]
fn upload_of_a_middle_fragment_is_acknowledged() {
    let st = UploadState::new(7, 1, 3);
    let (st, a) = upload_step(&st, UploadEvent::Found { noa: -3 });
    assert!(matches!(a, UploadAction::Receive { name: 701 }));
    let (st, a) = upload_step(&st, UploadEvent::Received { ok: true });
    assert!(matches!(a, UploadAction::Acknowledge { name: 701 }));
    assert_eq!(st.phase, UploadPhase::Done);
    assert!(st.status);
}

#[test]
fn upload_retries_once_and_reports_the_first_failure() {
    let st = UploadState::new(7, 1, 3);
    let (st, _) = upload_step(&st, UploadEvent::Found { noa: -3 });
    let (st, a) = upload_step(&st, UploadEvent::Received { ok: false });
    assert!(matches!(a, UploadAction::Retry { name: 701 }));
    let (st, a) = upload_step(&st, UploadEvent::Received { ok: true });
    assert!(matches!(a, UploadAction::Acknowledge { name: 701 }));
    assert!(!st.status);
    let st = UploadState::new(7, 1, 3);
    let (st, _) = upload_step(&st, UploadEvent::Found { noa: -3 });
    let (st, _) = upload_step(&st, UploadEvent::Received { ok: false });
    let (st, a) = upload_step(&st, UploadEvent::Received { ok: false });
    assert!(matches!(a, UploadAction::GiveUp));
    assert_eq!(st.phase, UploadPhase::Done);
}

#[test]
fn upload_of_the_last_fragment_completes() {
    let st = UploadState::new(7, 2, 3);
    let (st, _) = upload_step(&st, UploadEvent::Found { noa: -3 });
    let (st, a) = upload_step(&st, UploadEvent::Received { ok: true });
    assert!(matches!(a, UploadAction::RecordAndCount { name: 702, file_id: 7 }));
    let (st, a) = upload_step(&st, UploadEvent::Counted { stored: 3 });
    assert!(matches!(a, UploadAction::Place { file_id: 7, count: 3 }));
    let (st, a) = upload_step(&st, UploadEvent::Placed { ok: true });
    assert!(matches!(a, UploadAction::Complete { file_id: 7, count: 3 }));
    assert_eq!(st.phase, UploadPhase::Done);
}

#[test]
fn failed_upload_drops_every_fragment() {
    let st = UploadState::new(7, 2, 3);
    let (st, _) = upload_step(&st, UploadEvent::Found { noa: -3 });
    let (st, _) = upload_step(&st, UploadEvent::Received { ok: true });
    let (_, a) = upload_step(&st, UploadEvent::Counted { stored: 2 });
    match a {
        UploadAction::Fail { file_id, names } => {
            assert_eq!(file_id, 7);
            assert_eq!(names, vec![700, 701, 702]);
        }
        _ => panic!("expected a failed upload"),
    }
    let (st2, _) = upload_step(&st, UploadEvent::Counted { stored: 3 });
    let (_, a) = upload_step(&st2, UploadEvent::Placed { ok: false });
    assert!(matches!(a, UploadAction::Fail { file_id: 7, .. }));
}

#[test]
fn upload_ignores_an_event_out_of_turn() {
    let st = UploadState::new(7, 2, 3);
    let (st2, a) = upload_step(&st, UploadEvent::Placed { ok: true });
    assert!(matches!(a, UploadAction::Ignore));
    assert_eq!(st2, st);
}

fn request(id: i32, kind: i32, fid: i32, device: i32) -> RequestItem {
    RequestItem::init(id, kind, fid, device)
}

#[test]
fn delivery_settles_on_an_exact_acknowledgement() {
    let st = SendState::new(9, 702);
    let (st, a) = send_step(&st, SendEvent::Found(request(9, REQUEST_DOWNLOAD, 702, 4)));
    assert_eq!(a, SendAction::Open { fid: 702 });
    let (st, a) = send_step(&st, SendEvent::Opened { ok: true });
    assert_eq!(a, SendAction::Send);
    let (st, a) = send_step(&st, SendEvent::Sent { ok: true });
    assert_eq!(a, SendAction::ReadReply);
    let (st, a) = send_step(&st, SendEvent::Replied("received!\n".to_string()));
    assert_eq!(a, SendAction::Delivered { request_id: 9, fid: 702, device_id: 4 });
    assert_eq!(st.phase, SendPhase::Done);
    assert!(st.status);
}

#[test]
fn delivery_keeps_the_request_on_a_short_reply() {
    let st = SendState::new(9, 702);
    let (st, _) = send_step(&st, SendEvent::Found(request(9, REQUEST_DOWNLOAD, 702, 4)));
    let (st, _) = send_step(&st, SendEvent::Opened { ok: true });
    let (st, _) = send_step(&st, SendEvent::Sent { ok: true });
    let (_, a) = send_step(&st, SendEvent::Replied("received".to_string()));
    assert_eq!(a, SendAction::Stop);
}

#[test]
fn delivery_refuses_another_request() {
    let st = SendState::new(9, 702);
    let (st, a) = send_step(&st, SendEvent::Found(request(9, REQUEST_DELETE, 702, 4)));
    assert_eq!(a, SendAction::Stop);
    assert!(!st.status);
    let st = SendState::new(9, 702);
    let (_, a) = send_step(&st, SendEvent::Found(request(9, REQUEST_DOWNLOAD, 703, 4)));
    assert_eq!(a, SendAction::Stop);
}

#[test]
fn delivery_drops_the_request_of_a_missing_file() {
    let st = SendState::new(9, 702);
    let (st, _) = send_step(&st, SendEvent::Found(request(11, REQUEST_DOWNLOAD, 702, 4)));
    let (st, a) = send_step(&st, SendEvent::Opened { ok: false });
    assert_eq!(a, SendAction::DropRequest { request_id: 11 });
    assert!(!st.status);
}

#[test]
fn delivery_resends_once() {
    let st = SendState::new(9, 702);
    let (st, _) = send_step(&st, SendEvent::Found(request(9, REQUEST_DOWNLOAD, 702, 4)));
    let (st, _) = send_step(&st, SendEvent::Opened { ok: true });
    let (st, a) = send_step(&st, SendEvent::Sent { ok: false });
    assert_eq!(a, SendAction::Resend { fid: 702 });
    let (st, a) = send_step(&st, SendEvent::Sent { ok: true });
    assert_eq!(a, SendAction::ReadReply);
    assert!(!st.status);
    let st = SendState::new(9, 702);
    let (st, _) = send_step(&st, SendEvent::Found(request(9, REQUEST_DOWNLOAD, 702, 4)));
    let (st, _) = send_step(&st, SendEvent::Opened { ok: true });
    let (st, _) = send_step(&st, SendEvent::Sent { ok: false });
    let (_, a) = send_step(&st, SendEvent::Sent { ok: false });
    assert_eq!(a, SendAction::Stop);
}

fn entry(id: i32, is_folder: bool) -> FileItem {
    let mut f = FileItem::init_2("n".into(), "/".into(), "rw".into(), "20240101".into(), 0, is_folder);
    f.id = id;
    f
}

#[test]
fn folder_check_stops_at_a_file_or_a_failed_store() {
    let reg = check_folder_entry(&entry(0, false), "a".into(), "/".into(), "20240101".into());
    assert!(matches!(reg, FolderStep::Register(_)));
    assert!(folder_check_stops(&reg, true));
    assert!(!folder_check_stops(&reg, false));
    let conflict = check_folder_entry(&entry(3, false), "a".into(), "/".into(), "20240101".into());
    assert!(folder_check_stops(&conflict, false));
    let known = check_folder_entry(&entry(3, true), "a".into(), "/".into(), "20240101".into());
    assert!(!folder_check_stops(&known, true));
}
