use gkd::records::FileItem;
use gkd::upload::all_fragments_stored;
use gkd::upload::check_folder_entry;
use gkd::upload::check_folder_reply;
use gkd::upload::completed;
use gkd::upload::folder_entry;
use gkd::upload::folder_store_failed;
use gkd::upload::fragment_accepted;
use gkd::upload::fragment_file_name;
use gkd::upload::fragment_name;
use gkd::upload::fragment_names;
use gkd::upload::is_last_fragment;
use gkd::upload::register_file;
use gkd::upload::registration;
use gkd::upload::store_path;
use gkd::upload::FolderStep;

fn file(id: i32, noa: i32, is_folder: bool) -> FileItem {
    let mut f = FileItem::init_2("n".into(), "/".into(), "rw".into(), "20240101".into(), noa, is_folder);
    f.id = id;
    f
}

#[test]
fn registration_negates_fragment_count() {
    let f = registration("a".into(), "/d/".into(), "rw".into(), 5, false, "20240102".into());
    assert_eq!(f.noa, -5);
    assert_eq!(f.time, "20240102");
    assert_eq!(f.id, 0);
    let g = register_file("a".into(), "/d/".into(), "rw".into(), 2, true);
    assert_eq!(g.noa, -2);
    assert!(g.is_folder);
    assert_eq!(g.time.len(), 8);
}

#[test]
fn fragments_of_an_upload() {
    let f = file(7, -3, false);
    assert!(fragment_accepted(&f, 0, 3));
    assert!(fragment_accepted(&f, 2, 3));
    assert!(!fragment_accepted(&f, 3, 3));
    assert!(!fragment_accepted(&f, -1, 3));
    assert!(!fragment_accepted(&f, 0, 4));
    assert!(is_last_fragment(2, 3));
    assert!(!is_last_fragment(1, 3));
    assert!(all_fragments_stored(3, 3));
    assert!(!all_fragments_stored(2, 3));
    assert_eq!(completed(f, 3).noa, 3);
    assert_eq!(fragment_name(7, 2), 702);
    assert_eq!(fragment_file_name(7, 2), "702");
    assert_eq!(fragment_names(7, 3), vec![700, 701, 702]);
    assert!(fragment_names(7, 0).is_empty());
    assert_eq!(store_path("E:/up/", 702), "E:/up/702");
}

#[test]
fn folder_checks() {
    let entries: Vec<String> = vec!["/".into(), "docs".into(), "\n".into()];
    let (p, n) = folder_entry(&entries, 0).unwrap();
    assert_eq!((p.as_str(), n.as_str()), ("/", "docs"));
    assert!(folder_entry(&entries, 1).is_none());
    match check_folder_entry(&file(0, 0, false), "docs".into(), "/".into(), "20240101".into()) {
        FolderStep::Register(f) => {
            assert_eq!(f.name, "docs");
            assert_eq!(f.path, "/");
            assert_eq!(f.attr, "rw");
            assert_eq!(f.noa, 0);
            assert!(f.is_folder);
        }
        _ => panic!("folder not registered"),
    }
    assert!(matches!(check_folder_entry(&file(4, 0, false), "d".into(), "/".into(), "x".into()), FolderStep::Conflict));
    assert!(matches!(check_folder_entry(&file(4, 0, true), "d".into(), "/".into(), "x".into()), FolderStep::Known));
    assert!(folder_store_failed(-1));
    assert!(!folder_store_failed(0));
    assert_eq!(check_folder_reply(1), "received!\n");
    assert_eq!(check_folder_reply(2), "ERROR!\n");
    assert_eq!(check_folder_reply(0), "ERROR!\n");
}
