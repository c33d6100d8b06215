use gkd::placement::confirm;
use gkd::placement::plan_placement;
use gkd::records::RequestItem;

fn pairs(v: Vec<RequestItem>) -> Vec<(i32, i32, i32, i32)> {
    v.into_iter()
        .map(|mut r| (r.get_id(), r.get_type(), r.get_fragment_id(), r.get_device_id()))
        .collect()
}

#[test]
fn fewer_fragments_than_devices_rotate_from_start() {
    let ids = vec![10, 20, 30];
    let got = pairs(plan_placement(7, 2, &ids, 1));
    assert_eq!(got, vec![(0, 2, 700, 20), (0, 2, 701, 30)]);
    let got = pairs(plan_placement(7, 3, &ids, 2));
    assert_eq!(got, vec![(0, 2, 700, 30), (0, 2, 701, 10), (0, 2, 702, 20)]);
}

#[test]
fn more_fragments_than_devices_are_dealt_in_blocks() {
    let ids = vec![10, 20, 30];
    // 7 = 3 * 2 + 1: the one extra fragment goes to the device at t = 1.
    let got = pairs(plan_placement(7, 7, &ids, 1));
    let devices: Vec<i32> = got.iter().map(|p| p.3).collect();
    assert_eq!(devices, vec![10, 10, 20, 20, 20, 30, 30]);
    let fids: Vec<i32> = got.iter().map(|p| p.2).collect();
    assert_eq!(fids, (700..707).collect::<Vec<i32>>());
    // extras wrap around past the last device
    let got = pairs(plan_placement(1, 8, &ids, 2));
    let devices: Vec<i32> = got.iter().map(|p| p.3).collect();
    assert_eq!(devices, vec![10, 10, 10, 20, 20, 30, 30, 30]);
}

#[test]
fn placement_is_balanced_for_every_start() {
    let ids: Vec<i32> = (1..=4).collect();
    for t in 0..4 {
        for num in 5..20 {
            let got = pairs(plan_placement(3, num, &ids, t));
            assert_eq!(got.len(), num as usize);
            for d in &ids {
                let c = got.iter().filter(|p| p.3 == *d).count() as i32;
                assert!(c == num / 4 || c == num / 4 + 1);
            }
        }
    }
}

#[test]
fn no_fragments_no_requests() {
    assert!(plan_placement(3, 0, &vec![1], 0).is_empty());
    assert!(plan_placement(3, -2, &vec![1, 2], 1).is_empty());
}

#[test]
fn confirm_needs_an_online_device() {
    assert!(confirm(4, 3, &vec![]).is_none());
    let got = pairs(confirm(4, 3, &vec![5, 6, 7]).unwrap());
    assert_eq!(got.len(), 3);
    let mut devices: Vec<i32> = got.iter().map(|p| p.3).collect();
    devices.sort();
    assert_eq!(devices, vec![5, 6, 7]);
    let fids: Vec<i32> = got.iter().map(|p| p.2).collect();
    assert_eq!(fids, vec![400, 401, 402]);
}

#[test]
fn confirm_without_devices_ignores_the_file_id() {
    assert!(confirm(i32::MAX, 5, &vec![]).is_none());
    assert!(confirm(i32::MIN, 5, &vec![]).is_none());
}

#[test]
fn confirm_of_no_fragments_places_nothing() {
    assert_eq!(confirm(i32::MIN, 0, &vec![1, 2]).unwrap().len(), 0);
    assert_eq!(confirm(i32::MAX, -3, &vec![1]).unwrap().len(), 0);
}
