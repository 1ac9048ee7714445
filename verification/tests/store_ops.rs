use mem_map::directory::Directory;
use mem_map::exports::{get, insert, insert_cp, insert_mv, remove};
use mem_map::store::MemMap;

fn fresh(label: &[u8], pid: u32) -> (MemMap, Directory) {
    (MemMap::new(label.to_vec(), pid), Directory::new())
}

#[test]
fn insert_then_get_returns_equal_bytes() {
    let (mut map, mut dir) = fresh(b"a.exe", 11);
    for size in [1usize, 4, 4096] {
        let payload: Vec<u8> = (0..size).map(|i| (i % 251) as u8).collect();
        let rc = insert_cp(&mut map, &mut dir, size as u64, &payload, false);
        assert_eq!(rc, 0);
        let got = get(&map, size as u64).expect("stored region must be readable");
        assert_eq!(got.as_slice(), payload.as_slice());
    }
}

#[test]
fn insert_mv_then_get_returns_equal_bytes() {
    let (mut map, mut dir) = fresh(b"a.exe", 11);
    let payload = vec![9u8, 8, 7, 6];
    let rc = insert_mv(&mut map, &mut dir, 3, payload.clone(), false);
    assert_eq!(rc, 0);
    assert_eq!(get(&map, 3).unwrap().as_slice(), payload.as_slice());
}

#[test]
fn restricted_key_is_rejected_without_side_effect() {
    let (mut map, mut dir) = fresh(b"a.exe", 11);
    let payload = vec![1u8, 2, 3];
    assert_eq!(insert_cp(&mut map, &mut dir, 7, &payload, false), 0);

    assert_eq!(insert_cp(&mut map, &mut dir, 0, &payload, false), 1);
    assert_eq!(insert_mv(&mut map, &mut dir, 0, payload.clone(), false), 1);
    assert_eq!(insert(&mut map, &mut dir, 0, payload.clone(), true), 1);
    assert_eq!(remove(&mut map, &mut dir, 0), 1);
    assert!(get(&map, 0).is_none());

    assert_eq!(get(&map, 7).unwrap().as_slice(), payload.as_slice());
}

#[test]
fn remove_missing_key_yields_invalid_id_and_keeps_store() {
    let (mut map, mut dir) = fresh(b"a.exe", 11);
    let payload = vec![5u8; 16];
    assert_eq!(insert_cp(&mut map, &mut dir, 2, &payload, false), 0);
    assert_eq!(remove(&mut map, &mut dir, 99), 2);
    assert_eq!(get(&map, 2).unwrap().as_slice(), payload.as_slice());
}

#[test]
fn get_missing_key_returns_null_result() {
    let (map, _dir) = fresh(b"a.exe", 11);
    assert!(get(&map, 42).is_none());
}

#[test]
fn insert_remove_get_returns_null_result() {
    let (mut map, mut dir) = fresh(b"a.exe", 11);
    let payload = vec![0xAAu8; 32];
    assert_eq!(insert_cp(&mut map, &mut dir, 5, &payload, true), 0);
    assert_eq!(remove(&mut map, &mut dir, 5), 0);
    assert!(get(&map, 5).is_none());
}

#[test]
fn reinsert_with_other_size_keeps_unrelated_keys() {
    let (mut map, mut dir) = fresh(b"a.exe", 11);
    let first = vec![1u8; 100];
    let second = vec![2u8; 3];
    let other = vec![7u8, 7, 7, 7];
    assert_eq!(insert_cp(&mut map, &mut dir, 1, &first, false), 0);
    assert_eq!(insert_cp(&mut map, &mut dir, 2, &other, false), 0);
    assert_eq!(insert_cp(&mut map, &mut dir, 1, &second, false), 0);
    assert_eq!(get(&map, 1).unwrap().as_slice(), second.as_slice());
    assert_eq!(get(&map, 2).unwrap().as_slice(), other.as_slice());
}
