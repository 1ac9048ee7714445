use mem_map::directory::Directory;
use mem_map::exports::{
    get, get_extern, get_from_reg, id_exists, init, insert_cp, insert_extern, remove, save_address,
};
use mem_map::store::MemMap;

#[test]
fn two_process_round_trip() {
    let mut dir = Directory::new();
    let mut producer = MemMap::new(b"producer.exe".to_vec(), 101);
    let payload = vec![0x10u8, 0x20, 0x30, 0x40, 0x50];

    assert!(init(&producer, &mut dir));
    assert_eq!(insert_cp(&mut producer, &mut dir, 1, &payload, true), 0);

    let (status, buf) = get_extern(&dir, &producer, 1, 101, payload.len());
    assert_eq!(status, 0);
    assert_eq!(buf.unwrap(), payload);
}

#[test]
fn get_extern_reads_leading_bytes_only() {
    let mut dir = Directory::new();
    let mut producer = MemMap::new(b"producer.exe".to_vec(), 101);
    let payload = vec![1u8, 2, 3, 4, 5, 6, 7, 8];
    assert!(init(&producer, &mut dir));
    assert_eq!(insert_cp(&mut producer, &mut dir, 9, &payload, true), 0);

    let (status, buf) = get_extern(&dir, &producer, 9, 101, 3);
    assert_eq!(status, 0);
    assert_eq!(buf.unwrap(), vec![1u8, 2, 3]);
}

#[test]
fn get_extern_restricted_key() {
    let dir = Directory::new();
    let target = MemMap::new(b"t.exe".to_vec(), 5);
    let (status, buf) = get_extern(&dir, &target, 0, 5, 8);
    assert_eq!(status, 1);
    assert!(buf.is_none());
}

#[test]
fn get_extern_unopenable_pid_is_invalid_handle() {
    let mut dir = Directory::new();
    let mut producer = MemMap::new(b"producer.exe".to_vec(), 101);
    let payload = vec![1u8, 2, 3];
    assert!(init(&producer, &mut dir));
    assert_eq!(insert_cp(&mut producer, &mut dir, 1, &payload, true), 0);

    let (status, buf) = get_extern(&dir, &producer, 1, 999, 3);
    assert_eq!(status, 3);
    assert!(buf.is_none());
}

#[test]
fn get_extern_unpublished_key_is_invalid_id() {
    let mut dir = Directory::new();
    let mut producer = MemMap::new(b"producer.exe".to_vec(), 101);
    let payload = vec![1u8, 2, 3];
    assert!(init(&producer, &mut dir));
    // stored locally only, never published
    assert_eq!(insert_cp(&mut producer, &mut dir, 1, &payload, false), 0);

    let (status, buf) = get_extern(&dir, &producer, 1, 101, 3);
    assert_eq!(status, 2);
    assert!(buf.is_none());
}

#[test]
fn get_extern_zero_sized_transfer_fails_as_remote_read() {
    let mut dir = Directory::new();
    let mut producer = MemMap::new(b"producer.exe".to_vec(), 101);
    let payload = vec![1u8, 2, 3];
    assert!(init(&producer, &mut dir));
    assert_eq!(insert_cp(&mut producer, &mut dir, 1, &payload, true), 0);

    let (status, buf) = get_extern(&dir, &producer, 1, 101, 0);
    assert_eq!(status, 4);
    assert!(buf.is_none());
}

#[test]
fn get_extern_dangling_address_fails_as_remote_read() {
    let mut dir = Directory::new();
    let producer = MemMap::new(b"producer.exe".to_vec(), 101);
    assert!(init(&producer, &mut dir));
    // publish text pointing nowhere inside the producer
    assert!(save_address(
        &mut dir,
        &b"producer.exe".to_vec(),
        &4,
        b"abcdef".to_vec()
    ));
    let (status, buf) = get_extern(&dir, &producer, 4, 101, 8);
    assert_eq!(status, 4);
    assert!(buf.is_none());
}

#[test]
fn get_extern_unparsable_address_is_invalid_id() {
    let mut dir = Directory::new();
    let producer = MemMap::new(b"producer.exe".to_vec(), 101);
    assert!(init(&producer, &mut dir));
    assert!(save_address(
        &mut dir,
        &b"producer.exe".to_vec(),
        &4,
        b"not hex".to_vec()
    ));
    let (status, _) = get_extern(&dir, &producer, 4, 101, 8);
    assert_eq!(status, 2);
}

#[test]
fn insert_extern_overwrites_remote_region() {
    let mut dir = Directory::new();
    let mut producer = MemMap::new(b"producer.exe".to_vec(), 101);
    let payload = vec![0u8; 6];
    assert!(init(&producer, &mut dir));
    assert_eq!(insert_cp(&mut producer, &mut dir, 2, &payload, true), 0);

    let source = vec![9u8, 9, 9];
    let rc = insert_extern(&dir, &mut producer, 2, 101, &source);
    assert_eq!(rc, 0);
    assert_eq!(get(&producer, 2).unwrap().as_slice(), &[9u8, 9, 9, 0, 0, 0]);
}

#[test]
fn insert_extern_failures_leave_target_unchanged() {
    let mut dir = Directory::new();
    let mut producer = MemMap::new(b"producer.exe".to_vec(), 101);
    let payload = vec![3u8, 3, 3];
    assert!(init(&producer, &mut dir));
    assert_eq!(insert_cp(&mut producer, &mut dir, 2, &payload, true), 0);

    let source = vec![9u8];
    assert_eq!(insert_extern(&dir, &mut producer, 0, 101, &source), 1);
    assert_eq!(insert_extern(&dir, &mut producer, 2, 999, &source), 3);
    assert_eq!(insert_extern(&dir, &mut producer, 8, 101, &source), 2);
    assert_eq!(get(&producer, 2).unwrap().as_slice(), payload.as_slice());
}

#[test]
fn id_exists_follows_publish_and_remove() {
    let mut dir = Directory::new();
    let mut producer = MemMap::new(b"producer.exe".to_vec(), 101);
    let payload = vec![1u8, 2];
    assert!(init(&producer, &mut dir));

    assert!(!id_exists(&dir, 1, 101));
    assert_eq!(insert_cp(&mut producer, &mut dir, 1, &payload, true), 0);
    assert!(id_exists(&dir, 1, 101));
    assert!(!id_exists(&dir, 2, 101));
    assert!(!id_exists(&dir, 1, 999));

    assert_eq!(remove(&mut producer, &mut dir, 1), 0);
    assert!(!id_exists(&dir, 1, 101));
}

#[test]
fn id_exists_false_for_private_insert() {
    let mut dir = Directory::new();
    let mut producer = MemMap::new(b"producer.exe".to_vec(), 101);
    assert!(init(&producer, &mut dir));
    assert_eq!(insert_cp(&mut producer, &mut dir, 6, &vec![1u8], false), 0);
    assert!(!id_exists(&dir, 6, 101));
}

#[test]
fn get_from_reg_resolves_own_published_address() {
    let mut dir = Directory::new();
    let mut producer = MemMap::new(b"producer.exe".to_vec(), 101);
    assert!(init(&producer, &mut dir));
    assert_eq!(insert_cp(&mut producer, &mut dir, 3, &vec![1u8, 2], true), 0);
    assert!(get_from_reg(&producer, &dir, 3).is_some());
    assert!(get_from_reg(&producer, &dir, 4).is_none());
}

#[test]
fn get_from_reg_null_on_unreadable_text() {
    let mut dir = Directory::new();
    let producer = MemMap::new(b"producer.exe".to_vec(), 101);
    assert!(init(&producer, &mut dir));
    assert!(save_address(
        &mut dir,
        &b"producer.exe".to_vec(),
        &3,
        b"zz".to_vec()
    ));
    assert!(get_from_reg(&producer, &dir, 3).is_none());
}
