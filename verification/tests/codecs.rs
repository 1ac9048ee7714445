use mem_map::engine::{session_start, session_step, Action, Event, Phase, RemoteOp, Session};
use mem_map::errors::Error;
use mem_map::exports::get_key_path;
use mem_map::hex_addr::{encode_address, parse_address};
use mem_map::mem_map::{wrapper_from_bytes, wrapper_to_bytes, MemWrapper};

#[test]
fn error_codes_are_stable() {
    assert_eq!(Error::Success.code(), 0);
    assert_eq!(Error::RestrictedID.code(), 1);
    assert_eq!(Error::InvalidID.code(), 2);
    assert_eq!(Error::InvalidHandle.code(), 3);
    assert_eq!(Error::ReadProcessMemoryFailed.code(), 4);
    assert_eq!(Error::AddressNotSaved.code(), 5);
}

#[test]
fn error_codes_round_trip() {
    for c in 0u32..=5 {
        assert_eq!(Error::from_code(c).code(), c);
    }
    assert_eq!(Error::from_code(9), Error::Success);
    assert_eq!(Error::from_code(u32::MAX), Error::Success);
}

#[test]
fn hex_encoding_is_bare_lowercase() {
    assert_eq!(encode_address(0), b"0".to_vec());
    assert_eq!(encode_address(0xDEADBEEF), b"deadbeef".to_vec());
    assert_eq!(encode_address(16), b"10".to_vec());
    assert_eq!(encode_address(u64::MAX), b"ffffffffffffffff".to_vec());
}

#[test]
fn hex_parsing_accepts_either_case_and_rejects_junk() {
    assert_eq!(parse_address(&b"FF".to_vec()), Some(255));
    assert_eq!(parse_address(&b"ff".to_vec()), Some(255));
    assert_eq!(parse_address(&b"0".to_vec()), Some(0));
    assert_eq!(parse_address(&b"".to_vec()), None);
    assert_eq!(parse_address(&b"not hex".to_vec()), None);
    assert_eq!(parse_address(&b"10000000000000000".to_vec()), None);
    assert_eq!(parse_address(&b"ffffffffffffffff".to_vec()), Some(u64::MAX));
}

#[test]
fn hex_round_trip() {
    for v in [0u64, 1, 15, 16, 255, 4096, 0x0123_4567_89AB_CDEF, u64::MAX] {
        assert_eq!(parse_address(&encode_address(v)), Some(v));
    }
}

#[test]
fn wrapper_bytes_are_little_endian() {
    let w = MemWrapper { ptr: 0x0102_0304_0506_0708 };
    assert_eq!(wrapper_to_bytes(&w), vec![8u8, 7, 6, 5, 4, 3, 2, 1]);
}

#[test]
fn wrapper_round_trip_and_short_reads() {
    for p in [0u64, 1, 0xFFFF_FFFF_FFFF_FFFF, 0x8000_0000_0000_0001] {
        let bytes = wrapper_to_bytes(&MemWrapper { ptr: p });
        assert_eq!(wrapper_from_bytes(&bytes), Some(MemWrapper { ptr: p }));
    }
    assert_eq!(wrapper_from_bytes(&vec![1u8, 2, 3]), None);
    assert_eq!(wrapper_from_bytes(&Vec::new()), None);
}

#[test]
fn key_path_joins_root_and_label() {
    let path = get_key_path(&b"app.exe".to_vec());
    assert_eq!(path, b"Software\\VulcoLibs\\MemMap\\app.exe".to_vec());
}

#[test]
fn session_rejects_reserved_key_at_once() {
    let (s, a) = session_start(0, 42, RemoteOp::Fetch { size: 8 });
    assert!(matches!(a, Action::Stop { status: 1 }));
    assert!(matches!(s.phase, Phase::Done { status: 1, data: None }));
}

#[test]
fn session_reports_invalid_handle_on_failed_open() {
    let (s, a) = session_start(5, 42, RemoteOp::Fetch { size: 8 });
    assert!(matches!(a, Action::Open { pid: 42 }));
    let (s2, a2) = session_step(s, Event::Opened { ok: false });
    assert!(matches!(a2, Action::Stop { status: 3 }));
    assert!(matches!(s2.phase, Phase::Done { status: 3, data: None }));
}

#[test]
fn session_walks_both_hops_on_the_happy_path() {
    let (s, a) = session_start(5, 42, RemoteOp::Fetch { size: 2 });
    assert!(matches!(a, Action::Open { pid: 42 }));
    let (s, a) = session_step(s, Event::Opened { ok: true });
    assert!(matches!(a, Action::QueryName));
    let (s, a) = session_step(
        s,
        Event::Named { name: Some(b"p.exe".to_vec()) },
    );
    match &a {
        Action::Resolve { label, key } => {
            assert_eq!(label, &b"p.exe".to_vec());
            assert_eq!(*key, 5);
        }
        _ => panic!("expected a directory lookup"),
    }
    let (s, a) = session_step(s, Event::Resolved { text: Some(b"1c".to_vec()) });
    assert!(matches!(a, Action::ReadWrapper { addr: 0x1c }));
    let wrapper_bytes = wrapper_to_bytes(&MemWrapper { ptr: 0x1d });
    let (s, a) = session_step(
        s,
        Event::FirstRead { bytes: 8, data: wrapper_bytes },
    );
    assert!(matches!(a, Action::ReadPayload { addr: 0x1d, size: 2 }));
    let (s, a) = session_step(
        s,
        Event::SecondRead { bytes: 2, data: vec![0xAB, 0xCD] },
    );
    assert!(matches!(a, Action::Stop { status: 0 }));
    let done: Session = s;
    match done.phase {
        Phase::Done { status, data } => {
            assert_eq!(status, 0);
            assert_eq!(data.unwrap(), vec![0xAB, 0xCD]);
        }
        _ => panic!("expected a finished session"),
    }
}
