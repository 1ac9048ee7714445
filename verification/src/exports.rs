//! The public operation surface: the callable operations composing the local
//! store, the address directory and the remote access engine, translating
//! every failure into the closed numeric taxonomy of [`crate::errors::Error`].
//! The store and the directory are explicit context arguments rather than
//! process-wide globals, so independent instances can live side by side.
//!
//! Two operations here never arise in the model but exist in the taxonomy: a
//! publish into the model directory cannot fail, so `insert` never returns
//! AddressNotSaved; a host whose persistent store rejects a write reports
//! that failure itself through [`save_address`]'s result.

use vstd::prelude::*;
use crate::bytes::copy_bytes;
use crate::directory::{
    Directory, IdentRecord, spec_first_label_with_pid, spec_lookup_address, spec_lookup_pid,
};
use crate::engine::{Action, Event, Phase, RemoteOp, session_start, session_step};
use crate::errors::Error;
use crate::hex_addr::{all_hex_digits, encode_address, hex_value, spec_encode, lemma_hex_round_trip};
use crate::store::{MemMap, StoreEntry, lemma_store_index, spec_store_data, spec_store_wrapper, store_index};

verus! {

/// The fixed root of the persisted namespace, as path bytes.
pub open spec fn spec_reg_path() -> Seq<u8> {
    seq![
        'S' as u8, 'o' as u8, 'f' as u8, 't' as u8, 'w' as u8, 'a' as u8, 'r' as u8, 'e' as u8, '\\' as u8, 'V' as u8, 'u' as u8, 'l' as u8, 'c' as u8, 'o' as u8, 'L' as u8,
        'i' as u8, 'b' as u8, 's' as u8, '\\' as u8, 'M' as u8, 'e' as u8, 'm' as u8, 'M' as u8, 'a' as u8, 'p' as u8,
    ]
}

/// The persisted path of one identity's sub-namespace: the fixed root, a
/// separator, and the identity label.
pub open spec fn spec_key_path(exe: Seq<u8>) -> Seq<u8> {
    spec_reg_path() + seq!['\\' as u8] + exe
}

/// The fixed root of the persisted namespace, built as owned bytes.
pub fn reg_path() -> (r: Vec<u8>)
    ensures
        r@ == spec_reg_path(),
{
    let mut r: Vec<u8> = Vec::new();
    r.push('S' as u8);
    r.push('o' as u8);
    r.push('f' as u8);
    r.push('t' as u8);
    r.push('w' as u8);
    r.push('a' as u8);
    r.push('r' as u8);
    r.push('e' as u8);
    r.push('\\' as u8);
    r.push('V' as u8);
    r.push('u' as u8);
    r.push('l' as u8);
    r.push('c' as u8);
    r.push('o' as u8);
    r.push('L' as u8);
    r.push('i' as u8);
    r.push('b' as u8);
    r.push('s' as u8);
    r.push('\\' as u8);
    r.push('M' as u8);
    r.push('e' as u8);
    r.push('m' as u8);
    r.push('M' as u8);
    r.push('a' as u8);
    r.push('p' as u8);
    proof {
        assert(r@ =~= spec_reg_path());
    }
    r
}

/// The persisted path of an identity's sub-namespace, from its label (the
/// executable's file name, which the host supplies).
pub fn get_key_path(exe: &Vec<u8>) -> (r: Vec<u8>)
    ensures
        r@ == spec_key_path(exe@),
{
    let mut r = reg_path();
    r.push('\\' as u8);
    let mut i: usize = 0;
    while i < exe.len()
        invariant
            0 <= i <= exe@.len(),
            r@ == spec_reg_path() + seq!['\\' as u8] + exe@.take(i as int),
        decreases exe@.len() - i,
    {
        r.push(exe[i]);
        proof {
            assert((spec_reg_path() + seq!['\\' as u8] + exe@.take(i as int)).push(exe@[i as int])
                =~= spec_reg_path() + seq!['\\' as u8] + exe@.take(i as int + 1));
        }
        i = i + 1;
    }
    proof {
        assert(exe@.take(exe@.len() as int) =~= exe@);
    }
    r
}

/// Initializes the mechanism for a process: registers its identity and id in
/// the directory and clears its sub-namespace. The model directory is always
/// writable, so this reports success; a host that cannot write its
/// persistent store reports the failure itself.
pub fn init(map: &MemMap, dir: &mut Directory) -> (r: bool)
    requires
        old(dir).wf(),
    ensures
        final(dir).wf(),
        r == true,
        spec_lookup_pid(final(dir).records@, map.label@) == Some(map.pid),
        forall|k: u64| spec_lookup_address(final(dir).records@, map.label@, k) is None,
        forall|l: Seq<u8>, k: u64|
            l != map.label@ ==> spec_lookup_address(final(dir).records@, l, k)
                == spec_lookup_address(old(dir).records@, l, k),
        forall|l: Seq<u8>|
            l != map.label@ ==> spec_lookup_pid(final(dir).records@, l) == spec_lookup_pid(
                old(dir).records@,
                l,
            ),
{
    dir.register(&map.label, map.pid);
    dir.clear_space(&map.label);
    true
}

/// Publishes an address under a key of an identity's sub-namespace. The
/// model directory always accepts the write; the result says so, and stands
/// where a host would report its persistent store's verdict.
pub fn save_address(dir: &mut Directory, label: &Vec<u8>, id: &u64, addr: Vec<u8>) -> (r: bool)
    requires
        old(dir).wf(),
    ensures
        final(dir).wf(),
        r == true,
        spec_lookup_address(final(dir).records@, label@, *id) == Some(addr@),
        forall|l: Seq<u8>, k: u64|
            l != label@ || k != *id ==> spec_lookup_address(final(dir).records@, l, k)
                == spec_lookup_address(old(dir).records@, l, k),
        forall|l: Seq<u8>|
            spec_lookup_pid(final(dir).records@, l) == spec_lookup_pid(old(dir).records@, l),
{
    dir.save_address(label, *id, addr)
}

/// Stores a byte region under a nonzero key, replacing (and releasing) any
/// prior region under it, and, when asked, publishes the region's wrapper
/// address in the directory as bare hexadecimal text. A reserved key is
/// rejected with RestrictedID and changes nothing. In this model the publish
/// cannot fail, so AddressNotSaved never arises and success is status 0.
pub fn insert(map: &mut MemMap, dir: &mut Directory, key: u64, data: Vec<u8>, as_extern: bool) -> (r:
    u32)
    requires
        old(map).wf(),
        old(dir).wf(),
        old(map).next_addr <= u64::MAX - 2,
    ensures
        final(map).wf(),
        final(dir).wf(),
        key == 0 ==> r == 1 && *final(map) == *old(map) && *final(dir) == *old(dir),
        key != 0 ==> ({
            &&& r == 0
            &&& final(map).label@ == old(map).label@
            &&& final(map).pid == old(map).pid
            &&& spec_store_data(final(map).entries@, key) == Some(data@)
            &&& forall|k: u64|
                k != key ==> spec_store_data(final(map).entries@, k) == spec_store_data(
                    old(map).entries@,
                    k,
                )
            &&& !as_extern ==> *final(dir) == *old(dir)
            &&& as_extern ==> ({
                &&& spec_store_wrapper(final(map).entries@, key) matches Some(w)
                    && spec_lookup_address(final(dir).records@, old(map).label@, key) == Some(
                    spec_encode(w as nat),
                )
                &&& forall|l: Seq<u8>, k: u64|
                    l != old(map).label@ || k != key ==> spec_lookup_address(
                        final(dir).records@,
                        l,
                        k,
                    ) == spec_lookup_address(old(dir).records@, l, k)
                &&& forall|l: Seq<u8>|
                    spec_lookup_pid(final(dir).records@, l) == spec_lookup_pid(
                        old(dir).records@,
                        l,
                    )
                &&& forall|p: u32|
                    spec_first_label_with_pid(final(dir).records@, p) == spec_first_label_with_pid(
                        old(dir).records@,
                        p,
                    )
            })
        }),
{
    if key == 0 {
        return Error::RestrictedID.code();
    }
    let w = map.insert_entry(key, data);
    if as_extern {
        let text = encode_address(w);
        dir.save_address(&map.label, key, text);
    }
    Error::Success.code()
}

/// Stores a copy of the caller's region under a key: the caller keeps its
/// buffer, as under copy semantics.
pub fn insert_cp(
    map: &mut MemMap,
    dir: &mut Directory,
    key: u64,
    src: &Vec<u8>,
    as_extern: bool,
) -> (r: u32)
    requires
        old(map).wf(),
        old(dir).wf(),
        old(map).next_addr <= u64::MAX - 2,
    ensures
        final(map).wf(),
        final(dir).wf(),
        key == 0 ==> r == 1 && *final(map) == *old(map) && *final(dir) == *old(dir),
        key != 0 ==> ({
            &&& r == 0
            &&& final(map).label@ == old(map).label@
            &&& final(map).pid == old(map).pid
            &&& spec_store_data(final(map).entries@, key) == Some(src@)
            &&& forall|k: u64|
                k != key ==> spec_store_data(final(map).entries@, k) == spec_store_data(
                    old(map).entries@,
                    k,
                )
            &&& !as_extern ==> *final(dir) == *old(dir)
            &&& as_extern ==> ({
                &&& spec_store_wrapper(final(map).entries@, key) matches Some(w)
                    && spec_lookup_address(final(dir).records@, old(map).label@, key) == Some(
                    spec_encode(w as nat),
                )
            })
        }),
{
    let data = copy_bytes(src);
    insert(map, dir, key, data, as_extern)
}

/// Stores the caller's own buffer under a key: ownership moves into the
/// store, as under move semantics.
pub fn insert_mv(map: &mut MemMap, dir: &mut Directory, key: u64, data: Vec<u8>, as_extern: bool) -> (
    r: u32)
    requires
        old(map).wf(),
        old(dir).wf(),
        old(map).next_addr <= u64::MAX - 2,
    ensures
        final(map).wf(),
        final(dir).wf(),
        key == 0 ==> r == 1 && *final(map) == *old(map) && *final(dir) == *old(dir),
        key != 0 ==> ({
            &&& r == 0
            &&& final(map).label@ == old(map).label@
            &&& final(map).pid == old(map).pid
            &&& spec_store_data(final(map).entries@, key) == Some(data@)
            &&& forall|k: u64|
                k != key ==> spec_store_data(final(map).entries@, k) == spec_store_data(
                    old(map).entries@,
                    k,
                )
            &&& !as_extern ==> *final(dir) == *old(dir)
            &&& as_extern ==> ({
                &&& spec_store_wrapper(final(map).entries@, key) matches Some(w)
                    && spec_lookup_address(final(dir).records@, old(map).label@, key) == Some(
                    spec_encode(w as nat),
                )
            })
        }),
{
    insert(map, dir, key, data, as_extern)
}

/// Reads the region stored under a key in the caller's own store. The null
/// result stands for a reserved key and for an absent key alike.
pub fn get(map: &MemMap, key: u64) -> (r: Option<&Vec<u8>>)
    ensures
        key == 0 ==> r is None,
        key != 0 ==> match r {
            Some(d) => spec_store_data(map.entries@, key) == Some(d@),
            None => spec_store_data(map.entries@, key) is None,
        },
{
    if key == 0 {
        return None;
    }
    map.get_entry(key)
}

/// Releases the region stored under a key and withdraws its published
/// address. A reserved key is rejected with RestrictedID; an absent key with
/// InvalidID; both leave everything unmodified.
pub fn remove(map: &mut MemMap, dir: &mut Directory, key: u64) -> (r: u32)
    requires
        old(map).wf(),
        old(dir).wf(),
    ensures
        final(map).wf(),
        final(dir).wf(),
        key == 0 ==> r == 1 && *final(map) == *old(map) && *final(dir) == *old(dir),
        key != 0 && spec_store_data(old(map).entries@, key) is None ==> r == 2 && *final(map)
            == *old(map) && *final(dir) == *old(dir),
        key != 0 && spec_store_data(old(map).entries@, key) is Some ==> ({
            &&& r == 0
            &&& final(map).label@ == old(map).label@
            &&& final(map).pid == old(map).pid
            &&& spec_store_data(final(map).entries@, key) is None
            &&& forall|k: u64|
                k != key ==> spec_store_data(final(map).entries@, k) == spec_store_data(
                    old(map).entries@,
                    k,
                )
            &&& spec_lookup_address(final(dir).records@, old(map).label@, key) is None
            &&& forall|l: Seq<u8>, k: u64|
                l != old(map).label@ || k != key ==> spec_lookup_address(final(dir).records@, l, k)
                    == spec_lookup_address(old(dir).records@, l, k)
            &&& forall|l: Seq<u8>|
                spec_lookup_pid(final(dir).records@, l) == spec_lookup_pid(old(dir).records@, l)
            &&& forall|p: u32|
                spec_first_label_with_pid(final(dir).records@, p) == spec_first_label_with_pid(
                    old(dir).records@,
                    p,
                )
        }),
{
    if key == 0 {
        return Error::RestrictedID.code();
    }
    let present = match map.get_entry(key) {
        Some(_) => true,
        None => false,
    };
    if !present {
        return Error::InvalidID.code();
    }
    map.remove_entry(key);
    dir.delete_address(&map.label, key);
    Error::Success.code()
}

/// Resolves the caller's own published address for a key back through the
/// directory: looks the text up under the caller's label, reads it as
/// hexadecimal, and walks the wrapper hop inside the caller's own space,
/// yielding the payload address. The null result stands for missing,
/// unreadable or dangling text.
pub fn get_from_reg(map: &MemMap, dir: &Directory, key: u64) -> (r: Option<u64>)
    requires
        map.wf(),
        dir.wf(),
    ensures
        spec_lookup_address(dir.records@, map.label@, key) is None ==> r is None,
        forall|t: Seq<u8>|
            spec_lookup_address(dir.records@, map.label@, key) == Some(t) && !(t.len() > 0
                && all_hex_digits(t) && hex_value(t) <= u64::MAX) ==> r is None,
        forall|t: Seq<u8>|
            spec_lookup_address(dir.records@, map.label@, key) == Some(t) && t.len() > 0
                && all_hex_digits(t) && hex_value(t) <= u64::MAX ==> match r {
                Some(p) => exists|i: int|
                    0 <= i < map.entries@.len() && (#[trigger] map.entries@[i]).wrapper_addr as nat
                        == hex_value(t) && map.entries@[i].payload_addr == p,
                None => forall|i: int|
                    0 <= i < map.entries@.len() ==> (#[trigger] map.entries@[i]).wrapper_addr as nat
                        != hex_value(t),
            },
{
    let text = match dir.lookup_address(&map.label, key) {
        None => {
            return None;
        },
        Some(t) => copy_bytes(t),
    };
    match crate::hex_addr::parse_address(&text) {
        None => None,
        Some(addr) => map.payload_at_wrapper(addr),
    }
}

/// Whether a published address exists for a key under the identity resolved
/// from a process id. Every resolution failure reads as false; a stale
/// registration resolves like a live one.
pub open spec fn spec_id_exists(recs: Seq<IdentRecord>, key: u64, pid: u32) -> bool {
    match spec_first_label_with_pid(recs, pid) {
        Some(l) => spec_lookup_address(recs, l, key) is Some,
        None => false,
    }
}

/// Checks whether a key was published by the process a process id resolves
/// to: scans the registered identities for the first with that id, then
/// looks the key up under its label.
pub fn id_exists(dir: &Directory, key: u64, pid: u32) -> (r: bool)
    requires
        dir.wf(),
    ensures
        r == spec_id_exists(dir.records@, key, pid),
{
    let label = match dir.find_identity_by_pid(pid) {
        None => {
            return false;
        },
        Some(l) => copy_bytes(l),
    };
    match dir.lookup_address(&label, key) {
        Some(_) => true,
        None => false,
    }
}

/// Once a process id resolves to a label, a key exists exactly when an
/// address stands published under that label and key — so a publish turns
/// the answer true and the matching withdrawal turns it false again.
pub proof fn lemma_id_exists_law(recs: Seq<IdentRecord>, key: u64, pid: u32, label: Seq<u8>)
    requires
        spec_first_label_with_pid(recs, pid) == Some(label),
    ensures
        spec_id_exists(recs, key, pid) == (spec_lookup_address(recs, label, key) is Some),
{
}

/// A published address survives its round trip through the directory: the
/// canonical text of a wrapper address is nonempty hexadecimal and denotes
/// the address back, so a remote reader that finds the text recovers the
/// address exactly.
pub proof fn lemma_published_address_resolves(w: u64)
    ensures
        spec_encode(w as nat).len() > 0,
        all_hex_digits(spec_encode(w as nat)),
        hex_value(spec_encode(w as nat)) == w as nat,
{
    lemma_hex_round_trip(w as nat);
}

/// The wrapper address recorded for a key belongs to exactly the region
/// stored under that key: resolving it lands on an entry whose bytes are the
/// key's stored bytes. Together with the address text's round trip, this is
/// why a publish under a key followed by a remote fetch of the same key
/// yields the published bytes.
pub proof fn lemma_publish_resolves_to_region(entries: Seq<StoreEntry>, key: u64, w: u64)
    requires
        spec_store_wrapper(entries, key) == Some(w),
    ensures
        exists|i: int|
            0 <= i < entries.len() && (#[trigger] entries[i]).wrapper_addr == w
                && spec_store_data(entries, key) == Some(entries[i].data@),
{
    lemma_store_index(entries, key);
    let r = store_index(entries, key);
    assert(0 <= r < entries.len() && entries[r].wrapper_addr == w && spec_store_data(entries, key)
        == Some(entries[r].data@));
}

/// Reads a remote process's published region for a key into a fresh buffer,
/// driving the session engine against the model host: the handle opens
/// exactly when the id names the target process, the name query answers the
/// target's label, the directory resolves the published text, and the two
/// hops read the wrapper and then up to `target_size` payload bytes. On
/// success the buffer holds the leading payload bytes; every failure is one
/// of the taxonomy's terminal statuses.
pub fn get_extern(dir: &Directory, target: &MemMap, key: u64, pid: u32, target_size: usize) -> (r:
    (u32, Option<Vec<u8>>))
    requires
        dir.wf(),
        target.wf(),
    ensures
        (r.0 == 0) <==> (r.1 is Some),
        key == 0 ==> r.0 == 1,
        key != 0 && pid != target.pid ==> r.0 == 3,
        key != 0 && pid == target.pid && spec_lookup_address(dir.records@, target.label@, key)
            is None ==> r.0 == 2,
        forall|t: Seq<u8>|
            key != 0 && pid == target.pid && spec_lookup_address(dir.records@, target.label@, key)
                == Some(t) && !(t.len() > 0 && all_hex_digits(t) && hex_value(t) <= u64::MAX)
                ==> r.0 == 2,
        forall|t: Seq<u8>|
            #![trigger hex_value(t)]
            key != 0 && pid == target.pid && spec_lookup_address(dir.records@, target.label@, key)
                == Some(t) && t.len() > 0 && all_hex_digits(t) && hex_value(t) <= u64::MAX && (
            forall|i: int|
                0 <= i < target.entries@.len() ==> (#[trigger] target.entries@[i]).wrapper_addr
                    as nat != hex_value(t) && target.entries@[i].payload_addr as nat != hex_value(
                    t,
                )) ==> r.0 == 4,
        forall|t: Seq<u8>, i: int|
            #![trigger target.entries@[i], hex_value(t)]
            key != 0 && pid == target.pid && spec_lookup_address(dir.records@, target.label@, key)
                == Some(t) && t.len() > 0 && all_hex_digits(t) && hex_value(t) <= u64::MAX && 0
                <= i < target.entries@.len() && target.entries@[i].wrapper_addr as nat
                == hex_value(t) ==> ({
                let m = if target_size <= target.entries@[i].data@.len() {
                    target_size as int
                } else {
                    target.entries@[i].data@.len() as int
                };
                if m == 0 {
                    r.0 == 4
                } else {
                    r.0 == 0 && (r.1 matches Some(v) && v@ == target.entries@[i].data@.take(m))
                }
            }),
{
    let (s0, a0) = session_start(key, pid, RemoteOp::Fetch { size: target_size });
    match a0 {
        Action::Stop { status } => (status, None),
        Action::Open { pid: p } => {
            let ok = p == target.pid;
            let (s1, a1) = session_step(s0, Event::Opened { ok });
            match a1 {
                Action::Stop { status } => (status, None),
                Action::QueryName => {
                    let name = copy_bytes(&target.label);
                    let (s2, a2) = session_step(s1, Event::Named { name: Some(name) });
                    match a2 {
                        Action::Resolve { label, key: k2 } => {
                            let text = match dir.lookup_address(&label, k2) {
                                Some(t) => Some(copy_bytes(t)),
                                None => None,
                            };
                            let (s3, a3) = session_step(s2, Event::Resolved { text });
                            match a3 {
                                Action::Stop { status } => (status, None),
                                Action::ReadWrapper { addr } => {
                                    let (bytes, data) = target.read_memory(addr, 8);
                                    proof {
                                        crate::mem_map::lemma_pow256_values();
                                        assert forall|i: int|
                                            0 <= i < target.entries@.len() && (
                                            #[trigger] target.entries@[i]).wrapper_addr
                                            == addr implies bytes == 8 && data@
                                            == crate::mem_map::spec_le_bytes(
                                            target.entries@[i].payload_addr as nat,
                                            8,
                                        ) by {
                                            crate::mem_map::lemma_le_round_trip(
                                                target.entries@[i].payload_addr as nat,
                                                8,
                                            );
                                            assert(crate::mem_map::spec_le_bytes(
                                                target.entries@[i].payload_addr as nat,
                                                8,
                                            ).take(8) =~= crate::mem_map::spec_le_bytes(
                                                target.entries@[i].payload_addr as nat,
                                                8,
                                            ));
                                        }
                                    }
                                    let (s4, a4) = session_step(
                                        s3,
                                        Event::FirstRead { bytes, data },
                                    );
                                    match a4 {
                                        Action::Stop { status } => (status, None),
                                        Action::ReadPayload { addr: paddr, size } => {
                                            proof {
                                                crate::mem_map::lemma_pow256_values();
                                                assert forall|i: int|
                                                    0 <= i < target.entries@.len() && (
                                                    #[trigger] target.entries@[i]).wrapper_addr
                                                    == addr implies paddr
                                                    == target.entries@[i].payload_addr by {
                                                    crate::mem_map::lemma_le_round_trip(
                                                        target.entries@[i].payload_addr as nat,
                                                        8,
                                                    );
                                                }
                                            }
                                            let (bytes2, data2) = target.read_memory(paddr, size);
                                            let (s5, _a5) = session_step(
                                                s4,
                                                Event::SecondRead { bytes: bytes2, data: data2 },
                                            );
                                            match s5.phase {
                                                Phase::Done { status, data: out } => (status, out),
                                                _ => vstd::pervasive::unreached(),
                                            }
                                        },
                                        _ => vstd::pervasive::unreached(),
                                    }
                                },
                                _ => vstd::pervasive::unreached(),
                            }
                        },
                        _ => vstd::pervasive::unreached(),
                    }
                },
                _ => vstd::pervasive::unreached(),
            }
        },
        _ => vstd::pervasive::unreached(),
    }
}

/// Writes the caller's bytes over a remote process's published region for a
/// key, driving the session engine against the model host: the same
/// resolution as a remote read, then an overwrite of the payload's leading
/// bytes, bounded by the region's size. Keys, addresses and region sizes of
/// the target never change; a failure leaves every region's bytes as they
/// were.
pub fn insert_extern(dir: &Directory, target: &mut MemMap, key: u64, pid: u32, source: &Vec<u8>) -> (
    r: u32)
    requires
        dir.wf(),
        old(target).wf(),
    ensures
        final(target).wf(),
        final(target).label@ == old(target).label@,
        final(target).pid == old(target).pid,
        final(target).next_addr == old(target).next_addr,
        final(target).entries@.len() == old(target).entries@.len(),
        forall|j: int|
            0 <= j < old(target).entries@.len() ==> (#[trigger] final(target).entries@[j]).key
                == old(target).entries@[j].key && final(target).entries@[j].wrapper_addr
                == old(target).entries@[j].wrapper_addr && final(target).entries@[j].payload_addr
                == old(target).entries@[j].payload_addr,
        r != 0 ==> forall|j: int|
            0 <= j < old(target).entries@.len() ==> (#[trigger] final(target).entries@[j]).data@
                == old(target).entries@[j].data@,
        key == 0 ==> r == 1,
        key != 0 && pid != old(target).pid ==> r == 3,
        key != 0 && pid == old(target).pid && spec_lookup_address(
            dir.records@,
            old(target).label@,
            key,
        ) is None ==> r == 2,
        forall|t: Seq<u8>|
            key != 0 && pid == old(target).pid && spec_lookup_address(
                dir.records@,
                old(target).label@,
                key,
            ) == Some(t) && !(t.len() > 0 && all_hex_digits(t) && hex_value(t) <= u64::MAX) ==> r
                == 2,
        forall|t: Seq<u8>|
            #![trigger hex_value(t)]
            key != 0 && pid == old(target).pid && spec_lookup_address(
                dir.records@,
                old(target).label@,
                key,
            ) == Some(t) && t.len() > 0 && all_hex_digits(t) && hex_value(t) <= u64::MAX && (
            forall|i: int|
                0 <= i < old(target).entries@.len() ==> (
                #[trigger] old(target).entries@[i]).wrapper_addr as nat != hex_value(t) && old(
                    target,
                ).entries@[i].payload_addr as nat != hex_value(t)) ==> r == 4,
        forall|t: Seq<u8>, i: int|
            #![trigger old(target).entries@[i], hex_value(t)]
            key != 0 && pid == old(target).pid && spec_lookup_address(
                dir.records@,
                old(target).label@,
                key,
            ) == Some(t) && t.len() > 0 && all_hex_digits(t) && hex_value(t) <= u64::MAX && 0 <= i
                < old(target).entries@.len()
                && old(target).entries@[i].wrapper_addr as nat == hex_value(t) ==> ({
                let m = if source@.len() <= old(target).entries@[i].data@.len() {
                    source@.len() as int
                } else {
                    old(target).entries@[i].data@.len() as int
                };
                if m == 0 {
                    r == 4
                } else {
                    r == 0 && final(target).entries@[i].data@ == source@.take(m)
                        + old(target).entries@[i].data@.skip(m) && (forall|j: int|
                        0 <= j < old(target).entries@.len() && j != i
                            ==> (#[trigger] final(target).entries@[j]).data@
                            == old(target).entries@[j].data@)
                }
            }),
{
    let (s0, a0) = session_start(key, pid, RemoteOp::Publish { data: copy_bytes(source) });
    match a0 {
        Action::Stop { status } => status,
        Action::Open { pid: p } => {
            let ok = p == target.pid;
            let (s1, a1) = session_step(s0, Event::Opened { ok });
            match a1 {
                Action::Stop { status } => status,
                Action::QueryName => {
                    let name = copy_bytes(&target.label);
                    let (s2, a2) = session_step(s1, Event::Named { name: Some(name) });
                    match a2 {
                        Action::Resolve { label, key: k2 } => {
                            let text = match dir.lookup_address(&label, k2) {
                                Some(t) => Some(copy_bytes(t)),
                                None => None,
                            };
                            let (s3, a3) = session_step(s2, Event::Resolved { text });
                            match a3 {
                                Action::Stop { status } => status,
                                Action::ReadWrapper { addr } => {
                                    let (bytes, data) = target.read_memory(addr, 8);
                                    proof {
                                        crate::mem_map::lemma_pow256_values();
                                        assert forall|i: int|
                                            0 <= i < target.entries@.len() && (
                                            #[trigger] target.entries@[i]).wrapper_addr
                                            == addr implies bytes == 8 && data@
                                            == crate::mem_map::spec_le_bytes(
                                            target.entries@[i].payload_addr as nat,
                                            8,
                                        ) by {
                                            crate::mem_map::lemma_le_round_trip(
                                                target.entries@[i].payload_addr as nat,
                                                8,
                                            );
                                            assert(crate::mem_map::spec_le_bytes(
                                                target.entries@[i].payload_addr as nat,
                                                8,
                                            ).take(8) =~= crate::mem_map::spec_le_bytes(
                                                target.entries@[i].payload_addr as nat,
                                                8,
                                            ));
                                        }
                                    }
                                    let (s4, a4) = session_step(
                                        s3,
                                        Event::FirstRead { bytes, data },
                                    );
                                    match a4 {
                                        Action::Stop { status } => status,
                                        Action::WritePayload { addr: paddr, data: out } => {
                                            proof {
                                                crate::mem_map::lemma_pow256_values();
                                                assert forall|i: int|
                                                    0 <= i < target.entries@.len() && (
                                                    #[trigger] target.entries@[i]).wrapper_addr
                                                    == addr implies paddr
                                                    == target.entries@[i].payload_addr by {
                                                    crate::mem_map::lemma_le_round_trip(
                                                        target.entries@[i].payload_addr as nat,
                                                        8,
                                                    );
                                                }
                                            }
                                            let n = target.write_memory(paddr, &out);
                                            let (s5, _a5) = session_step(s4, Event::Wrote { bytes: n });
                                            match s5.phase {
                                                Phase::Done { status, data: _ } => status,
                                                _ => vstd::pervasive::unreached(),
                                            }
                                        },
                                        _ => vstd::pervasive::unreached(),
                                    }
                                },
                                _ => vstd::pervasive::unreached(),
                            }
                        },
                        _ => vstd::pervasive::unreached(),
                    }
                },
                _ => vstd::pervasive::unreached(),
            }
        },
        _ => vstd::pervasive::unreached(),
    }
}

} // verus!
