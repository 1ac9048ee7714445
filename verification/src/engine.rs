//! The remote access engine as a session state machine. A remote operation
//! is a fixed sequence of privileged host steps — open a handle to the
//! target process, query its executable name, look the published address up,
//! read the wrapper structure, then transfer the payload — and between the
//! steps, decisions: which step comes next, and which terminal status a
//! failure maps to. The decisions are verified here; the host performs each
//! emitted [`Action`] and answers with an [`Event`]. A terminal action also
//! tells the host to release the handle and every transient buffer.

use vstd::prelude::*;
use crate::hex_addr::{all_hex_digits, hex_value, parse_address};
use crate::mem_map::{spec_le_value, wrapper_from_bytes};
use crate::bytes::copy_bytes;

verus! {

/// What a session is for: fetching bytes out of the target (a bounded read
/// into a fresh buffer) or publishing bytes into it (an overwrite of the
/// remote region).
pub enum RemoteOp {
    /// Read up to `size` bytes of the remote payload.
    Fetch { size: usize },
    /// Write these bytes over the remote payload.
    Publish { data: Vec<u8> },
}

/// Where a session stands: which host answer it waits for, or the terminal
/// status (and, for a successful fetch, the bytes that arrived).
pub enum Phase {
    /// Waiting for the process handle.
    Opening,
    /// Waiting for the target's executable name.
    Naming,
    /// Waiting for the directory lookup.
    Resolving,
    /// Waiting for the wrapper-structure read, the first hop.
    FirstHop,
    /// Waiting for the payload transfer, the second hop.
    SecondHop,
    /// Finished with a terminal status code.
    Done { status: u32, data: Option<Vec<u8>> },
}

/// One remote operation in flight.
pub struct Session {
    /// The key whose published region is addressed.
    pub key: u64,
    /// The target process's id.
    pub pid: u32,
    /// What the session transfers.
    pub op: RemoteOp,
    /// Where the session stands.
    pub phase: Phase,
}

/// What the host must do next.
pub enum Action {
    /// Open a read/write handle to the process.
    Open { pid: u32 },
    /// Query the opened process's executable file name.
    QueryName,
    /// Look the published address text up under the label and key.
    Resolve { label: Vec<u8>, key: u64 },
    /// Read the eight wrapper bytes at the published address.
    ReadWrapper { addr: u64 },
    /// Read up to `size` payload bytes at the resolved address.
    ReadPayload { addr: u64, size: usize },
    /// Write these bytes over the payload at the resolved address.
    WritePayload { addr: u64, data: Vec<u8> },
    /// Release the handle and all transient buffers; the session is over.
    Stop { status: u32 },
}

/// The host's answer to the pending action.
pub enum Event {
    /// Whether the process handle could be opened.
    Opened { ok: bool },
    /// The target's executable file name, when the query produced one.
    Named { name: Option<Vec<u8>> },
    /// The published address text, when the directory held one.
    Resolved { text: Option<Vec<u8>> },
    /// The wrapper read: how many bytes moved, and what arrived.
    FirstRead { bytes: usize, data: Vec<u8> },
    /// The payload read: how many bytes moved, and what arrived.
    SecondRead { bytes: usize, data: Vec<u8> },
    /// The payload write: how many bytes moved.
    Wrote { bytes: usize },
}

/// Whether an event answers the action the session waits for.
pub open spec fn phase_expects(s: Session, e: Event) -> bool {
    match e {
        Event::Opened { .. } => s.phase is Opening,
        Event::Named { .. } => s.phase is Naming,
        Event::Resolved { .. } => s.phase is Resolving,
        Event::FirstRead { .. } => s.phase is FirstHop,
        Event::SecondRead { .. } => s.phase is SecondHop && s.op is Fetch,
        Event::Wrote { .. } => s.phase is SecondHop && s.op is Publish,
    }
}

/// The session ended with this status and no fetched bytes, and the host
/// was told to stop.
pub open spec fn finished(r: (Session, Action), status: u32) -> bool {
    &&& r.0.phase matches Phase::Done { status: st, data: dd } && st == status && dd is None
    &&& r.1 matches Action::Stop { status: st2 } && st2 == status
}

/// Opens a session. A reserved key ends it at once with RestrictedID;
/// otherwise the host is asked for a process handle.
pub fn session_start(key: u64, pid: u32, op: RemoteOp) -> (r: (Session, Action))
    ensures
        r.0.key == key,
        r.0.pid == pid,
        r.0.op == op,
        key == 0 ==> finished(r, 1),
        key != 0 ==> r.0.phase is Opening && (r.1 matches Action::Open { pid: p } && p == pid),
{
    if key == 0 {
        (
            Session { key, pid, op, phase: Phase::Done { status: 1, data: None } },
            Action::Stop { status: 1 },
        )
    } else {
        (Session { key, pid, op, phase: Phase::Opening }, Action::Open { pid })
    }
}

/// Advances a session by one host answer. Every failure is terminal: an
/// unopenable process is InvalidHandle; a missing name, missing or
/// unreadable address text is InvalidID; a transfer that moved no bytes, or
/// a wrapper shorter than its eight bytes, is ReadProcessMemoryFailed. The
/// happy path walks the two hops and ends with status 0, carrying the
/// fetched bytes when the operation was a fetch.
pub fn session_step(s: Session, e: Event) -> (r: (Session, Action))
    requires
        phase_expects(s, e),
    ensures
        r.0.key == s.key,
        r.0.pid == s.pid,
        r.0.op == s.op,
        ({
            let s2 = r.0;
            let act = r.1;
            match e {
                Event::Opened { ok } => {
                    if ok {
                        s2.phase is Naming && act is QueryName
                    } else {
                        finished(r, 3)
                    }
                },
                Event::Named { name } => {
                    match name {
                        Some(n) => s2.phase is Resolving && (act matches Action::Resolve {
                            label,
                            key,
                        } && label@ == n@ && key == s.key),
                        None => finished(r, 2),
                    }
                },
                Event::Resolved { text } => {
                    match text {
                        Some(t) => {
                            if t@.len() > 0 && all_hex_digits(t@) && hex_value(t@) <= u64::MAX {
                                s2.phase is FirstHop && (act matches Action::ReadWrapper { addr }
                                    && addr as nat == hex_value(t@))
                            } else {
                                finished(r, 2)
                            }
                        },
                        None => finished(r, 2),
                    }
                },
                Event::FirstRead { bytes, data } => {
                    if bytes == 0 || data@.len() < 8 {
                        finished(r, 4)
                    } else {
                        s2.phase is SecondHop && (match s.op {
                            RemoteOp::Fetch { size } => act matches Action::ReadPayload {
                                addr,
                                size: sz,
                            } && addr as nat == spec_le_value(data@.take(8)) && sz == size,
                            RemoteOp::Publish { data: src } => act matches Action::WritePayload {
                                addr,
                                data: out,
                            } && addr as nat == spec_le_value(data@.take(8)) && out@ == src@,
                        })
                    }
                },
                Event::SecondRead { bytes, data } => {
                    if bytes == 0 {
                        finished(r, 4)
                    } else {
                        ({
                            &&& s2.phase matches Phase::Done { status: st, data: dd } && st == 0
                                && (dd matches Some(v) && v@ == data@)
                            &&& act matches Action::Stop { status: st2 } && st2 == 0
                        })
                    }
                },
                Event::Wrote { bytes } => {
                    if bytes == 0 {
                        finished(r, 4)
                    } else {
                        finished(r, 0)
                    }
                },
            }
        }),
{
    let Session { key, pid, op, phase } = s;
    match e {
        Event::Opened { ok } => {
            if ok {
                (Session { key, pid, op, phase: Phase::Naming }, Action::QueryName)
            } else {
                (
                    Session { key, pid, op, phase: Phase::Done { status: 3, data: None } },
                    Action::Stop { status: 3 },
                )
            }
        },
        Event::Named { name } => {
            match name {
                Some(n) => (
                    Session { key, pid, op, phase: Phase::Resolving },
                    Action::Resolve { label: n, key },
                ),
                None => (
                    Session { key, pid, op, phase: Phase::Done { status: 2, data: None } },
                    Action::Stop { status: 2 },
                ),
            }
        },
        Event::Resolved { text } => {
            match text {
                Some(t) => {
                    match parse_address(&t) {
                        Some(addr) => (
                            Session { key, pid, op, phase: Phase::FirstHop },
                            Action::ReadWrapper { addr },
                        ),
                        None => (
                            Session {
                                key,
                                pid,
                                op,
                                phase: Phase::Done { status: 2, data: None },
                            },
                            Action::Stop { status: 2 },
                        ),
                    }
                },
                None => (
                    Session { key, pid, op, phase: Phase::Done { status: 2, data: None } },
                    Action::Stop { status: 2 },
                ),
            }
        },
        Event::FirstRead { bytes, data } => {
            if bytes == 0 {
                return (
                    Session { key, pid, op, phase: Phase::Done { status: 4, data: None } },
                    Action::Stop { status: 4 },
                );
            }
            proof {
                if data@.len() >= 8 {
                    crate::mem_map::lemma_pow256_values();
                    crate::mem_map::lemma_le_value_bound(data@.take(8));
                }
            }
            match wrapper_from_bytes(&data) {
                None => (
                    Session { key, pid, op, phase: Phase::Done { status: 4, data: None } },
                    Action::Stop { status: 4 },
                ),
                Some(w) => {
                    let act = match &op {
                        RemoteOp::Fetch { size } => Action::ReadPayload {
                            addr: w.ptr,
                            size: *size,
                        },
                        RemoteOp::Publish { data: src } => Action::WritePayload {
                            addr: w.ptr,
                            data: copy_bytes(src),
                        },
                    };
                    (Session { key, pid, op, phase: Phase::SecondHop }, act)
                },
            }
        },
        Event::SecondRead { bytes, data } => {
            if bytes == 0 {
                (
                    Session { key, pid, op, phase: Phase::Done { status: 4, data: None } },
                    Action::Stop { status: 4 },
                )
            } else {
                (
                    Session {
                        key,
                        pid,
                        op,
                        phase: Phase::Done { status: 0, data: Some(data) },
                    },
                    Action::Stop { status: 0 },
                )
            }
        },
        Event::Wrote { bytes } => {
            if bytes == 0 {
                (
                    Session { key, pid, op, phase: Phase::Done { status: 4, data: None } },
                    Action::Stop { status: 4 },
                )
            } else {
                (
                    Session { key, pid, op, phase: Phase::Done { status: 0, data: None } },
                    Action::Stop { status: 0 },
                )
            }
        },
    }
}

} // verus!
