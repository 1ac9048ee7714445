//! The address directory: the system-wide persistent key-value namespace that
//! mediates address discovery between processes. Its top level holds one
//! record per identity label (the publishing executable's file name) with the
//! owner's last registered process id; nested under each label, one record
//! per key with the published address text. This module verifies the
//! directory's logic over an explicit record list; the host persists the same
//! state in whatever process-external store it has.

use vstd::prelude::*;

verus! {

/// A published address record: a key and the bare hexadecimal address text
/// stored under it.
pub struct AddrEntry {
    /// The caller-chosen key the address was published under.
    pub key: u64,
    /// The bare hexadecimal text of the published address.
    pub text: Vec<u8>,
}

/// A process identity record: a label, the owner's last registered process
/// id (absent when only addresses were ever written under the label), and
/// the addresses published under the label.
pub struct IdentRecord {
    /// The identity label, the owning executable's file name.
    pub label: Vec<u8>,
    /// The process id recorded at the owner's last initialization.
    pub pid: Option<u32>,
    /// The addresses published under this identity.
    pub entries: Vec<AddrEntry>,
}

/// The directory itself: every identity record ever created, in creation
/// order. Records persist; nothing garbage-collects stale ones.
pub struct Directory {
    /// The identity records, oldest first.
    pub records: Vec<IdentRecord>,
}

/// Index of the first address record with a key, or -1 when none has it.
pub open spec fn entry_index(s: Seq<AddrEntry>, key: u64) -> int
    decreases s.len(),
{
    if s.len() == 0 {
        -1
    } else if s[0].key == key {
        0
    } else {
        let r = entry_index(s.skip(1), key);
        if r < 0 {
            -1
        } else {
            r + 1
        }
    }
}

/// Index of the first identity record with a label, or -1 when none has it.
pub open spec fn record_index(s: Seq<IdentRecord>, label: Seq<u8>) -> int
    decreases s.len(),
{
    if s.len() == 0 {
        -1
    } else if s[0].label@ == label {
        0
    } else {
        let r = record_index(s.skip(1), label);
        if r < 0 {
            -1
        } else {
            r + 1
        }
    }
}

/// Index of the first identity record registered to a process id, or -1.
pub open spec fn pid_index(s: Seq<IdentRecord>, pid: u32) -> int
    decreases s.len(),
{
    if s.len() == 0 {
        -1
    } else if s[0].pid == Some(pid) {
        0
    } else {
        let r = pid_index(s.skip(1), pid);
        if r < 0 {
            -1
        } else {
            r + 1
        }
    }
}

/// The address text stored under a key, if any.
pub open spec fn spec_entry_text(s: Seq<AddrEntry>, key: u64) -> Option<Seq<u8>> {
    let r = entry_index(s, key);
    if r < 0 {
        None
    } else {
        Some(s[r].text@)
    }
}

/// The process id registered under a label, if any.
pub open spec fn spec_lookup_pid(s: Seq<IdentRecord>, label: Seq<u8>) -> Option<u32> {
    let r = record_index(s, label);
    if r < 0 {
        None
    } else {
        s[r].pid
    }
}

/// The address text published under a label and key, if any.
pub open spec fn spec_lookup_address(s: Seq<IdentRecord>, label: Seq<u8>, key: u64) -> Option<
    Seq<u8>,
> {
    let r = record_index(s, label);
    if r < 0 {
        None
    } else {
        spec_entry_text(s[r].entries@, key)
    }
}

/// The label of the first record registered to a process id, if any. Stale
/// records are indistinguishable from live ones: the scan answers with the
/// first textual match, exactly as a reader of the persistent store would.
pub open spec fn spec_first_label_with_pid(s: Seq<IdentRecord>, pid: u32) -> Option<Seq<u8>> {
    let r = pid_index(s, pid);
    if r < 0 {
        None
    } else {
        Some(s[r].label@)
    }
}

/// What `entry_index` finds: the first record with the key, and -1 exactly
/// when no record has it.
pub proof fn lemma_entry_index(s: Seq<AddrEntry>, key: u64)
    ensures
        ({
            let r = entry_index(s, key);
            &&& r < 0 ==> r == -1 && (forall|i: int| 0 <= i < s.len() ==> s[i].key != key)
            &&& r >= 0 ==> 0 <= r < s.len() && s[r].key == key && (forall|i: int|
                0 <= i < r ==> s[i].key != key)
        }),
    decreases s.len(),
{
    if s.len() == 0 {
    } else if s[0].key == key {
    } else {
        lemma_entry_index(s.skip(1), key);
        let r1 = entry_index(s.skip(1), key);
        if r1 < 0 {
            assert forall|i: int| 0 <= i < s.len() implies s[i].key != key by {
                if i >= 1 {
                    assert(s.skip(1)[i - 1] == s[i]);
                }
            }
        } else {
            assert(s.skip(1)[r1] == s[r1 + 1]);
            assert forall|i: int| 0 <= i < r1 + 1 implies s[i].key != key by {
                if i >= 1 {
                    assert(s.skip(1)[i - 1] == s[i]);
                }
            }
        }
    }
}

/// What `record_index` finds: the first record with the label, and -1
/// exactly when no record has it.
pub proof fn lemma_record_index(s: Seq<IdentRecord>, label: Seq<u8>)
    ensures
        ({
            let r = record_index(s, label);
            &&& r < 0 ==> r == -1 && (forall|i: int| 0 <= i < s.len() ==> s[i].label@ != label)
            &&& r >= 0 ==> 0 <= r < s.len() && s[r].label@ == label && (forall|i: int|
                0 <= i < r ==> s[i].label@ != label)
        }),
    decreases s.len(),
{
    if s.len() == 0 {
    } else if s[0].label@ == label {
    } else {
        lemma_record_index(s.skip(1), label);
        let r1 = record_index(s.skip(1), label);
        if r1 < 0 {
            assert forall|i: int| 0 <= i < s.len() implies s[i].label@ != label by {
                if i >= 1 {
                    assert(s.skip(1)[i - 1] == s[i]);
                }
            }
        } else {
            assert(s.skip(1)[r1] == s[r1 + 1]);
            assert forall|i: int| 0 <= i < r1 + 1 implies s[i].label@ != label by {
                if i >= 1 {
                    assert(s.skip(1)[i - 1] == s[i]);
                }
            }
        }
    }
}

/// What `pid_index` finds: the first record registered to the process id,
/// and -1 exactly when none is.
pub proof fn lemma_pid_index(s: Seq<IdentRecord>, pid: u32)
    ensures
        ({
            let r = pid_index(s, pid);
            &&& r < 0 ==> r == -1 && (forall|i: int| 0 <= i < s.len() ==> s[i].pid != Some(pid))
            &&& r >= 0 ==> 0 <= r < s.len() && s[r].pid == Some(pid) && (forall|i: int|
                0 <= i < r ==> s[i].pid != Some(pid))
        }),
    decreases s.len(),
{
    if s.len() == 0 {
    } else if s[0].pid == Some(pid) {
    } else {
        lemma_pid_index(s.skip(1), pid);
        let r1 = pid_index(s.skip(1), pid);
        if r1 < 0 {
            assert forall|i: int| 0 <= i < s.len() implies s[i].pid != Some(pid) by {
                if i >= 1 {
                    assert(s.skip(1)[i - 1] == s[i]);
                }
            }
        } else {
            assert(s.skip(1)[r1] == s[r1 + 1]);
            assert forall|i: int| 0 <= i < r1 + 1 implies s[i].pid != Some(pid) by {
                if i >= 1 {
                    assert(s.skip(1)[i - 1] == s[i]);
                }
            }
        }
    }
}

/// No two address records of one identity share a key.
pub open spec fn entries_wf(s: Seq<AddrEntry>) -> bool {
    forall|i: int, j: int| 0 <= i < j < s.len() ==> s[i].key != s[j].key
}

impl Directory {
    /// Well-formedness: labels are unique, and each identity's address
    /// records carry unique keys.
    pub open spec fn wf(&self) -> bool {
        &&& forall|i: int, j: int|
            0 <= i < j < self.records@.len() ==> self.records@[i].label@
                != self.records@[j].label@
        &&& forall|i: int|
            0 <= i < self.records@.len() ==> entries_wf(#[trigger] self.records@[i].entries@)
    }

    /// An empty directory, the state before any process ever initialized.
    pub fn new() -> (d: Directory)
        ensures
            d.wf(),
            d.records@.len() == 0,
    {
        Directory { records: Vec::new() }
    }

    /// Finds the record of a label, reporting its index.
    fn find_record(&self, label: &Vec<u8>) -> (r: Option<usize>)
        ensures
            match r {
                Some(i) => i < self.records@.len() && record_index(self.records@, label@)
                    == i as int,
                None => record_index(self.records@, label@) == -1,
            },
    {
        let n = self.records.len();
        let mut i: usize = 0;
        while i < n
            invariant
                n == self.records@.len(),
                0 <= i <= n,
                forall|j: int| 0 <= j < i ==> self.records@[j].label@ != label@,
            decreases n - i,
        {
            if crate::bytes::bytes_eq(&self.records[i].label, label) {
                proof {
                    lemma_record_index(self.records@, label@);
                }
                return Some(i);
            }
            i = i + 1;
        }
        proof {
            lemma_record_index(self.records@, label@);
        }
        None
    }

    /// Registers an identity: records the process id under the label,
    /// creating the record when the label is new. Published addresses are
    /// untouched; a re-registration simply overwrites the recorded id.
    pub fn register(&mut self, label: &Vec<u8>, pid: u32)
        requires
            old(self).wf(),
        ensures
            final(self).wf(),
            spec_lookup_pid(final(self).records@, label@) == Some(pid),
            forall|l: Seq<u8>|
                l != label@ ==> spec_lookup_pid(final(self).records@, l) == spec_lookup_pid(
                    old(self).records@,
                    l,
                ),
            forall|l: Seq<u8>, k: u64|
                spec_lookup_address(final(self).records@, l, k) == spec_lookup_address(
                    old(self).records@,
                    l,
                    k,
                ),
    {
        let ghost a = self.records@;
        match self.find_record(label) {
            Some(i) => {
                proof {
                    lemma_record_index(a, label@);
                }
                let mut rec = self.records.remove(i);
                rec.pid = Some(pid);
                self.records.insert(i, rec);
                let ghost b = self.records@;
                proof {
                    assert(b =~= a.update(i as int, b[i as int]));
                    assert(b[i as int].label@ == a[i as int].label@);
                    assert(b[i as int].pid == Some(pid));
                    assert(b[i as int].entries@ == a[i as int].entries@);
                    assert(forall|j: int| 0 <= j < b.len() ==> b[j].label@ == a[j].label@);
                    assert(forall|j: int| 0 <= j < b.len() ==> b[j].entries@ == a[j].entries@);
                    lemma_record_index_same(a, b, label@);
                    assert forall|l: Seq<u8>|
                        l != label@ implies spec_lookup_pid(b, l) == spec_lookup_pid(a, l) by {
                        lemma_record_index_same(a, b, l);
                        lemma_record_index(a, l);
                    }
                    assert forall|l: Seq<u8>, k: u64|
                        spec_lookup_address(b, l, k) == spec_lookup_address(a, l, k) by {
                        lemma_record_index_same(a, b, l);
                        lemma_record_index(a, l);
                        if record_index(a, l) >= 0 {
                            assert(b[record_index(a, l)].entries@ == a[record_index(
                                a,
                                l,
                            )].entries@);
                        }
                    }
                }
            },
            None => {
                proof {
                    lemma_record_index(a, label@);
                }
                let lab = crate::bytes::copy_bytes(label);
                self.records.push(
                    IdentRecord { label: lab, pid: Some(pid), entries: Vec::new() },
                );
                let ghost b = self.records@;
                let ghost rec = b[a.len() as int];
                proof {
                    assert(b =~= a.push(rec));
                    assert(rec.label@ == label@);
                    assert(rec.pid == Some(pid));
                    assert(rec.entries@ == Seq::<AddrEntry>::empty());
                    assert(forall|j: int| 0 <= j < a.len() ==> b[j] == a[j]);
                    lemma_record_index_push(a, rec, label@);
                    assert(spec_lookup_pid(b, label@) == Some(pid));
                    assert forall|l: Seq<u8>|
                        l != label@ implies spec_lookup_pid(b, l) == spec_lookup_pid(a, l) by {
                        lemma_record_index_push(a, rec, l);
                        lemma_record_index(a, l);
                    }
                    assert forall|l: Seq<u8>, k: u64|
                        spec_lookup_address(b, l, k) == spec_lookup_address(a, l, k) by {
                        lemma_record_index_push(a, rec, l);
                        lemma_record_index(a, l);
                        if l == label@ {
                            assert(entry_index(rec.entries@, k) == -1);
                        }
                    }
                }
            },
        }
    }

    /// Clears an identity's published addresses, creating the record (with
    /// no registered process id) when the label is new. Initialization runs
    /// this so a fresh process starts with an empty namespace.
    pub fn clear_space(&mut self, label: &Vec<u8>)
        requires
            old(self).wf(),
        ensures
            final(self).wf(),
            forall|k: u64|
                spec_lookup_address(final(self).records@, label@, k) is None,
            forall|l: Seq<u8>, k: u64|
                l != label@ ==> spec_lookup_address(final(self).records@, l, k)
                    == spec_lookup_address(old(self).records@, l, k),
            forall|l: Seq<u8>|
                spec_lookup_pid(final(self).records@, l) == spec_lookup_pid(old(self).records@, l),
            forall|p: u32|
                spec_first_label_with_pid(final(self).records@, p) == spec_first_label_with_pid(
                    old(self).records@,
                    p,
                ),
    {
        let ghost a = self.records@;
        match self.find_record(label) {
            Some(i) => {
                proof {
                    lemma_record_index(a, label@);
                }
                let mut rec = self.records.remove(i);
                rec.entries = Vec::new();
                self.records.insert(i, rec);
                let ghost b = self.records@;
                proof {
                    assert(b =~= a.update(i as int, b[i as int]));
                    assert(b[i as int].label@ == a[i as int].label@);
                    assert(b[i as int].pid == a[i as int].pid);
                    assert(b[i as int].entries@ == Seq::<AddrEntry>::empty());
                    assert(forall|j: int| 0 <= j < b.len() ==> b[j].label@ == a[j].label@);
                    assert(forall|j: int| 0 <= j < b.len() ==> b[j].pid == a[j].pid);
                    lemma_record_index_same(a, b, label@);
                    assert forall|k: u64| spec_lookup_address(b, label@, k) is None by {
                        assert(entry_index(b[i as int].entries@, k) == -1);
                    }
                    assert forall|l: Seq<u8>, k: u64|
                        l != label@ implies spec_lookup_address(b, l, k) == spec_lookup_address(
                        a,
                        l,
                        k,
                    ) by {
                        lemma_record_index_same(a, b, l);
                        lemma_record_index(a, l);
                        if record_index(a, l) >= 0 {
                            assert(b[record_index(a, l)].entries@ == a[record_index(
                                a,
                                l,
                            )].entries@);
                        }
                    }
                    assert forall|l: Seq<u8>|
                        spec_lookup_pid(b, l) == spec_lookup_pid(a, l) by {
                        lemma_record_index_same(a, b, l);
                        lemma_record_index(a, l);
                    }
                    assert forall|p: u32|
                        spec_first_label_with_pid(b, p) == spec_first_label_with_pid(a, p) by {
                        lemma_pid_index_same(a, b, p);
                        lemma_pid_index(a, p);
                    }
                }
            },
            None => {
                proof {
                    lemma_record_index(a, label@);
                }
                let lab = crate::bytes::copy_bytes(label);
                self.records.push(IdentRecord { label: lab, pid: None, entries: Vec::new() });
                let ghost b = self.records@;
                let ghost rec = b[a.len() as int];
                proof {
                    assert(b =~= a.push(rec));
                    assert(rec.label@ == label@);
                    assert(rec.pid is None);
                    assert(rec.entries@ == Seq::<AddrEntry>::empty());
                    assert(forall|j: int| 0 <= j < a.len() ==> b[j] == a[j]);
                    lemma_record_index_push(a, rec, label@);
                    assert forall|k: u64| spec_lookup_address(b, label@, k) is None by {
                        assert(entry_index(rec.entries@, k) == -1);
                    }
                    assert forall|l: Seq<u8>, k: u64|
                        l != label@ implies spec_lookup_address(b, l, k) == spec_lookup_address(
                        a,
                        l,
                        k,
                    ) by {
                        lemma_record_index_push(a, rec, l);
                        lemma_record_index(a, l);
                    }
                    assert forall|l: Seq<u8>|
                        spec_lookup_pid(b, l) == spec_lookup_pid(a, l) by {
                        lemma_record_index_push(a, rec, l);
                        lemma_record_index(a, l);
                        if l == label@ {
                            assert(spec_lookup_pid(a, l) is None);
                            assert(spec_lookup_pid(b, l) is None);
                        }
                    }
                    assert forall|p: u32|
                        spec_first_label_with_pid(b, p) == spec_first_label_with_pid(a, p) by {
                        lemma_pid_index_push_unregistered(a, rec, p);
                        lemma_pid_index(a, p);
                    }
                }
            },
        }
    }

    /// Publishes an address: stores the text under the label and key,
    /// overwriting any earlier text under the same pair and creating the
    /// identity record (with no registered process id) when the label is
    /// new. The model store is always writable, so this always succeeds; a
    /// host whose persistent store rejects the write reports that failure
    /// itself.
    pub fn save_address(&mut self, label: &Vec<u8>, key: u64, text: Vec<u8>) -> (r: bool)
        requires
            old(self).wf(),
        ensures
            final(self).wf(),
            r == true,
            spec_lookup_address(final(self).records@, label@, key) == Some(text@),
            forall|l: Seq<u8>, k: u64|
                l != label@ || k != key ==> spec_lookup_address(final(self).records@, l, k)
                    == spec_lookup_address(old(self).records@, l, k),
            forall|l: Seq<u8>|
                spec_lookup_pid(final(self).records@, l) == spec_lookup_pid(old(self).records@, l),
            forall|p: u32|
                spec_first_label_with_pid(final(self).records@, p) == spec_first_label_with_pid(
                    old(self).records@,
                    p,
                ),
    {
        let ghost a = self.records@;
        match self.find_record(label) {
            Some(i) => {
                proof {
                    lemma_record_index(a, label@);
                }
                let mut rec = self.records.remove(i);
                let ghost ents = rec.entries@;
                match find_entry(&rec.entries, key) {
                    Some(e) => {
                        proof {
                            lemma_entry_index(ents, key);
                        }
                        rec.entries.remove(e);
                        rec.entries.insert(e, AddrEntry { key, text });
                        proof {
                            assert(rec.entries@ =~= ents.update(e as int, rec.entries@[e as int]));
                        }
                    },
                    None => {
                        proof {
                            lemma_entry_index(ents, key);
                        }
                        rec.entries.push(AddrEntry { key, text });
                    },
                }
                let ghost ents2 = rec.entries@;
                proof {
                    assert forall|k: u64|
                        k != key implies spec_entry_text(ents2, k) == spec_entry_text(
                        ents,
                        k,
                    ) by {
                        if entry_index(ents, key) >= 0 {
                            assert(forall|j: int|
                                0 <= j < ents.len() ==> ents2[j].key == ents[j].key);
                            lemma_entry_index_same(ents, ents2, k);
                            lemma_entry_index(ents, k);
                            if entry_index(ents, k) >= 0 {
                                assert(ents[entry_index(ents, k)].key == k);
                                assert(entry_index(ents, k) != entry_index(ents, key));
                            }
                        } else {
                            assert(forall|j: int| 0 <= j < ents.len() ==> ents2[j] == ents[j]);
                            lemma_entry_index_push(ents, ents2[ents.len() as int], k);
                            lemma_entry_index(ents, k);
                        }
                    }
                    assert(spec_entry_text(ents2, key) == Some(text@)) by {
                        if entry_index(ents, key) >= 0 {
                            let e = entry_index(ents, key);
                            assert(forall|j: int|
                                0 <= j < ents.len() ==> ents2[j].key == ents[j].key);
                            lemma_entry_index_same(ents, ents2, key);
                            assert(ents2[e].text@ == text@);
                        } else {
                            lemma_entry_index_push(ents, ents2[ents.len() as int], key);
                            assert(ents2[ents.len() as int].key == key);
                            assert(ents2[ents.len() as int].text@ == text@);
                        }
                    }
                    assert(entries_wf(ents2)) by {
                        if entry_index(ents, key) >= 0 {
                            assert(forall|j: int|
                                0 <= j < ents.len() ==> ents2[j].key == ents[j].key);
                        } else {
                            lemma_entry_index(ents, key);
                            assert forall|x: int, y: int|
                                0 <= x < y < ents2.len() implies ents2[x].key != ents2[y].key by {
                                if y == ents.len() {
                                    assert(ents2[x] == ents[x]);
                                    assert(ents2[y].key == key);
                                } else {
                                    assert(ents2[x] == ents[x]);
                                    assert(ents2[y] == ents[y]);
                                }
                            }
                        }
                    }
                }
                self.records.insert(i, rec);
                let ghost b = self.records@;
                proof {
                    assert(b =~= a.update(i as int, b[i as int]));
                    assert(b[i as int].label@ == a[i as int].label@);
                    assert(b[i as int].pid == a[i as int].pid);
                    assert(b[i as int].entries@ == ents2);
                    assert(forall|j: int| 0 <= j < b.len() ==> b[j].label@ == a[j].label@);
                    assert(forall|j: int| 0 <= j < b.len() ==> b[j].pid == a[j].pid);
                    lemma_record_index_same(a, b, label@);
                    assert forall|l: Seq<u8>, k: u64|
                        l != label@ || k != key implies spec_lookup_address(b, l, k)
                        == spec_lookup_address(a, l, k) by {
                        lemma_record_index_same(a, b, l);
                        lemma_record_index(a, l);
                        if record_index(a, l) >= 0 && record_index(a, l) != i {
                            assert(b[record_index(a, l)].entries@ == a[record_index(
                                a,
                                l,
                            )].entries@);
                        }
                    }
                    assert forall|l: Seq<u8>|
                        spec_lookup_pid(b, l) == spec_lookup_pid(a, l) by {
                        lemma_record_index_same(a, b, l);
                        lemma_record_index(a, l);
                    }
                    assert forall|p: u32|
                        spec_first_label_with_pid(b, p) == spec_first_label_with_pid(a, p) by {
                        lemma_pid_index_same(a, b, p);
                        lemma_pid_index(a, p);
                    }
                }
                true
            },
            None => {
                proof {
                    lemma_record_index(a, label@);
                }
                let lab = crate::bytes::copy_bytes(label);
                let mut ents_vec: Vec<AddrEntry> = Vec::new();
                ents_vec.push(AddrEntry { key, text });
                self.records.push(IdentRecord { label: lab, pid: None, entries: ents_vec });
                let ghost b = self.records@;
                let ghost rec = b[a.len() as int];
                proof {
                    assert(b =~= a.push(rec));
                    assert(rec.label@ == label@);
                    assert(rec.pid is None);
                    assert(rec.entries@.len() == 1);
                    assert(rec.entries@[0].key == key);
                    assert(rec.entries@[0].text@ == text@);
                    assert(forall|j: int| 0 <= j < a.len() ==> b[j] == a[j]);
                    lemma_record_index_push(a, rec, label@);
                    assert(entry_index(rec.entries@, key) == 0);
                    assert forall|l: Seq<u8>, k: u64|
                        l != label@ || k != key implies spec_lookup_address(b, l, k)
                        == spec_lookup_address(a, l, k) by {
                        lemma_record_index_push(a, rec, l);
                        lemma_record_index(a, l);
                        if l == label@ && k != key {
                            assert(rec.entries@.skip(1).len() == 0);
                            assert(entry_index(rec.entries@.skip(1), k) == -1);
                            assert(entry_index(rec.entries@, k) == -1);
                        }
                    }
                    assert forall|l: Seq<u8>|
                        spec_lookup_pid(b, l) == spec_lookup_pid(a, l) by {
                        lemma_record_index_push(a, rec, l);
                        lemma_record_index(a, l);
                    }
                    assert forall|p: u32|
                        spec_first_label_with_pid(b, p) == spec_first_label_with_pid(a, p) by {
                        lemma_pid_index_push_unregistered(a, rec, p);
                        lemma_pid_index(a, p);
                    }
                }
                true
            },
        }
    }

    /// Withdraws a published address: after this, nothing is stored under
    /// the label and key. Removing an address that was never published, or
    /// whose identity record is unknown, changes nothing.
    pub fn delete_address(&mut self, label: &Vec<u8>, key: u64)
        requires
            old(self).wf(),
        ensures
            final(self).wf(),
            spec_lookup_address(final(self).records@, label@, key) is None,
            forall|l: Seq<u8>, k: u64|
                l != label@ || k != key ==> spec_lookup_address(final(self).records@, l, k)
                    == spec_lookup_address(old(self).records@, l, k),
            forall|l: Seq<u8>|
                spec_lookup_pid(final(self).records@, l) == spec_lookup_pid(old(self).records@, l),
            forall|p: u32|
                spec_first_label_with_pid(final(self).records@, p) == spec_first_label_with_pid(
                    old(self).records@,
                    p,
                ),
    {
        let ghost a = self.records@;
        match self.find_record(label) {
            None => {
                proof {
                    lemma_record_index(a, label@);
                }
            },
            Some(i) => {
                proof {
                    lemma_record_index(a, label@);
                }
                let mut rec = self.records.remove(i);
                let ghost ents = rec.entries@;
                match find_entry(&rec.entries, key) {
                    None => {
                        proof {
                            lemma_entry_index(ents, key);
                        }
                    },
                    Some(e) => {
                        proof {
                            lemma_entry_index(ents, key);
                        }
                        rec.entries.remove(e);
                        proof {
                            lemma_entry_remove(ents, e as int);
                            assert(ents[e as int].key == key);
                        }
                    },
                }
                let ghost ents2 = rec.entries@;
                self.records.insert(i, rec);
                let ghost b = self.records@;
                proof {
                    assert(b =~= a.update(i as int, b[i as int]));
                    assert(b[i as int].label@ == a[i as int].label@);
                    assert(b[i as int].pid == a[i as int].pid);
                    assert(b[i as int].entries@ == ents2);
                    assert(entry_index(ents2, key) == -1);
                    assert(forall|k: u64|
                        k != key ==> spec_entry_text(ents2, k) == spec_entry_text(ents, k));
                    assert(forall|j: int| 0 <= j < b.len() ==> b[j].label@ == a[j].label@);
                    assert(forall|j: int| 0 <= j < b.len() ==> b[j].pid == a[j].pid);
                    lemma_record_index_same(a, b, label@);
                    assert forall|l: Seq<u8>, k: u64|
                        l != label@ || k != key implies spec_lookup_address(b, l, k)
                        == spec_lookup_address(a, l, k) by {
                        lemma_record_index_same(a, b, l);
                        lemma_record_index(a, l);
                        if record_index(a, l) >= 0 && record_index(a, l) != i {
                            assert(b[record_index(a, l)].entries@ == a[record_index(
                                a,
                                l,
                            )].entries@);
                        }
                    }
                    assert forall|l: Seq<u8>|
                        spec_lookup_pid(b, l) == spec_lookup_pid(a, l) by {
                        lemma_record_index_same(a, b, l);
                        lemma_record_index(a, l);
                    }
                    assert forall|p: u32|
                        spec_first_label_with_pid(b, p) == spec_first_label_with_pid(a, p) by {
                        lemma_pid_index_same(a, b, p);
                        lemma_pid_index(a, p);
                    }
                }
            },
        }
    }

    /// Looks up the address text published under a label and key. Absent
    /// namespaces and absent keys read the same way: no text.
    pub fn lookup_address(&self, label: &Vec<u8>, key: u64) -> (r: Option<&Vec<u8>>)
        ensures
            match r {
                Some(t) => spec_lookup_address(self.records@, label@, key) == Some(t@),
                None => spec_lookup_address(self.records@, label@, key) is None,
            },
    {
        match self.find_record(label) {
            None => None,
            Some(i) => {
                let rec = &self.records[i];
                match find_entry(&rec.entries, key) {
                    None => None,
                    Some(e) => Some(&rec.entries[e].text),
                }
            },
        }
    }

    /// Scans the registered identities for the first whose recorded process
    /// id equals the queried one, answering with its label. Stale entries
    /// are indistinguishable from live ones.
    pub fn find_identity_by_pid(&self, pid: u32) -> (r: Option<&Vec<u8>>)
        ensures
            match r {
                Some(l) => spec_first_label_with_pid(self.records@, pid) == Some(l@),
                None => spec_first_label_with_pid(self.records@, pid) is None,
            },
    {
        let n = self.records.len();
        let mut i: usize = 0;
        while i < n
            invariant
                n == self.records@.len(),
                0 <= i <= n,
                forall|j: int| 0 <= j < i ==> self.records@[j].pid != Some(pid),
            decreases n - i,
        {
            let matched = match self.records[i].pid {
                Some(p) => p == pid,
                None => false,
            };
            if matched {
                proof {
                    lemma_pid_index(self.records@, pid);
                }
                return Some(&self.records[i].label);
            }
            i = i + 1;
        }
        proof {
            lemma_pid_index(self.records@, pid);
        }
        None
    }
}

/// Two record lists with the same labels position by position agree on
/// where any label first occurs.
proof fn lemma_record_index_same(a: Seq<IdentRecord>, b: Seq<IdentRecord>, label: Seq<u8>)
    requires
        a.len() == b.len(),
        forall|i: int| 0 <= i < a.len() ==> a[i].label@ == b[i].label@,
    ensures
        record_index(a, label) == record_index(b, label),
{
    lemma_record_index(a, label);
    lemma_record_index(b, label);
    let ra = record_index(a, label);
    let rb = record_index(b, label);
    if ra >= 0 && rb >= 0 {
        if ra < rb {
            assert(b[ra].label@ == a[ra].label@);
        } else if rb < ra {
            assert(a[rb].label@ == b[rb].label@);
        }
    } else if ra >= 0 {
        assert(b[ra].label@ == a[ra].label@);
    } else if rb >= 0 {
        assert(a[rb].label@ == b[rb].label@);
    }
}

/// Appending a record moves no earlier label and puts a fresh label last.
proof fn lemma_record_index_push(a: Seq<IdentRecord>, rec: IdentRecord, label: Seq<u8>)
    ensures
        record_index(a.push(rec), label) == if record_index(a, label) >= 0 {
            record_index(a, label)
        } else if rec.label@ == label {
            a.len() as int
        } else {
            -1
        },
{
    lemma_record_index(a, label);
    lemma_record_index(a.push(rec), label);
    let b = a.push(rec);
    let ra = record_index(a, label);
    let rb = record_index(b, label);
    assert(forall|i: int| 0 <= i < a.len() ==> b[i] == a[i]);
    assert(b[a.len() as int] == rec);
    if ra >= 0 {
        if rb < 0 {
            assert(b[ra].label@ == label);
        } else if ra < rb {
            assert(b[ra].label@ == label);
        } else if rb < ra {
            assert(a[rb].label@ == label);
        }
    } else {
        if rec.label@ == label {
            if rb < 0 {
                assert(b[a.len() as int].label@ == label);
            } else if rb < a.len() {
                assert(a[rb].label@ == label);
            }
        } else {
            if rb >= 0 {
                if rb < a.len() {
                    assert(a[rb].label@ == label);
                } else {
                    assert(b[rb] == rec);
                }
            }
        }
    }
}

/// Two record lists with the same process ids position by position agree on
/// where any process id first occurs.
proof fn lemma_pid_index_same(a: Seq<IdentRecord>, b: Seq<IdentRecord>, pid: u32)
    requires
        a.len() == b.len(),
        forall|i: int| 0 <= i < a.len() ==> a[i].pid == b[i].pid,
    ensures
        pid_index(a, pid) == pid_index(b, pid),
{
    lemma_pid_index(a, pid);
    lemma_pid_index(b, pid);
    let ra = pid_index(a, pid);
    let rb = pid_index(b, pid);
    if ra >= 0 && rb >= 0 {
        if ra < rb {
            assert(b[ra].pid == a[ra].pid);
        } else if rb < ra {
            assert(a[rb].pid == b[rb].pid);
        }
    } else if ra >= 0 {
        assert(b[ra].pid == a[ra].pid);
    } else if rb >= 0 {
        assert(a[rb].pid == b[rb].pid);
    }
}

/// Appending a record with no registered process id leaves every process-id
/// scan as it was.
proof fn lemma_pid_index_push_unregistered(a: Seq<IdentRecord>, rec: IdentRecord, pid: u32)
    requires
        rec.pid is None,
    ensures
        pid_index(a.push(rec), pid) == pid_index(a, pid),
{
    lemma_pid_index(a, pid);
    lemma_pid_index(a.push(rec), pid);
    let b = a.push(rec);
    let ra = pid_index(a, pid);
    let rb = pid_index(b, pid);
    assert(forall|i: int| 0 <= i < a.len() ==> b[i] == a[i]);
    assert(b[a.len() as int] == rec);
    if ra >= 0 {
        if rb < 0 {
            assert(b[ra].pid == Some(pid));
        } else if ra < rb {
            assert(b[ra].pid == Some(pid));
        } else if rb < ra {
            assert(a[rb].pid == Some(pid));
        }
    } else {
        if rb >= 0 {
            if rb < a.len() {
                assert(a[rb].pid == Some(pid));
            } else {
                assert(b[rb] == rec);
            }
        }
    }
}

/// Two address lists with the same keys position by position agree on where
/// any key first occurs.
proof fn lemma_entry_index_same(a: Seq<AddrEntry>, b: Seq<AddrEntry>, key: u64)
    requires
        a.len() == b.len(),
        forall|i: int| 0 <= i < a.len() ==> a[i].key == b[i].key,
    ensures
        entry_index(a, key) == entry_index(b, key),
{
    lemma_entry_index(a, key);
    lemma_entry_index(b, key);
    let ra = entry_index(a, key);
    let rb = entry_index(b, key);
    if ra >= 0 && rb >= 0 {
        if ra < rb {
            assert(b[ra].key == a[ra].key);
        } else if rb < ra {
            assert(a[rb].key == b[rb].key);
        }
    } else if ra >= 0 {
        assert(b[ra].key == a[ra].key);
    } else if rb >= 0 {
        assert(a[rb].key == b[rb].key);
    }
}

/// Appending an address record moves no earlier key and puts a fresh key
/// last.
proof fn lemma_entry_index_push(a: Seq<AddrEntry>, ent: AddrEntry, key: u64)
    ensures
        entry_index(a.push(ent), key) == if entry_index(a, key) >= 0 {
            entry_index(a, key)
        } else if ent.key == key {
            a.len() as int
        } else {
            -1
        },
{
    lemma_entry_index(a, key);
    lemma_entry_index(a.push(ent), key);
    let b = a.push(ent);
    let ra = entry_index(a, key);
    let rb = entry_index(b, key);
    assert(forall|i: int| 0 <= i < a.len() ==> b[i] == a[i]);
    assert(b[a.len() as int] == ent);
    if ra >= 0 {
        if rb < 0 {
            assert(b[ra].key == key);
        } else if ra < rb {
            assert(b[ra].key == key);
        } else if rb < ra {
            assert(a[rb].key == key);
        }
    } else {
        if ent.key == key {
            if rb < 0 {
                assert(b[a.len() as int].key == key);
            } else if rb < a.len() {
                assert(a[rb].key == key);
            }
        } else {
            if rb >= 0 {
                if rb < a.len() {
                    assert(a[rb].key == key);
                } else {
                    assert(b[rb] == ent);
                }
            }
        }
    }
}

/// Removing one address record leaves the text stored under every other key
/// as it was, and leaves nothing under the removed record's key when keys
/// were unique.
proof fn lemma_entry_remove(a: Seq<AddrEntry>, e: int)
    requires
        0 <= e < a.len(),
        entries_wf(a),
    ensures
        entries_wf(a.remove(e)),
        entry_index(a.remove(e), a[e].key) == -1,
        forall|k: u64|
            k != a[e].key ==> spec_entry_text(a.remove(e), k) == spec_entry_text(a, k),
{
    let b = a.remove(e);
    assert(forall|i: int| 0 <= i < e ==> b[i] == a[i]);
    assert(forall|i: int| e <= i < b.len() ==> b[i] == a[i + 1]);
    assert forall|i: int, j: int| 0 <= i < j < b.len() implies b[i].key != b[j].key by {
        let i0 = if i < e { i } else { i + 1 };
        let j0 = if j < e { j } else { j + 1 };
        assert(b[i] == a[i0]);
        assert(b[j] == a[j0]);
    }
    lemma_entry_index(b, a[e].key);
    let rk = entry_index(b, a[e].key);
    if rk >= 0 {
        let r0 = if rk < e { rk } else { rk + 1 };
        assert(b[rk] == a[r0]);
        if r0 < e {
            assert(a[r0].key != a[e].key);
        } else {
            assert(a[e].key != a[r0].key);
        }
    }
    assert forall|k: u64| k != a[e].key implies spec_entry_text(b, k) == spec_entry_text(a, k) by {
        lemma_entry_index(a, k);
        lemma_entry_index(b, k);
        let q = entry_index(a, k);
        let qb = entry_index(b, k);
        if q >= 0 {
            assert(a[e].key != k);
            if q < e {
                assert(b[q] == a[q]);
                if qb < 0 {
                    assert(b[q].key == k);
                } else if qb < q {
                    let q0 = if qb < e { qb } else { qb + 1 };
                    assert(b[qb] == a[q0]);
                    assert(a[q0].key != k);
                } else if q < qb {
                    assert(b[q].key == k);
                }
            } else {
                assert(q > e || q == e);
                assert(q != e);
                assert(b[q - 1] == a[q]);
                if qb < 0 {
                    assert(b[q - 1].key == k);
                } else if qb < q - 1 {
                    let q0 = if qb < e { qb } else { qb + 1 };
                    assert(b[qb] == a[q0]);
                    assert(a[q0].key != k);
                } else if q - 1 < qb {
                    assert(b[q - 1].key == k);
                }
            }
        } else {
            if qb >= 0 {
                let q0 = if qb < e { qb } else { qb + 1 };
                assert(b[qb] == a[q0]);
                assert(a[q0].key != k);
            }
        }
    }
}

/// Finds the address record of a key, reporting its index.
fn find_entry(entries: &Vec<AddrEntry>, key: u64) -> (r: Option<usize>)
    ensures
        match r {
            Some(e) => e < entries@.len() && entry_index(entries@, key) == e as int,
            None => entry_index(entries@, key) == -1,
        },
{
    let n = entries.len();
    let mut i: usize = 0;
    while i < n
        invariant
            n == entries@.len(),
            0 <= i <= n,
            forall|j: int| 0 <= j < i ==> entries@[j].key != key,
        decreases n - i,
    {
        if entries[i].key == key {
            proof {
                lemma_entry_index(entries@, key);
            }
            return Some(i);
        }
        i = i + 1;
    }
    proof {
        lemma_entry_index(entries@, key);
    }
    None
}

} // verus!
