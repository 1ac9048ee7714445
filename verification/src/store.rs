//! The process-local store: the mapping from nonzero 64-bit keys to owned
//! byte regions, together with the process identity it publishes under. A
//! heap allocation is modeled as an owned buffer plus two abstract addresses,
//! one for the wrapper structure a remote reader resolves first and one for
//! the payload itself; fresh addresses come from a monotone counter, so no
//! two live regions ever share an address. Re-inserting under a live key
//! releases the prior buffer before the replacement (the model frees before
//! it replaces rather than leaking the old allocation).

use vstd::prelude::*;

verus! {

/// One stored region: its key, the model addresses of its wrapper and its
/// payload, and the owned bytes.
pub struct StoreEntry {
    /// The caller-chosen nonzero key.
    pub key: u64,
    /// Model address of the wrapper structure; this is what gets published.
    pub wrapper_addr: u64,
    /// Model address of the payload region the wrapper points at.
    pub payload_addr: u64,
    /// The owned bytes of the region.
    pub data: Vec<u8>,
}

/// The local store and the identity it publishes under.
pub struct MemMap {
    /// The identity label, the owning executable's file name.
    pub label: Vec<u8>,
    /// The owning process's id as of its last initialization.
    pub pid: u32,
    /// The live regions, oldest first.
    pub entries: Vec<StoreEntry>,
    /// The next unassigned model address; every live address is below it.
    pub next_addr: u64,
}

/// Index of the first region stored under a key, or -1 when none is.
pub open spec fn store_index(s: Seq<StoreEntry>, key: u64) -> int
    decreases s.len(),
{
    if s.len() == 0 {
        -1
    } else if s[0].key == key {
        0
    } else {
        let r = store_index(s.skip(1), key);
        if r < 0 {
            -1
        } else {
            r + 1
        }
    }
}

/// The bytes stored under a key, if any.
pub open spec fn spec_store_data(s: Seq<StoreEntry>, key: u64) -> Option<Seq<u8>> {
    let r = store_index(s, key);
    if r < 0 {
        None
    } else {
        Some(s[r].data@)
    }
}

/// The wrapper address of the region stored under a key, if any.
pub open spec fn spec_store_wrapper(s: Seq<StoreEntry>, key: u64) -> Option<u64> {
    let r = store_index(s, key);
    if r < 0 {
        None
    } else {
        Some(s[r].wrapper_addr)
    }
}

/// What `store_index` finds: the first region with the key, and -1 exactly
/// when none has it.
pub proof fn lemma_store_index(s: Seq<StoreEntry>, key: u64)
    ensures
        ({
            let r = store_index(s, key);
            &&& r < 0 ==> r == -1 && (forall|i: int| 0 <= i < s.len() ==> s[i].key != key)
            &&& r >= 0 ==> 0 <= r < s.len() && s[r].key == key && (forall|i: int|
                0 <= i < r ==> s[i].key != key)
        }),
    decreases s.len(),
{
    if s.len() == 0 {
    } else if s[0].key == key {
    } else {
        lemma_store_index(s.skip(1), key);
        let r1 = store_index(s.skip(1), key);
        if r1 < 0 {
            assert forall|i: int| 0 <= i < s.len() implies s[i].key != key by {
                if i >= 1 {
                    assert(s.skip(1)[i - 1] == s[i]);
                }
            }
        } else {
            assert(s.skip(1)[r1] == s[r1 + 1]);
            assert forall|i: int| 0 <= i < r1 + 1 implies s[i].key != key by {
                if i >= 1 {
                    assert(s.skip(1)[i - 1] == s[i]);
                }
            }
        }
    }
}

/// Two region lists with the same keys position by position agree on where
/// any key first occurs.
proof fn lemma_store_index_same(a: Seq<StoreEntry>, b: Seq<StoreEntry>, key: u64)
    requires
        a.len() == b.len(),
        forall|i: int| 0 <= i < a.len() ==> a[i].key == b[i].key,
    ensures
        store_index(a, key) == store_index(b, key),
{
    lemma_store_index(a, key);
    lemma_store_index(b, key);
    let ra = store_index(a, key);
    let rb = store_index(b, key);
    if ra >= 0 && rb >= 0 {
        if ra < rb {
            assert(b[ra].key == a[ra].key);
        } else if rb < ra {
            assert(a[rb].key == b[rb].key);
        }
    } else if ra >= 0 {
        assert(b[ra].key == a[ra].key);
    } else if rb >= 0 {
        assert(a[rb].key == b[rb].key);
    }
}

/// Appending a region moves no earlier key and puts a fresh key last.
proof fn lemma_store_index_push(a: Seq<StoreEntry>, ent: StoreEntry, key: u64)
    ensures
        store_index(a.push(ent), key) == if store_index(a, key) >= 0 {
            store_index(a, key)
        } else if ent.key == key {
            a.len() as int
        } else {
            -1
        },
{
    lemma_store_index(a, key);
    lemma_store_index(a.push(ent), key);
    let b = a.push(ent);
    let ra = store_index(a, key);
    let rb = store_index(b, key);
    assert(forall|i: int| 0 <= i < a.len() ==> b[i] == a[i]);
    assert(b[a.len() as int] == ent);
    if ra >= 0 {
        if rb < 0 {
            assert(b[ra].key == key);
        } else if ra < rb {
            assert(b[ra].key == key);
        } else if rb < ra {
            assert(a[rb].key == key);
        }
    } else {
        if ent.key == key {
            if rb < 0 {
                assert(b[a.len() as int].key == key);
            } else if rb < a.len() {
                assert(a[rb].key == key);
            }
        } else {
            if rb >= 0 {
                if rb < a.len() {
                    assert(a[rb].key == key);
                } else {
                    assert(b[rb] == ent);
                }
            }
        }
    }
}

/// Removing one region leaves what is stored under every other key as it
/// was, and leaves nothing under the removed key when keys were unique.
proof fn lemma_store_remove(a: Seq<StoreEntry>, e: int)
    requires
        0 <= e < a.len(),
        forall|i: int, j: int| 0 <= i < j < a.len() ==> a[i].key != a[j].key,
    ensures
        store_index(a.remove(e), a[e].key) == -1,
        forall|k: u64|
            k != a[e].key ==> spec_store_data(a.remove(e), k) == spec_store_data(a, k)
                && spec_store_wrapper(a.remove(e), k) == spec_store_wrapper(a, k),
{
    let b = a.remove(e);
    assert(forall|i: int| 0 <= i < e ==> b[i] == a[i]);
    assert(forall|i: int| e <= i < b.len() ==> b[i] == a[i + 1]);
    lemma_store_index(b, a[e].key);
    let rk = store_index(b, a[e].key);
    if rk >= 0 {
        let r0 = if rk < e { rk } else { rk + 1 };
        assert(b[rk] == a[r0]);
        if r0 < e {
            assert(a[r0].key != a[e].key);
        } else {
            assert(a[e].key != a[r0].key);
        }
    }
    assert forall|k: u64|
        k != a[e].key implies spec_store_data(b, k) == spec_store_data(a, k)
            && spec_store_wrapper(b, k) == spec_store_wrapper(a, k) by {
        lemma_store_index(a, k);
        lemma_store_index(b, k);
        let q = store_index(a, k);
        let qb = store_index(b, k);
        if q >= 0 {
            assert(q != e);
            if q < e {
                assert(b[q] == a[q]);
                if qb < 0 {
                    assert(b[q].key == k);
                } else if qb < q {
                    let q0 = if qb < e { qb } else { qb + 1 };
                    assert(b[qb] == a[q0]);
                    assert(a[q0].key != k);
                } else if q < qb {
                    assert(b[q].key == k);
                }
            } else {
                assert(b[q - 1] == a[q]);
                if qb < 0 {
                    assert(b[q - 1].key == k);
                } else if qb < q - 1 {
                    let q0 = if qb < e { qb } else { qb + 1 };
                    assert(b[qb] == a[q0]);
                    assert(a[q0].key != k);
                } else if q - 1 < qb {
                    assert(b[q - 1].key == k);
                }
            }
        } else {
            if qb >= 0 {
                let q0 = if qb < e { qb } else { qb + 1 };
                assert(b[qb] == a[q0]);
                assert(a[q0].key != k);
            }
        }
    }
}

impl MemMap {
    /// Well-formedness: keys are unique; every live address is a positive
    /// number below the allocation counter; and no two live regions, nor the
    /// wrapper and payload of one region, share an address.
    pub open spec fn wf(&self) -> bool {
        &&& self.next_addr >= 1
        &&& forall|i: int, j: int|
            0 <= i < j < self.entries@.len() ==> self.entries@[i].key != self.entries@[j].key
        &&& forall|i: int|
            0 <= i < self.entries@.len() ==> 1 <= #[trigger] self.entries@[i].wrapper_addr
                < self.next_addr && 1 <= self.entries@[i].payload_addr < self.next_addr
                && self.entries@[i].wrapper_addr != self.entries@[i].payload_addr
        &&& forall|i: int, j: int|
            0 <= i < self.entries@.len() && 0 <= j < self.entries@.len() && i != j
                ==> #[trigger] self.entries@[i].wrapper_addr != #[trigger] self.entries@[j].payload_addr
                && self.entries@[i].wrapper_addr != self.entries@[j].wrapper_addr
                && self.entries@[i].payload_addr != self.entries@[j].payload_addr
    }

    /// A fresh, empty store for a process with the given identity.
    pub fn new(label: Vec<u8>, pid: u32) -> (m: MemMap)
        ensures
            m.wf(),
            m.entries@.len() == 0,
            m.label@ == label@,
            m.pid == pid,
    {
        MemMap { label, pid, entries: Vec::new(), next_addr: 1 }
    }

    /// Finds the region of a key, reporting its index.
    fn find_key(&self, key: u64) -> (r: Option<usize>)
        ensures
            match r {
                Some(i) => i < self.entries@.len() && store_index(self.entries@, key) == i as int,
                None => store_index(self.entries@, key) == -1,
            },
    {
        let n = self.entries.len();
        let mut i: usize = 0;
        while i < n
            invariant
                n == self.entries@.len(),
                0 <= i <= n,
                forall|j: int| 0 <= j < i ==> self.entries@[j].key != key,
            decreases n - i,
        {
            if self.entries[i].key == key {
                proof {
                    lemma_store_index(self.entries@, key);
                }
                return Some(i);
            }
            i = i + 1;
        }
        proof {
            lemma_store_index(self.entries@, key);
        }
        None
    }

    /// Stores a region under a key, releasing any prior region under the
    /// same key first, and reports the fresh wrapper address (the address a
    /// publish would announce).
    pub fn insert_entry(&mut self, key: u64, data: Vec<u8>) -> (w: u64)
        requires
            old(self).wf(),
            key != 0,
            old(self).next_addr <= u64::MAX - 2,
        ensures
            final(self).wf(),
            final(self).label@ == old(self).label@,
            final(self).pid == old(self).pid,
            spec_store_data(final(self).entries@, key) == Some(data@),
            spec_store_wrapper(final(self).entries@, key) == Some(w),
            forall|k: u64|
                k != key ==> spec_store_data(final(self).entries@, k) == spec_store_data(
                    old(self).entries@,
                    k,
                ),
    {
        let ghost a0 = self.entries@;
        match self.find_key(key) {
            Some(i) => {
                proof {
                    lemma_store_index(a0, key);
                }
                self.entries.remove(i);
                proof {
                    lemma_store_remove(a0, i as int);
                    assert(a0[i as int].key == key);
                    let am = self.entries@;
                    assert(forall|j: int| 0 <= j < i ==> am[j] == a0[j]);
                    assert(forall|j: int| i <= j < am.len() ==> am[j] == a0[j + 1]);
                    assert forall|x: int, y: int|
                        0 <= x < y < am.len() implies am[x].key != am[y].key by {
                        let x0 = if x < i { x } else { x + 1 };
                        let y0 = if y < i { y } else { y + 1 };
                        assert(am[x] == a0[x0]);
                        assert(am[y] == a0[y0]);
                    }
                    assert forall|x: int|
                        0 <= x < am.len() implies 1 <= (#[trigger] am[x]).wrapper_addr
                        < self.next_addr && 1 <= am[x].payload_addr < self.next_addr
                        && am[x].wrapper_addr != am[x].payload_addr by {
                        let x0 = if x < i { x } else { x + 1 };
                        assert(am[x] == a0[x0]);
                    }
                    assert forall|x: int, y: int|
                        0 <= x < am.len() && 0 <= y < am.len() && x != y implies (
                        #[trigger] am[x]).wrapper_addr != (#[trigger] am[y]).payload_addr
                        && am[x].wrapper_addr != am[y].wrapper_addr && am[x].payload_addr
                        != am[y].payload_addr by {
                        let x0 = if x < i { x } else { x + 1 };
                        let y0 = if y < i { y } else { y + 1 };
                        assert(am[x] == a0[x0]);
                        assert(am[y] == a0[y0]);
                    }
                }
            },
            None => {
                proof {
                    lemma_store_index(a0, key);
                }
            },
        }
        let ghost a = self.entries@;
        proof {
            assert(store_index(a, key) == -1);
            lemma_store_index(a, key);
        }
        let w = self.next_addr;
        let p = self.next_addr + 1;
        self.next_addr = self.next_addr + 2;
        self.entries.push(StoreEntry { key, wrapper_addr: w, payload_addr: p, data });
        let ghost b = self.entries@;
        let ghost ent = b[a.len() as int];
        proof {
            assert(b =~= a.push(ent));
            assert(forall|j: int| 0 <= j < a.len() ==> b[j] == a[j]);
            assert(ent.key == key);
            assert(ent.wrapper_addr == w);
            assert(ent.payload_addr == w + 1);
            assert(self.next_addr == w + 2);
            lemma_store_index_push(a, ent, key);
            assert forall|k: u64|
                k != key implies spec_store_data(b, k) == spec_store_data(a, k) by {
                lemma_store_index_push(a, ent, k);
                lemma_store_index(a, k);
            }
            assert forall|x: int, y: int|
                0 <= x < y < b.len() implies b[x].key != b[y].key by {
                if y < a.len() {
                    assert(b[x] == a[x]);
                    assert(b[y] == a[y]);
                } else {
                    assert(b[x] == a[x]);
                    assert(b[y] == ent);
                }
            }
            assert forall|x: int|
                0 <= x < b.len() implies 1 <= (#[trigger] b[x]).wrapper_addr < self.next_addr
                && 1 <= b[x].payload_addr < self.next_addr && b[x].wrapper_addr
                != b[x].payload_addr by {
                if x < a.len() {
                    assert(b[x] == a[x]);
                    assert(1 <= a[x].wrapper_addr < w);
                    assert(1 <= a[x].payload_addr < w);
                } else {
                    assert(b[x] == ent);
                }
            }
            assert forall|x: int, y: int|
                0 <= x < b.len() && 0 <= y < b.len() && x != y implies (
            #[trigger] b[x]).wrapper_addr != (#[trigger] b[y]).payload_addr && b[x].wrapper_addr
                != b[y].wrapper_addr && b[x].payload_addr != b[y].payload_addr by {
                if x < a.len() && y < a.len() {
                    assert(b[x] == a[x]);
                    assert(b[y] == a[y]);
                } else if x < a.len() {
                    assert(b[x] == a[x]);
                    assert(b[y] == ent);
                    assert(1 <= a[x].wrapper_addr < w);
                    assert(1 <= a[x].payload_addr < w);
                } else {
                    assert(b[x] == ent);
                    assert(b[y] == a[y]);
                    assert(1 <= a[y].wrapper_addr < w);
                    assert(1 <= a[y].payload_addr < w);
                }
            }
        }
        w
    }

    /// The region stored under a key, if any.
    pub fn get_entry(&self, key: u64) -> (r: Option<&Vec<u8>>)
        ensures
            match r {
                Some(d) => spec_store_data(self.entries@, key) == Some(d@),
                None => spec_store_data(self.entries@, key) is None,
            },
    {
        match self.find_key(key) {
            Some(i) => Some(&self.entries[i].data),
            None => None,
        }
    }

    /// Releases the region stored under a key. Reports whether a region was
    /// there; every other key's region is untouched.
    pub fn remove_entry(&mut self, key: u64) -> (r: bool)
        requires
            old(self).wf(),
        ensures
            final(self).wf(),
            final(self).label@ == old(self).label@,
            final(self).pid == old(self).pid,
            r == (spec_store_data(old(self).entries@, key) is Some),
            spec_store_data(final(self).entries@, key) is None,
            forall|k: u64|
                k != key ==> spec_store_data(final(self).entries@, k) == spec_store_data(
                    old(self).entries@,
                    k,
                ),
    {
        let ghost a = self.entries@;
        match self.find_key(key) {
            None => {
                proof {
                    lemma_store_index(a, key);
                }
                false
            },
            Some(i) => {
                proof {
                    lemma_store_index(a, key);
                }
                self.entries.remove(i);
                proof {
                    lemma_store_remove(a, i as int);
                    assert(a[i as int].key == key);
                    assert(forall|j: int| 0 <= j < i ==> self.entries@[j] == a[j]);
                    assert(forall|j: int|
                        i <= j < self.entries@.len() ==> self.entries@[j] == a[j + 1]);
                }
                true
            },
        }
    }

    /// The host's remote read against this address space, modeled: reading
    /// at a live wrapper address yields that wrapper's eight little-endian
    /// bytes; reading at a live payload address yields the payload; reading
    /// anywhere else moves no bytes. A transfer is bounded by the region it
    /// reads, and reports how many bytes moved.
    pub fn read_memory(&self, addr: u64, len: usize) -> (r: (usize, Vec<u8>))
        requires
            self.wf(),
        ensures
            r.1@.len() == r.0,
            forall|i: int|
                0 <= i < self.entries@.len() && (#[trigger] self.entries@[i]).wrapper_addr == addr
                    ==> r.0 == (if len <= 8 { len } else { 8 as usize }) && r.1@
                    == crate::mem_map::spec_le_bytes(self.entries@[i].payload_addr as nat, 8).take(
                    r.0 as int,
                ),
            forall|i: int|
                0 <= i < self.entries@.len() && (#[trigger] self.entries@[i]).payload_addr == addr
                    ==> r.0 == (if len <= self.entries@[i].data@.len() {
                    len as int
                } else {
                    self.entries@[i].data@.len() as int
                }) && r.1@ == self.entries@[i].data@.take(r.0 as int),
            (forall|i: int|
                0 <= i < self.entries@.len() ==> (#[trigger] self.entries@[i]).wrapper_addr != addr
                    && self.entries@[i].payload_addr != addr) ==> r.0 == 0,
    {
        let n = self.entries.len();
        let mut i: usize = 0;
        while i < n
            invariant
                self.wf(),
                n == self.entries@.len(),
                0 <= i <= n,
                forall|j: int|
                    0 <= j < i ==> (#[trigger] self.entries@[j]).wrapper_addr != addr
                        && self.entries@[j].payload_addr != addr,
            decreases n - i,
        {
            if self.entries[i].wrapper_addr == addr {
                let w = crate::mem_map::wrapper_to_bytes(
                    &crate::mem_map::MemWrapper { ptr: self.entries[i].payload_addr },
                );
                let out = crate::bytes::prefix_bytes(&w, len);
                let moved = out.len();
                proof {
                    assert(forall|j: int|
                        0 <= j < self.entries@.len() && j != i ==> (
                        #[trigger] self.entries@[j]).wrapper_addr != addr);
                    assert(forall|j: int|
                        0 <= j < self.entries@.len() ==> (
                        #[trigger] self.entries@[j]).payload_addr != addr);
                }
                return (moved, out);
            }
            if self.entries[i].payload_addr == addr {
                let out = crate::bytes::prefix_bytes(&self.entries[i].data, len);
                let moved = out.len();
                proof {
                    assert(forall|j: int|
                        0 <= j < self.entries@.len() && j != i ==> (
                        #[trigger] self.entries@[j]).payload_addr != addr);
                    assert(forall|j: int|
                        0 <= j < self.entries@.len() ==> (
                        #[trigger] self.entries@[j]).wrapper_addr != addr);
                }
                return (moved, out);
            }
            i = i + 1;
        }
        (0, Vec::new())
    }

    /// The host's remote write against this address space, modeled: writing
    /// at a live payload address overwrites that payload's leading bytes,
    /// bounded by the region's size; writing anywhere else moves no bytes.
    /// Reports how many bytes moved. Keys, addresses and region sizes never
    /// change under a remote write.
    pub fn write_memory(&mut self, addr: u64, src: &Vec<u8>) -> (n: usize)
        requires
            old(self).wf(),
        ensures
            final(self).wf(),
            final(self).label@ == old(self).label@,
            final(self).pid == old(self).pid,
            final(self).next_addr == old(self).next_addr,
            final(self).entries@.len() == old(self).entries@.len(),
            forall|j: int|
                0 <= j < old(self).entries@.len() ==> (#[trigger] final(self).entries@[j]).key
                    == old(self).entries@[j].key && final(self).entries@[j].wrapper_addr
                    == old(self).entries@[j].wrapper_addr && final(self).entries@[j].payload_addr
                    == old(self).entries@[j].payload_addr,
            forall|i: int|
                0 <= i < old(self).entries@.len() && (
                #[trigger] old(self).entries@[i]).payload_addr == addr ==> n == (if src@.len()
                    <= old(self).entries@[i].data@.len() {
                    src@.len() as int
                } else {
                    old(self).entries@[i].data@.len() as int
                }) && final(self).entries@[i].data@ == src@.take(n as int)
                    + old(self).entries@[i].data@.skip(n as int),
            forall|j: int|
                0 <= j < old(self).entries@.len() && (
                #[trigger] old(self).entries@[j]).payload_addr != addr
                    ==> final(self).entries@[j].data@ == old(self).entries@[j].data@,
            (forall|i: int|
                0 <= i < old(self).entries@.len() ==> (
                #[trigger] old(self).entries@[i]).payload_addr != addr) ==> n == 0,
    {
        let ghost a = self.entries@;
        let cnt = self.entries.len();
        let mut i: usize = 0;
        while i < cnt
            invariant
                self == old(self),
                a == self.entries@,
                a == old(self).entries@,
                self.wf(),
                cnt == self.entries@.len(),
                0 <= i <= cnt,
                forall|j: int| 0 <= j < i ==> (#[trigger] self.entries@[j]).payload_addr != addr,
            decreases cnt - i,
        {
            if self.entries[i].payload_addr == addr {
                let dlen = self.entries[i].data.len();
                let m = if src.len() <= dlen { src.len() } else { dlen };
                let mut rec = self.entries.remove(i);
                proof {
                    assert(self.entries@ == a.remove(i as int));
                    assert(rec == a[i as int]);
                }
                let ghost olddata = rec.data@;
                let mut nd = crate::bytes::prefix_bytes(src, m);
                let mut k: usize = m;
                while k < dlen
                    invariant
                        m <= k <= dlen,
                        dlen == olddata.len(),
                        m <= src@.len(),
                        rec.data@ == olddata,
                        i < a.len(),
                        a == old(self).entries@,
                        old(self).wf(),
                        a[i as int].payload_addr == addr,
                        olddata == a[i as int].data@,
                        self.label@ == old(self).label@,
                        self.pid == old(self).pid,
                        self.next_addr == old(self).next_addr,
                        self.entries@ == a.remove(i as int),
                        rec.key == a[i as int].key,
                        rec.wrapper_addr == a[i as int].wrapper_addr,
                        rec.payload_addr == a[i as int].payload_addr,
                        nd@ == src@.take(m as int) + olddata.subrange(m as int, k as int),
                    decreases dlen - k,
                {
                    nd.push(rec.data[k]);
                    proof {
                        assert((src@.take(m as int) + olddata.subrange(m as int, k as int)).push(
                            olddata[k as int],
                        ) =~= src@.take(m as int) + olddata.subrange(m as int, k as int + 1));
                    }
                    k = k + 1;
                }
                proof {
                    assert(olddata.subrange(m as int, dlen as int) =~= olddata.skip(m as int));
                }
                rec.data = nd;
                self.entries.insert(i, rec);
                let ghost b = self.entries@;
                proof {
                    assert(b =~= a.update(i as int, b[i as int]));
                    assert(b[i as int].key == a[i as int].key);
                    assert(b[i as int].wrapper_addr == a[i as int].wrapper_addr);
                    assert(b[i as int].payload_addr == a[i as int].payload_addr);
                    assert(b[i as int].data@ == src@.take(m as int) + a[i as int].data@.skip(
                        m as int,
                    ));
                    assert(forall|j: int| 0 <= j < b.len() && j != i ==> b[j] == a[j]);
                    assert forall|j: int|
                        0 <= j < a.len() && (#[trigger] a[j]).payload_addr == addr implies j
                        == i as int by {
                        if j != i as int {
                            assert(a[j].payload_addr != a[i as int].payload_addr);
                        }
                    }
                }
                return m;
            }
            i = i + 1;
        }
        0
    }

    /// The payload address behind a wrapper address, if some live region's
    /// wrapper stands there. This is the resolution a process applies to its
    /// own published address.
    pub fn payload_at_wrapper(&self, addr: u64) -> (r: Option<u64>)
        requires
            self.wf(),
        ensures
            match r {
                Some(p) => exists|i: int|
                    0 <= i < self.entries@.len() && (#[trigger] self.entries@[i]).wrapper_addr
                        == addr && self.entries@[i].payload_addr == p,
                None => forall|i: int|
                    0 <= i < self.entries@.len() ==> (#[trigger] self.entries@[i]).wrapper_addr
                        != addr,
            },
    {
        let n = self.entries.len();
        let mut i: usize = 0;
        while i < n
            invariant
                n == self.entries@.len(),
                0 <= i <= n,
                forall|j: int| 0 <= j < i ==> (#[trigger] self.entries@[j]).wrapper_addr != addr,
            decreases n - i,
        {
            if self.entries[i].wrapper_addr == addr {
                return Some(self.entries[i].payload_addr);
            }
            i = i + 1;
        }
        None
    }
}

} // verus!
