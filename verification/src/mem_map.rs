//! The wrapper structure that stands at a published address. A publisher does
//! not publish the payload's own address: it publishes the address of a small
//! wrapper whose sole field is the payload pointer, so a remote reader
//! resolves a region in two hops (published address, wrapper, payload). In
//! this model a pointer is an abstract 64-bit address, and the wrapper
//! travels across address spaces as its eight little-endian bytes.

use vstd::prelude::*;

verus! {

/// The intermediate structure at a published address: its sole field is the
/// address of the real payload.
#[derive(Clone, Copy, PartialEq, Eq, Structural, Debug)]
pub struct MemWrapper {
    /// Address of the payload region inside the owning process's space.
    pub ptr: u64,
}

/// 256 raised to a power: the count of values of that many bytes.
pub open spec fn pow256(n: nat) -> nat
    decreases n,
{
    if n == 0 {
        1
    } else {
        256 * pow256((n - 1) as nat)
    }
}

/// The little-endian bytes of a number, low byte first, over a given width.
pub open spec fn spec_le_bytes(v: nat, n: nat) -> Seq<u8>
    decreases n,
{
    if n == 0 {
        Seq::<u8>::empty()
    } else {
        seq![(v % 256) as u8] + spec_le_bytes(v / 256, (n - 1) as nat)
    }
}

/// The number little-endian bytes denote, low byte first.
pub open spec fn spec_le_value(s: Seq<u8>) -> nat
    decreases s.len(),
{
    if s.len() == 0 {
        0
    } else {
        (s[0] + 256 * spec_le_value(s.skip(1))) as nat
    }
}

/// The powers of 256 up to the width of a wrapper, as literals.
pub proof fn lemma_pow256_values()
    ensures
        pow256(0) == 1,
        pow256(1) == 0x100,
        pow256(2) == 0x1_0000,
        pow256(3) == 0x100_0000,
        pow256(4) == 0x1_0000_0000,
        pow256(5) == 0x100_0000_0000,
        pow256(6) == 0x1_0000_0000_0000,
        pow256(7) == 0x100_0000_0000_0000,
        pow256(8) == 0x1_0000_0000_0000_0000,
{
    assert(pow256(1) == 256 * pow256(0));
    assert(pow256(2) == 256 * pow256(1));
    assert(pow256(3) == 256 * pow256(2));
    assert(pow256(4) == 256 * pow256(3));
    assert(pow256(5) == 256 * pow256(4));
    assert(pow256(6) == 256 * pow256(5));
    assert(pow256(7) == 256 * pow256(6));
    assert(pow256(8) == 256 * pow256(7));
}

/// Bytes denote less than one past the largest value of their width.
pub proof fn lemma_le_value_bound(s: Seq<u8>)
    ensures
        spec_le_value(s) < pow256(s.len()),
    decreases s.len(),
{
    if s.len() == 0 {
    } else {
        lemma_le_value_bound(s.skip(1));
        assert(s.skip(1).len() == s.len() - 1);
    }
}

/// Encoding a number over a width and reading the bytes back denotes the
/// number again, whenever the number fits the width.
pub proof fn lemma_le_round_trip(v: nat, n: nat)
    ensures
        spec_le_bytes(v, n).len() == n,
        v < pow256(n) ==> spec_le_value(spec_le_bytes(v, n)) == v,
    decreases n,
{
    if n == 0 {
    } else {
        lemma_le_round_trip(v / 256, (n - 1) as nat);
        let bytes = spec_le_bytes(v, n);
        assert(bytes == seq![(v % 256) as u8] + spec_le_bytes(v / 256, (n - 1) as nat));
        assert(bytes.skip(1) =~= spec_le_bytes(v / 256, (n - 1) as nat));
        assert(bytes[0] == (v % 256) as u8);
        if v < pow256(n) {
            assert(pow256(n) == 256 * pow256((n - 1) as nat));
            assert(v / 256 < pow256((n - 1) as nat)) by (nonlinear_arith)
                requires
                    v < 256 * pow256((n - 1) as nat),
            ;
            vstd::arithmetic::div_mod::lemma_fundamental_div_mod(v as int, 256);
        }
    }
}

/// Serializes a wrapper as the eight little-endian bytes of its payload
/// address, the shape a remote reader receives from the first hop.
pub fn wrapper_to_bytes(w: &MemWrapper) -> (r: Vec<u8>)
    ensures
        r@ == spec_le_bytes(w.ptr as nat, 8),
        r@.len() == 8,
{
    proof {
        lemma_le_round_trip(w.ptr as nat, 8);
    }
    let mut r: Vec<u8> = Vec::new();
    let mut v: u64 = w.ptr;
    let mut i: usize = 0;
    while i < 8
        invariant
            0 <= i <= 8,
            r@.len() == i,
            spec_le_bytes(w.ptr as nat, 8) =~= r@ + spec_le_bytes(v as nat, (8 - i) as nat),
        decreases 8 - i,
    {
        let b: u8 = (v % 256) as u8;
        proof {
            assert(spec_le_bytes(v as nat, (8 - i) as nat) == seq![(v as nat % 256) as u8]
                + spec_le_bytes(v as nat / 256, (8 - i - 1) as nat));
            assert(r@ + spec_le_bytes(v as nat, (8 - i) as nat) =~= r@.push(b) + spec_le_bytes(
                v as nat / 256,
                (8 - i - 1) as nat,
            ));
        }
        r.push(b);
        v = v / 256;
        i = i + 1;
    }
    proof {
        assert(spec_le_bytes(v as nat, 0) =~= Seq::<u8>::empty());
        assert(r@ + Seq::<u8>::empty() =~= r@);
    }
    r
}

/// Reads a wrapper out of the first eight bytes of a remote read, the second
/// hop's source address. Yields nothing when fewer than eight bytes arrived.
pub fn wrapper_from_bytes(data: &Vec<u8>) -> (r: Option<MemWrapper>)
    ensures
        data@.len() >= 8 ==> r == Some(
            MemWrapper { ptr: spec_le_value(data@.take(8)) as u64 },
        ),
        data@.len() < 8 ==> r is None,
{
    if data.len() < 8 {
        return None;
    }
    proof {
        lemma_pow256_values();
        lemma_le_value_bound(data@.take(8));
    }
    let ghost s = data@.take(8);
    let mut acc: u64 = 0;
    let mut i: usize = 8;
    while i > 0
        invariant
            0 <= i <= 8,
            data@.len() >= 8,
            s == data@.take(8),
            acc as nat == spec_le_value(s.skip(i as int)),
            (acc as nat) < pow256((8 - i) as nat),
        decreases i,
    {
        i = i - 1;
        let b = data[i];
        proof {
            lemma_pow256_values();
            assert(s.skip(i as int).len() == 8 - i);
            assert(s.skip(i as int)[0] == data@[i as int]);
            assert(s.skip(i as int).skip(1) =~= s.skip(i as int + 1));
            assert(spec_le_value(s.skip(i as int)) == data@[i as int] + 256 * spec_le_value(
                s.skip(i as int + 1),
            ));
        }
        acc = (b as u64) + 256 * acc;
    }
    proof {
        assert(s.skip(0) =~= s);
    }
    Some(MemWrapper { ptr: acc })
}

} // verus!
