//! Textual encoding of published addresses: a memory address travels through
//! the directory as a bare radix-16 string (lowercase, no base prefix, no
//! leading zeros). Encoding is total; parsing accepts either letter case and
//! rejects empty text, non-digit bytes, and values that overflow 64 bits.

use vstd::prelude::*;

verus! {

/// The lowercase hexadecimal digit byte for a value below 16.
pub open spec fn hex_digit_of(v: u8) -> u8 {
    if v < 10 {
        (48 + v) as u8
    } else {
        (87 + v) as u8
    }
}

/// Whether a byte is an ASCII hexadecimal digit (either letter case).
pub open spec fn is_hex_digit(b: u8) -> bool {
    (48 <= b && b <= 57) || (97 <= b && b <= 102) || (65 <= b && b <= 70)
}

/// The numeric value of an ASCII hexadecimal digit byte.
pub open spec fn hex_digit_value(b: u8) -> u8 {
    if 48 <= b && b <= 57 {
        (b - 48) as u8
    } else if 97 <= b && b <= 102 {
        (b - 87) as u8
    } else if 65 <= b && b <= 70 {
        (b - 55) as u8
    } else {
        0
    }
}

/// Whether every byte of a text is a hexadecimal digit.
pub open spec fn all_hex_digits(s: Seq<u8>) -> bool {
    forall|i: int| 0 <= i < s.len() ==> is_hex_digit(s[i])
}

/// The number a hexadecimal text denotes, most significant digit first.
pub open spec fn hex_value(s: Seq<u8>) -> nat
    decreases s.len(),
{
    if s.len() == 0 {
        0
    } else {
        (hex_value(s.drop_last()) * 16 + hex_digit_value(s.last())) as nat
    }
}

/// The canonical hexadecimal text of a number: lowercase, no leading zeros,
/// a single zero digit for zero.
pub open spec fn spec_encode(v: nat) -> Seq<u8>
    decreases v,
{
    if v < 16 {
        seq![hex_digit_of(v as u8)]
    } else {
        spec_encode(v / 16).push(hex_digit_of((v % 16) as u8))
    }
}

/// The digit byte of a value below 16.
fn hex_digit(v: u8) -> (r: u8)
    requires
        v < 16,
    ensures
        r == hex_digit_of(v),
{
    if v < 10 {
        48 + v
    } else {
        87 + v
    }
}

/// Serializes an address as canonical bare hexadecimal text.
pub fn encode_address(addr: u64) -> (r: Vec<u8>)
    ensures
        r@ == spec_encode(addr as nat),
    decreases addr,
{
    if addr < 16 {
        let mut r: Vec<u8> = Vec::new();
        r.push(hex_digit(addr as u8));
        r
    } else {
        let mut r = encode_address(addr / 16);
        r.push(hex_digit((addr % 16) as u8));
        proof {
            assert(r@ == spec_encode((addr / 16) as nat).push(hex_digit_of((addr % 16) as u8)));
        }
        r
    }
}

/// Extending a text by one digit multiplies its value by 16 and adds the
/// digit's value.
proof fn lemma_hex_value_take_step(s: Seq<u8>, i: int)
    requires
        0 <= i < s.len(),
    ensures
        hex_value(s.take(i + 1)) == hex_value(s.take(i)) * 16 + hex_digit_value(s[i]),
{
    assert(s.take(i + 1).drop_last() =~= s.take(i));
    assert(s.take(i + 1).last() == s[i]);
}

/// A prefix of a hexadecimal text never denotes more than the whole text.
proof fn lemma_hex_value_prefix_le(s: Seq<u8>, i: int)
    requires
        0 <= i <= s.len(),
    ensures
        hex_value(s.take(i)) <= hex_value(s),
    decreases s.len() - i,
{
    if i == s.len() {
        assert(s.take(i) =~= s);
    } else {
        lemma_hex_value_take_step(s, i);
        lemma_hex_value_prefix_le(s, i + 1);
    }
}

/// Parses bare hexadecimal text into an address. Returns the denoted value
/// exactly when the text is nonempty, made of digit bytes only, and fits in
/// 64 bits; otherwise returns nothing.
pub fn parse_address(text: &Vec<u8>) -> (r: Option<u64>)
    ensures
        match r {
            Some(v) => text@.len() > 0 && all_hex_digits(text@) && hex_value(text@) <= u64::MAX
                && v as nat == hex_value(text@),
            None => text@.len() == 0 || !all_hex_digits(text@) || hex_value(text@) > u64::MAX,
        },
{
    if text.len() == 0 {
        return None;
    }
    let mut acc: u64 = 0;
    let mut i: usize = 0;
    while i < text.len()
        invariant
            0 <= i <= text@.len(),
            forall|j: int| 0 <= j < i ==> is_hex_digit(text@[j]),
            acc as nat == hex_value(text@.take(i as int)),
        decreases text@.len() - i,
    {
        let b = text[i];
        let digit_ok = (48 <= b && b <= 57) || (97 <= b && b <= 102) || (65 <= b && b <= 70);
        if !digit_ok {
            assert(!is_hex_digit(text@[i as int]));
            return None;
        }
        let d: u8 = if b <= 57 {
            b - 48
        } else if b >= 97 {
            b - 87
        } else {
            b - 55
        };
        assert(d == hex_digit_value(text@[i as int]));
        proof {
            lemma_hex_value_take_step(text@, i as int);
        }
        if acc > 0x0FFF_FFFF_FFFF_FFFF {
            proof {
                lemma_hex_value_prefix_le(text@, i as int + 1);
            }
            return None;
        }
        acc = acc * 16 + (d as u64);
        i = i + 1;
    }
    proof {
        assert(text@.take(text@.len() as int) =~= text@);
    }
    Some(acc)
}

/// The canonical text of an address is nonempty, made of digit bytes only,
/// and denotes that address back.
pub proof fn lemma_hex_round_trip(v: nat)
    ensures
        spec_encode(v).len() > 0,
        all_hex_digits(spec_encode(v)),
        hex_value(spec_encode(v)) == v,
    decreases v,
{
    if v < 16 {
        let s = spec_encode(v);
        assert(s == seq![hex_digit_of(v as u8)]);
        assert(s.len() == 1);
        assert(s.drop_last() =~= Seq::<u8>::empty());
        assert(hex_value(s.drop_last()) == 0);
        assert(s.last() == hex_digit_of(v as u8));
        assert(hex_value(s) == hex_digit_value(hex_digit_of(v as u8)));
    } else {
        lemma_hex_round_trip(v / 16);
        let tail = hex_digit_of((v % 16) as u8);
        let whole = spec_encode(v / 16).push(tail);
        assert(whole.drop_last() =~= spec_encode(v / 16));
        assert(whole.last() == tail);
        assert(hex_value(whole) == (v / 16) * 16 + (v % 16));
        vstd::arithmetic::div_mod::lemma_fundamental_div_mod(v as int, 16);
        assert(forall|i: int| 0 <= i < whole.len() ==> is_hex_digit(whole[i]));
    }
}

} // verus!
