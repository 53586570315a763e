//! The content checksum used to detect "unchanged since last save".
//!
//! A 64-bit FNV-1a hash folded over the Unicode scalar values of the
//! content, rendered as a fixed-width lowercase hexadecimal string.  The
//! checksum is deterministic and serves only de-duplication, not
//! security.

use vstd::prelude::*;

verus! {

/// The 64-bit FNV-1a offset basis.
pub const FNV_OFFSET_BASIS: u64 = 0xcbf2_9ce4_8422_2325;

/// The 64-bit FNV-1a prime.
pub const FNV_PRIME: u64 = 0x0000_0100_0000_01b3;

/// One FNV-1a round: fold a character's scalar value into the hash.
pub open spec fn fnv1a_step(h: u64, c: char) -> u64 {
    vstd::wrapping::u64_specs::wrapping_mul(h ^ (c as u64), FNV_PRIME)
}

/// The FNV-1a hash of a character sequence.
pub open spec fn fnv1a(s: Seq<char>) -> u64
    decreases s.len(),
{
    if s.len() == 0 {
        FNV_OFFSET_BASIS
    } else {
        fnv1a_step(fnv1a(s.drop_last()), s.last())
    }
}

/// The lowercase hexadecimal digit for a value below 16.
pub open spec fn hex_digit(d: u64) -> char {
    if d == 0 {
        '0'
    } else if d == 1 {
        '1'
    } else if d == 2 {
        '2'
    } else if d == 3 {
        '3'
    } else if d == 4 {
        '4'
    } else if d == 5 {
        '5'
    } else if d == 6 {
        '6'
    } else if d == 7 {
        '7'
    } else if d == 8 {
        '8'
    } else if d == 9 {
        '9'
    } else if d == 10 {
        'a'
    } else if d == 11 {
        'b'
    } else if d == 12 {
        'c'
    } else if d == 13 {
        'd'
    } else if d == 14 {
        'e'
    } else {
        'f'
    }
}

/// The nibble of `h` that the hexadecimal rendering puts at position `i`.
pub open spec fn nibble_at(h: u64, i: int) -> u64 {
    (h >> (((15 - i) * 4) as u64)) & 0xf
}

/// The 16-digit lowercase hexadecimal rendering of a 64-bit value.
pub open spec fn hex16(h: u64) -> Seq<char> {
    Seq::new(16, |i: int| hex_digit(nibble_at(h, i)))
}

/// The checksum stored with every snapshot.
pub open spec fn checksum_spec(s: Seq<char>) -> Seq<char> {
    hex16(fnv1a(s))
}

/// Renders a 64-bit value as exactly 16 lowercase hexadecimal digits.
pub fn hex_of_u64(h: u64) -> (r: String)
    ensures
        r@ == hex16(h),
{
    let mut out = String::new();
    let mut i: usize = 0;
    while i < 16
        invariant
            i <= 16,
            out@ =~= hex16(h).subrange(0, i as int),
        decreases 16 - i,
    {
        let shift: u64 = (15 - i as u64) * 4;
        let nib: u64 = (h >> shift) & 0xf;
        let digit: &str = if nib == 0 {
            "0"
        } else if nib == 1 {
            "1"
        } else if nib == 2 {
            "2"
        } else if nib == 3 {
            "3"
        } else if nib == 4 {
            "4"
        } else if nib == 5 {
            "5"
        } else if nib == 6 {
            "6"
        } else if nib == 7 {
            "7"
        } else if nib == 8 {
            "8"
        } else if nib == 9 {
            "9"
        } else if nib == 10 {
            "a"
        } else if nib == 11 {
            "b"
        } else if nib == 12 {
            "c"
        } else if nib == 13 {
            "d"
        } else if nib == 14 {
            "e"
        } else {
            "f"
        };
        proof {
            reveal_strlit("0");
            reveal_strlit("1");
            reveal_strlit("2");
            reveal_strlit("3");
            reveal_strlit("4");
            reveal_strlit("5");
            reveal_strlit("6");
            reveal_strlit("7");
            reveal_strlit("8");
            reveal_strlit("9");
            reveal_strlit("a");
            reveal_strlit("b");
            reveal_strlit("c");
            reveal_strlit("d");
            reveal_strlit("e");
            reveal_strlit("f");
            assert(nib == nibble_at(h, i as int));
            assert(nib <= 15) by (bit_vector)
                requires
                    nib == (h >> shift) & 0xf,
            ;
            assert(digit@ =~= seq![hex_digit(nibble_at(h, i as int))]);
        }
        out.append(digit);
        i = i + 1;
        proof {
            assert(out@ =~= hex16(h).subrange(0, i as int));
        }
    }
    proof {
        assert(hex16(h).subrange(0, 16) =~= hex16(h));
    }
    out
}

/// The checksum of a configuration's raw content.
pub fn checksum_of(content: &str) -> (r: String)
    ensures
        r@ == checksum_spec(content@),
{
    let n = content.unicode_len();
    let mut h: u64 = FNV_OFFSET_BASIS;
    let mut i: usize = 0;
    while i < n
        invariant
            i <= n,
            n == content@.len(),
            h == fnv1a(content@.subrange(0, i as int)),
        decreases n - i,
    {
        let c = content.get_char(i);
        h = (h ^ (c as u64)).wrapping_mul(FNV_PRIME);
        i = i + 1;
        proof {
            let pre = content@.subrange(0, i as int);
            assert(pre.drop_last() =~= content@.subrange(0, i as int - 1));
            assert(pre.last() == content@[i as int - 1]);
        }
    }
    proof {
        assert(content@.subrange(0, n as int) =~= content@);
    }
    hex_of_u64(h)
}

} // verus!
