//! Byte-string helpers for the adapter's ASCII protocol.
use vstd::prelude::*;

verus! {

/// Whether `needle` occurs as a contiguous run inside `haystack`.
pub open spec fn contains(haystack: Seq<u8>, needle: Seq<u8>) -> bool {
    exists|i: int|
        0 <= i && i + needle.len() <= haystack.len() && #[trigger] haystack.subrange(
            i,
            i + needle.len(),
        ) == needle
}

/// An ASCII hexadecimal digit, upper or lower case.
pub open spec fn is_hex_digit(c: u8) -> bool {
    (0x30 <= c && c <= 0x39) || (0x41 <= c && c <= 0x46) || (0x61 <= c && c <= 0x66)
}

pub open spec fn hex_digit_value(c: u8) -> int {
    if c <= 0x39 {
        c - 0x30
    } else if c <= 0x46 {
        c - 0x41 + 10
    } else {
        c - 0x61 + 10
    }
}

pub open spec fn all_hex(s: Seq<u8>) -> bool {
    forall|i: int| 0 <= i < s.len() ==> #[trigger] is_hex_digit(s[i])
}

/// The number written by the hexadecimal digits `s`, most significant first.
pub open spec fn hex_value(s: Seq<u8>) -> int
    decreases s.len(),
{
    if s.len() == 0 {
        0
    } else {
        hex_value(s.drop_last()) * 16 + hex_digit_value(s.last())
    }
}

pub open spec fn pow16(n: nat) -> int
    decreases n,
{
    if n == 0 {
        1
    } else {
        16 * pow16((n - 1) as nat)
    }
}

proof fn lemma_pow16_mono(a: nat, b: nat)
    requires
        a <= b,
    ensures
        1 <= pow16(a) <= pow16(b),
    decreases b,
{
    if b > 0 {
        if a == b {
            lemma_pow16_mono(0, (b - 1) as nat);
        } else {
            lemma_pow16_mono(a, (b - 1) as nat);
        }
    }
}

fn matches_at(haystack: &[u8], needle: &[u8], start: usize) -> (r: bool)
    requires
        start + needle@.len() <= haystack@.len(),
    ensures
        r == (haystack@.subrange(start as int, start + needle@.len()) == needle@),
{
    let hlen = haystack.len();
    let mut j: usize = 0;
    while j < needle.len()
        invariant
            hlen == haystack@.len(),
            j <= needle@.len(),
            start + needle@.len() <= haystack@.len(),
            forall|k: int| 0 <= k < j ==> haystack@[start + k] == needle@[k],
        decreases needle@.len() - j,
    {
        if haystack[start + j] != needle[j] {
            assert(haystack@.subrange(start as int, start + needle@.len())[j as int] != needle@[j as int]);
            return false;
        }
        j += 1;
    }
    assert(haystack@.subrange(start as int, start + needle@.len()) =~= needle@);
    true
}

/// Whether `needle` occurs anywhere in `haystack`.
pub fn contains_slice(haystack: &[u8], needle: &[u8]) -> (r: bool)
    ensures
        r == contains(haystack@, needle@),
{
    if needle.len() > haystack.len() {
        return false;
    }
    let last = haystack.len() - needle.len();
    let mut i: usize = 0;
    loop
        invariant
            i <= last,
            last + needle@.len() == haystack@.len(),
            forall|k: int|
                0 <= k < i ==> #[trigger] haystack@.subrange(k, k + needle@.len()) != needle@,
        decreases last - i,
    {
        if matches_at(haystack, needle, i) {
            return true;
        }
        if i == last {
            return false;
        }
        i += 1;
    }
}

/// Parses up to sixteen hexadecimal digits; `None` when any byte is not one.
pub fn parse_hex(s: &[u8]) -> (r: Option<u64>)
    requires
        s@.len() <= 16,
    ensures
        r == (if all_hex(s@) {
            Some(hex_value(s@) as u64)
        } else {
            None::<u64>
        }),
        all_hex(s@) ==> 0 <= hex_value(s@) < pow16(s@.len()),
{
    let mut acc: u64 = 0;
    let mut i: usize = 0;
    proof {
        lemma_pow16_mono(s@.len(), 16);
        reveal_with_fuel(pow16, 17);
        assert(s@.subrange(0, 0) =~= Seq::<u8>::empty());
    }
    while i < s.len()
        invariant
            i <= s@.len() <= 16,
            pow16(s@.len()) <= pow16(16) == 0x1_0000_0000_0000_0000,
            all_hex(s@.subrange(0, i as int)),
            acc as int == hex_value(s@.subrange(0, i as int)),
            acc < pow16(i as nat),
        decreases s@.len() - i,
    {
        let c = s[i];
        let d: u64 = if 0x30 <= c && c <= 0x39 {
            (c - 0x30) as u64
        } else if 0x41 <= c && c <= 0x46 {
            (c - 0x41 + 10) as u64
        } else if 0x61 <= c && c <= 0x66 {
            (c - 0x61 + 10) as u64
        } else {
            assert(!is_hex_digit(s@[i as int]));
            return None;
        };
        proof {
            lemma_pow16_mono((i + 1) as nat, s@.len());
            let p = s@.subrange(0, i + 1);
            assert(p.drop_last() =~= s@.subrange(0, i as int));
            assert(p.last() == c);
        }
        acc = acc * 16 + d;
        i += 1;
    }
    assert(s@.subrange(0, s@.len() as int) =~= s@);
    Some(acc)
}

} // verus!
