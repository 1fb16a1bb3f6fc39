//! Unsigned integers written in base sixteen.
use vstd::prelude::*;

verus! {

/// The sixteen digits, lowercase, in order of value.
pub open spec fn hex_digits() -> Seq<char> {
    seq!['0', '1', '2', '3', '4', '5', '6', '7', '8', '9', 'a', 'b', 'c', 'd', 'e', 'f']
}

/// `n` in lowercase hexadecimal, with no leading zeros (zero is `0`).
pub open spec fn hex_of(n: nat) -> Seq<char>
    decreases n,
{
    if n < 16 {
        seq![hex_digits()[n as int]]
    } else {
        hex_of(n / 16).push(hex_digits()[(n % 16) as int])
    }
}

/// Whether `c` is a hexadecimal digit, in either case.
pub open spec fn is_hex_char(c: char) -> bool {
    ('0' <= c <= '9') || ('a' <= c <= 'f') || ('A' <= c <= 'F')
}

/// The value of the hexadecimal digit `c` (zero for any other character).
pub open spec fn hex_char_value(c: char) -> nat {
    if '0' <= c <= '9' {
        (c as u32 - '0' as u32) as nat
    } else if 'a' <= c <= 'f' {
        (c as u32 - 'a' as u32 + 10) as nat
    } else if 'A' <= c <= 'F' {
        (c as u32 - 'A' as u32 + 10) as nat
    } else {
        0
    }
}

/// The number that the digits `s` denote, most significant first.
pub open spec fn hex_number(s: Seq<char>) -> nat
    decreases s.len(),
{
    if s.len() == 0 {
        0
    } else {
        hex_number(s.drop_last()) * 16 + hex_char_value(s.last())
    }
}

/// What reading `s` as an unsigned 64-bit number in base sixteen gives: a
/// value when `s` is a non-empty run of hexadecimal digits whose number fits
/// in 64 bits, nothing otherwise.
pub open spec fn parse_hex(s: Seq<char>) -> Option<u64> {
    if s.len() > 0 && (forall|i: int| 0 <= i < s.len() ==> is_hex_char(#[trigger] s[i]))
        && hex_number(s) <= u64::MAX {
        Some(hex_number(s) as u64)
    } else {
        None
    }
}

/// Appending a digit never makes the number smaller.
proof fn lemma_hex_number_grows(s: Seq<char>, i: int, j: int)
    requires
        0 <= i <= j <= s.len(),
    ensures
        hex_number(s.take(i)) <= hex_number(s.take(j)),
    decreases j - i,
{
    if i < j {
        lemma_hex_number_grows(s, i, j - 1);
        assert(s.take(j).drop_last() == s.take(j - 1));
    }
}

/// Each lowercase digit is a hexadecimal digit of its own value.
proof fn lemma_hex_digit(d: nat)
    requires
        d < 16,
    ensures
        is_hex_char(hex_digits()[d as int]),
        hex_char_value(hex_digits()[d as int]) == d,
{
}

/// `hex_of(n)` is a non-empty run of hexadecimal digits that denotes `n`.
pub proof fn lemma_hex_of(n: nat)
    ensures
        hex_of(n).len() > 0,
        forall|i: int| 0 <= i < hex_of(n).len() ==> is_hex_char(#[trigger] hex_of(n)[i]),
        hex_number(hex_of(n)) == n,
    decreases n,
{
    if n < 16 {
        lemma_hex_digit(n);
        assert(hex_of(n).drop_last() =~= Seq::<char>::empty());
        assert(hex_number(hex_of(n)) == hex_number(Seq::<char>::empty()) * 16 + n);
    } else {
        lemma_hex_of(n / 16);
        lemma_hex_digit(n % 16);
        assert(hex_of(n).drop_last() == hex_of(n / 16));
        assert(hex_of(n).last() == hex_digits()[(n % 16) as int]);
        assert(hex_number(hex_of(n)) == hex_number(hex_of(n / 16)) * 16 + n % 16);
    }
}

/// Reading back what `hex_of` writes gives the number again.
pub proof fn lemma_parse_hex_of(n: u64)
    ensures
        parse_hex(hex_of(n as nat)) == Some(n),
{
    lemma_hex_of(n as nat);
}

fn hex_digit(d: u64) -> (c: char)
    requires
        d < 16,
    ensures
        c == hex_digits()[d as int],
{
    match d {
        0 => '0',
        1 => '1',
        2 => '2',
        3 => '3',
        4 => '4',
        5 => '5',
        6 => '6',
        7 => '7',
        8 => '8',
        9 => '9',
        10 => 'a',
        11 => 'b',
        12 => 'c',
        13 => 'd',
        14 => 'e',
        _ => 'f',
    }
}

/// Appends `n` in lowercase hexadecimal to `s`.
pub fn push_hex(s: &mut String, n: u64)
    ensures
        final(s)@ == old(s)@ + hex_of(n as nat),
    decreases n,
{
    if n >= 16 {
        push_hex(s, n / 16);
    }
    crate::text::push_char(s, hex_digit(n % 16));
    assert(final(s)@ == old(s)@ + hex_of(n as nat));
}

/// Reads `cs[start..end]` as an unsigned 64-bit number in base sixteen.
pub fn parse_hex_range(cs: &Vec<char>, start: usize, end: usize) -> (r: Option<u64>)
    requires
        start <= end <= cs@.len(),
    ensures
        r == parse_hex(cs@.subrange(start as int, end as int)),
{
    let ghost s = cs@.subrange(start as int, end as int);
    if start == end {
        return None;
    }
    let mut acc: u64 = 0;
    let mut i: usize = start;
    while i < end
        invariant
            start <= i <= end <= cs@.len(),
            s == cs@.subrange(start as int, end as int),
            acc as nat == hex_number(s.take(i - start)),
            forall|k: int| 0 <= k < i - start ==> is_hex_char(#[trigger] s[k]),
        decreases end - i,
    {
        let c = cs[i];
        let v: u64 = if '0' <= c && c <= '9' {
            (c as u32 - '0' as u32) as u64
        } else if 'a' <= c && c <= 'f' {
            (c as u32 - 'a' as u32 + 10) as u64
        } else if 'A' <= c && c <= 'F' {
            (c as u32 - 'A' as u32 + 10) as u64
        } else {
            assert(!is_hex_char(s[i - start]));
            return None;
        };
        let ghost k: int = i - start;
        assert(s.take(k + 1).drop_last() == s.take(k));
        assert(s.take(k + 1).last() == c);
        if acc > (u64::MAX - v) / 16 {
            proof {
                lemma_hex_number_grows(s, k + 1, s.len() as int);
                assert(s.take(s.len() as int) == s);
            }
            return None;
        }
        acc = acc * 16 + v;
        i = i + 1;
    }
    assert(s.take(s.len() as int) == s);
    Some(acc)
}

} // verus!
