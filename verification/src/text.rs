//! Byte-level text helpers: digits in a radix and the standard library's
//! `from_str_radix` rule for unsigned integers, byte search, prefix
//! stripping, and reading a `str` as its characters.
use vstd::prelude::*;
use vstd::string::StrSliceExecFns;

verus! {

/// Value of byte `b` as a digit in `radix` (`0-9`, then `a-z`/`A-Z` for
/// 10..36), if it is one.
pub open spec fn spec_digit(b: u8, radix: nat) -> Option<nat> {
    let v: int = if 48 <= b <= 57 {
        b - 48
    } else if 97 <= b <= 122 {
        b - 97 + 10
    } else if 65 <= b <= 90 {
        b - 65 + 10
    } else {
        99
    };
    if v < radix {
        Some(v as nat)
    } else {
        None
    }
}

/// Big-endian value of a run of digits in `radix`; `None` if any byte is
/// not such a digit. The empty run has value 0.
pub open spec fn spec_digits_value(b: Seq<u8>, radix: nat) -> Option<nat>
    decreases b.len(),
{
    if b.len() == 0 {
        Some(0)
    } else {
        match (spec_digits_value(b.drop_last(), radix), spec_digit(b.last(), radix)) {
            (Some(v), Some(d)) => Some(v * radix + d),
            _ => None,
        }
    }
}

/// The standard library's `from_str_radix` for an unsigned integer type
/// whose maximum is `max`: an optional leading `+`, then one or more digits
/// of `radix`, the value not above `max`.
pub open spec fn spec_from_str_radix(b: Seq<u8>, radix: nat, max: nat) -> Option<nat> {
    if b.len() == 0 {
        None
    } else if b.len() == 1 && (b[0] == 43u8 || b[0] == 45u8) {
        None
    } else {
        let digits = if b[0] == 43u8 {
            b.drop_first()
        } else {
            b
        };
        match spec_digits_value(digits, radix) {
            Some(v) => if v <= max {
                Some(v)
            } else {
                None
            },
            None => None,
        }
    }
}

/// The digit value of byte `b` in `radix`.
pub fn digit(b: u8, radix: u32) -> (res: Option<u32>)
    requires
        2 <= radix <= 36,
    ensures
        match spec_digit(b, radix as nat) {
            Some(v) => res == Some(v as u32),
            None => res is None,
        },
{
    let v: u32 = if 48 <= b && b <= 57 {
        (b - 48) as u32
    } else if 97 <= b && b <= 122 {
        (b - 97 + 10) as u32
    } else if 65 <= b && b <= 90 {
        (b - 65 + 10) as u32
    } else {
        99
    };
    if v < radix {
        Some(v)
    } else {
        None
    }
}

/// A prefix of a valid digit run is a valid digit run of no larger value.
pub proof fn lemma_digits_prefix(s: Seq<u8>, radix: nat, j: int)
    requires
        0 <= j <= s.len(),
        radix >= 1,
        spec_digits_value(s, radix) is Some,
    ensures
        spec_digits_value(s.take(j), radix) is Some,
        spec_digits_value(s.take(j), radix)->0 <= spec_digits_value(s, radix)->0,
    decreases s.len(),
{
    if j == s.len() {
        assert(s.take(j) =~= s);
    } else {
        let v = spec_digits_value(s.drop_last(), radix)->0;
        let d = spec_digit(s.last(), radix)->0;
        assert(v * radix + d >= v) by (nonlinear_arith)
            requires
                radix >= 1,
                v >= 0,
                d >= 0,
        ;
        lemma_digits_prefix(s.drop_last(), radix, j);
        assert(s.drop_last().take(j) =~= s.take(j));
    }
}

/// `from_str_radix` on bytes `start..end` of `b`, for an unsigned type whose
/// maximum is `max` (at most `u32::MAX`).
pub fn parse_radix(b: &[u8], start: usize, end: usize, radix: u32, max: u64) -> (res: Option<u64>)
    requires
        start <= end <= b@.len(),
        2 <= radix <= 36,
        max <= u32::MAX,
    ensures
        match spec_from_str_radix(b@.subrange(start as int, end as int), radix as nat, max as nat) {
            Some(v) => res == Some(v as u64),
            None => res is None,
        },
{
    let ghost s = b@.subrange(start as int, end as int);
    if start == end {
        return None;
    }
    if end - start == 1 && (b[start] == 43 || b[start] == 45) {
        return None;
    }
    let first = if b[start] == 43 {
        start + 1
    } else {
        start
    };
    let ghost digits = b@.subrange(first as int, end as int);
    assert(digits =~= (if s[0] == 43u8 {
        s.drop_first()
    } else {
        s
    }));
    let mut acc: u64 = 0;
    let mut i: usize = first;
    while i < end
        invariant
            first <= i <= end <= b@.len(),
            max <= u32::MAX,
            2 <= radix <= 36,
            digits == b@.subrange(first as int, end as int),
            s == b@.subrange(start as int, end as int),
            s.len() > 0,
            !(s.len() == 1 && (s[0] == 43u8 || s[0] == 45u8)),
            digits == (if s[0] == 43u8 {
                s.drop_first()
            } else {
                s
            }),
            spec_digits_value(digits.take(i - first), radix as nat) == Some(acc as nat),
            acc <= max,
        decreases end - i,
    {
        let ghost pre = digits.take(i - first);
        let ghost next = digits.take(i - first + 1);
        assert(next.drop_last() =~= pre);
        assert(next.last() == b@[i as int]);
        match digit(b[i], radix) {
            None => {
                proof {
                    assert(spec_digits_value(next, radix as nat) is None);
                    if spec_digits_value(digits, radix as nat) is Some {
                        lemma_digits_prefix(digits, radix as nat, i - first + 1);
                    }
                    assert(spec_digits_value(digits, radix as nat) is None);
                }
                return None;
            },
            Some(d) => {
                assert(acc * radix + d <= 4294967295 * 36 + 36) by (nonlinear_arith)
                    requires
                        acc <= 4294967295,
                        radix <= 36,
                        d < 36,
                ;
                let next_acc: u64 = acc * (radix as u64) + (d as u64);
                assert(spec_digits_value(next, radix as nat) == Some(next_acc as nat));
                if next_acc > max {
                    proof {
                        if spec_digits_value(digits, radix as nat) is Some {
                            lemma_digits_prefix(digits, radix as nat, i - first + 1);
                            assert(spec_digits_value(digits, radix as nat)->0 > max);
                        }
                    }
                    return None;
                }
                acc = next_acc;
            },
        }
        i = i + 1;
    }
    assert(digits.take(end - first) =~= digits);
    Some(acc)
}

/// Index of the first `x` in `b`, or `b.len()` if there is none.
pub open spec fn spec_first_index_of<T>(b: Seq<T>, x: T) -> int
    decreases b.len(),
{
    if b.len() == 0 {
        0
    } else if b[0] == x {
        0
    } else {
        1 + spec_first_index_of(b.drop_first(), x)
    }
}

/// The first index is the smallest index holding `x` (or the length).
pub proof fn lemma_first_index_of<T>(b: Seq<T>, x: T)
    ensures
        0 <= spec_first_index_of(b, x) <= b.len(),
        spec_first_index_of(b, x) < b.len() ==> b[spec_first_index_of(b, x)] == x,
        forall|j: int| 0 <= j < spec_first_index_of(b, x) ==> b[j] != x,
    decreases b.len(),
{
    if b.len() > 0 && b[0] != x {
        lemma_first_index_of(b.drop_first(), x);
        assert forall|j: int| 0 <= j < spec_first_index_of(b, x) implies b[j] != x by {
            if j > 0 {
                assert(b[j] == b.drop_first()[j - 1]);
            }
        }
    }
}

/// An index that holds `x`, with no `x` before it, is the first index.
pub proof fn lemma_first_index_of_unique<T>(b: Seq<T>, x: T, i: int)
    requires
        0 <= i <= b.len(),
        i < b.len() ==> b[i] == x,
        forall|j: int| 0 <= j < i ==> b[j] != x,
    ensures
        spec_first_index_of(b, x) == i,
    decreases b.len(),
{
    if b.len() > 0 && b[0] != x {
        lemma_first_index_of_unique(b.drop_first(), x, i - 1);
    }
}

/// Position of the first `x` in bytes `start..end` of `b`, relative to
/// `start` (`end - start` if there is none).
pub fn find_byte(b: &[u8], start: usize, end: usize, x: u8) -> (res: usize)
    requires
        start <= end <= b@.len(),
    ensures
        res == spec_first_index_of(b@.subrange(start as int, end as int), x),
        res <= end - start,
{
    let ghost s = b@.subrange(start as int, end as int);
    let mut i: usize = start;
    while i < end
        invariant
            start <= i <= end <= b@.len(),
            s == b@.subrange(start as int, end as int),
            forall|j: int| 0 <= j < i - start ==> s[j] != x,
        decreases end - i,
    {
        if b[i] == x {
            proof {
                lemma_first_index_of_unique(s, x, i - start);
            }
            return i - start;
        }
        i = i + 1;
    }
    proof {
        lemma_first_index_of_unique(s, x, end - start);
    }
    end - start
}

/// Remove every leading repetition of the two-byte pattern `p0 p1`.
pub open spec fn spec_strip_all_prefix(b: Seq<u8>, p0: u8, p1: u8) -> Seq<u8>
    decreases b.len(),
{
    if b.len() >= 2 && b[0] == p0 && b[1] == p1 {
        spec_strip_all_prefix(b.skip(2), p0, p1)
    } else {
        b
    }
}

/// Start of bytes `start..end` of `b` once every leading `p0 p1` is removed.
pub fn strip_all_prefix(b: &[u8], start: usize, end: usize, p0: u8, p1: u8) -> (res: usize)
    requires
        start <= end <= b@.len(),
    ensures
        start <= res <= end,
        b@.subrange(res as int, end as int) == spec_strip_all_prefix(
            b@.subrange(start as int, end as int),
            p0,
            p1,
        ),
{
    let mut i: usize = start;
    while end - i >= 2 && b[i] == p0 && b[i + 1] == p1
        invariant
            start <= i <= end <= b@.len(),
            spec_strip_all_prefix(b@.subrange(i as int, end as int), p0, p1)
                == spec_strip_all_prefix(b@.subrange(start as int, end as int), p0, p1),
        decreases end - i,
    {
        assert(b@.subrange(i as int, end as int).skip(2) =~= b@.subrange(i + 2, end as int));
        i = i + 2;
    }
    i
}

/// The characters of a string slice.
pub fn str_chars(s: &str) -> (res: Vec<char>)
    ensures
        res@ == s@,
{
    let n = s.unicode_len();
    let mut res: Vec<char> = Vec::new();
    let mut i: usize = 0;
    while i < n
        invariant
            n == s@.len(),
            i <= n,
            res@ == s@.take(i as int),
        decreases n - i,
    {
        res.push(s.get_char(i));
        i = i + 1;
        assert(res@ =~= s@.take(i as int));
    }
    assert(s@.take(n as int) =~= s@);
    res
}

/// Whether two string slices hold the same characters.
pub fn str_eq(a: &str, b: &str) -> (res: bool)
    ensures
        res == (a@ == b@),
{
    let n = a.unicode_len();
    if n != b.unicode_len() {
        return false;
    }
    let mut i: usize = 0;
    while i < n
        invariant
            n == a@.len(),
            n == b@.len(),
            i <= n,
            forall|j: int| 0 <= j < i ==> a@[j] == b@[j],
        decreases n - i,
    {
        if a.get_char(i) != b.get_char(i) {
            return false;
        }
        i = i + 1;
    }
    assert(a@ =~= b@);
    true
}

/// The byte an ASCII character encodes to; `0xFF` (never a digit, sign or
/// separator) for any other character.
pub open spec fn ascii_byte(c: char) -> u8 {
    if (c as u32) < 128 {
        c as u8
    } else {
        255u8
    }
}

/// The ASCII bytes of characters `start..end` of `v` (see `ascii_byte`).
pub fn ascii_bytes(v: &[char], start: usize, end: usize) -> (res: Vec<u8>)
    requires
        start <= end <= v@.len(),
    ensures
        res@ == v@.subrange(start as int, end as int).map_values(|c: char| ascii_byte(c)),
{
    let mut res: Vec<u8> = Vec::new();
    let mut i: usize = start;
    while i < end
        invariant
            start <= i <= end <= v@.len(),
            res@ == v@.subrange(start as int, i as int).map_values(|c: char| ascii_byte(c)),
        decreases end - i,
    {
        let c = v[i];
        let b: u8 = if (c as u32) < 128 {
            c as u8
        } else {
            255
        };
        res.push(b);
        i = i + 1;
        assert(res@ =~= v@.subrange(start as int, i as int).map_values(|c: char| ascii_byte(c)));
    }
    res
}

/// Unicode `White_Space`, as `char::is_whitespace` decides it.
pub open spec fn is_unicode_whitespace(c: char) -> bool {
    let u = c as u32;
    (9 <= u <= 13) || u == 32 || u == 0x85 || u == 0xA0 || u == 0x1680 || (0x2000 <= u <= 0x200A)
        || u == 0x2028 || u == 0x2029 || u == 0x202F || u == 0x205F || u == 0x3000
}

/// Whether `c` is Unicode white space.
pub fn is_whitespace(c: char) -> (res: bool)
    ensures
        res == is_unicode_whitespace(c),
{
    let u = c as u32;
    (9 <= u && u <= 13) || u == 32 || u == 0x85 || u == 0xA0 || u == 0x1680 || (0x2000 <= u && u
        <= 0x200A) || u == 0x2028 || u == 0x2029 || u == 0x202F || u == 0x205F || u == 0x3000
}

/// `s` without leading white space.
pub open spec fn spec_trim_start(s: Seq<char>) -> Seq<char>
    decreases s.len(),
{
    if s.len() > 0 && is_unicode_whitespace(s[0]) {
        spec_trim_start(s.drop_first())
    } else {
        s
    }
}

/// `s` without trailing white space.
pub open spec fn spec_trim_end(s: Seq<char>) -> Seq<char>
    decreases s.len(),
{
    if s.len() > 0 && is_unicode_whitespace(s.last()) {
        spec_trim_end(s.drop_last())
    } else {
        s
    }
}

/// `s` without leading and trailing white space (`str::trim`).
pub open spec fn spec_trim(s: Seq<char>) -> Seq<char> {
    spec_trim_end(spec_trim_start(s))
}

/// The bounds of characters `start..end` of `v` once trimmed.
pub fn trim_range(v: &[char], start: usize, end: usize) -> (res: (usize, usize))
    requires
        start <= end <= v@.len(),
    ensures
        start <= res.0 <= res.1 <= end,
        v@.subrange(res.0 as int, res.1 as int) == spec_trim(v@.subrange(start as int, end as int)),
{
    let mut a: usize = start;
    while a < end && is_whitespace(v[a])
        invariant
            start <= a <= end <= v@.len(),
            spec_trim_start(v@.subrange(a as int, end as int)) == spec_trim_start(
                v@.subrange(start as int, end as int),
            ),
        decreases end - a,
    {
        assert(v@.subrange(a as int, end as int).drop_first() =~= v@.subrange(a + 1, end as int));
        a = a + 1;
    }
    let ghost ts = v@.subrange(a as int, end as int);
    assert(spec_trim_start(ts) == ts);
    let mut z: usize = end;
    while z > a && is_whitespace(v[z - 1])
        invariant
            start <= a <= z <= end <= v@.len(),
            ts == v@.subrange(a as int, end as int),
            spec_trim_end(v@.subrange(a as int, z as int)) == spec_trim_end(ts),
        decreases z - a,
    {
        assert(v@.subrange(a as int, z as int).drop_last() =~= v@.subrange(a as int, z - 1));
        z = z - 1;
    }
    (a, z)
}

} // verus!
