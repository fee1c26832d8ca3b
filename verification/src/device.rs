//! hidraw device identification: reading the `HID_ID` line of a sysfs
//! `uevent` and deciding whether a found `(vid, pid)` is one we look for.
use vstd::prelude::*;
use vstd::string::StringSliceAdditionalSpecFns;

use crate::text::{
    find_byte, lemma_first_index_of, parse_radix, spec_first_index_of, spec_from_str_radix,
};

verus! {

/// USB vendor id of the MSI/SteelSeries KLC controllers.
pub const VID_MSI: u16 = 0x1038;

/// The lines of `b` as the standard library's `str::lines` yields them:
/// split after each `\n`, the `\n` (and a `\r` just before it) removed; a
/// final line without `\n` is kept as it is.
pub open spec fn spec_lines(b: Seq<u8>) -> Seq<Seq<u8>>
    decreases b.len(),
{
    if b.len() == 0 {
        Seq::empty()
    } else {
        let i = spec_first_index_of(b, 10u8);
        proof {
            lemma_first_index_of(b, 10u8);
        }
        if i >= b.len() {
            seq![b]
        } else {
            let line = b.take(i);
            let line = if line.len() > 0 && line.last() == 13u8 {
                line.drop_last()
            } else {
                line
            };
            seq![line] + spec_lines(b.skip(i + 1))
        }
    }
}

/// The bytes of `HID_ID=`.
pub open spec fn hid_id_prefix() -> Seq<u8> {
    seq![72u8, 73u8, 68u8, 95u8, 73u8, 68u8, 61u8]
}

/// The line starts with `HID_ID=`.
pub open spec fn is_hid_id_line(l: Seq<u8>) -> bool {
    l.len() >= 7 && l.take(7) == hid_id_prefix()
}

/// The first line that starts with `HID_ID=`.
pub open spec fn spec_find_hid_line(ls: Seq<Seq<u8>>) -> Option<Seq<u8>>
    decreases ls.len(),
{
    if ls.len() == 0 {
        None
    } else if is_hid_id_line(ls[0]) {
        Some(ls[0])
    } else {
        spec_find_hid_line(ls.drop_first())
    }
}

/// The vendor and product fields of `bus:vendor:product[:...]`: the second
/// and third `:`-separated fields, each parsed as a `u32` in hex and cut to
/// its low 16 bits.
pub open spec fn spec_hid_id_fields(rest: Seq<u8>) -> Option<(u16, u16)> {
    let c1 = spec_first_index_of(rest, 58u8);
    if c1 >= rest.len() {
        None
    } else {
        let r1 = rest.skip(c1 + 1);
        let c2 = spec_first_index_of(r1, 58u8);
        if c2 >= r1.len() {
            None
        } else {
            let vid_field = r1.take(c2);
            let r2 = r1.skip(c2 + 1);
            let pid_field = r2.take(spec_first_index_of(r2, 58u8));
            match (
                spec_from_str_radix(vid_field, 16, 0xFFFF_FFFF),
                spec_from_str_radix(pid_field, 16, 0xFFFF_FFFF),
            ) {
                (Some(v), Some(p)) => Some((v as u16, p as u16)),
                _ => None,
            }
        }
    }
}

/// `(vid, pid)` of the first `HID_ID=bus:vendor:product` line of a uevent.
pub open spec fn spec_parse_hid_id(b: Seq<u8>) -> Option<(u16, u16)> {
    match spec_find_hid_line(spec_lines(b)) {
        None => None,
        Some(l) => spec_hid_id_fields(l.skip(7)),
    }
}

fn hid_id_fields(b: &[u8], start: usize, end: usize) -> (res: Option<(u16, u16)>)
    requires
        start <= end <= b@.len(),
    ensures
        res == spec_hid_id_fields(b@.subrange(start as int, end as int)),
{
    let ghost rest = b@.subrange(start as int, end as int);
    let c1 = find_byte(b, start, end, 58);
    if c1 == end - start {
        return None;
    }
    let s1 = start + c1 + 1;
    assert(rest.skip(c1 + 1) =~= b@.subrange(s1 as int, end as int));
    let c2 = find_byte(b, s1, end, 58);
    if c2 == end - s1 {
        return None;
    }
    let s2 = s1 + c2 + 1;
    let ghost r1 = rest.skip(c1 + 1);
    assert(r1.take(c2 as int) =~= b@.subrange(s1 as int, (s1 + c2) as int));
    assert(r1.skip(c2 + 1) =~= b@.subrange(s2 as int, end as int));
    let c3 = find_byte(b, s2, end, 58);
    assert(r1.skip(c2 + 1).take(c3 as int) =~= b@.subrange(s2 as int, (s2 + c3) as int));
    let vid = match parse_radix(b, s1, s1 + c2, 16, 0xFFFF_FFFF) {
        Some(v) => v as u16,
        None => {
            return None;
        },
    };
    let pid = match parse_radix(b, s2, s2 + c3, 16, 0xFFFF_FFFF) {
        Some(p) => p as u16,
        None => {
            return None;
        },
    };
    Some((vid, pid))
}

fn is_hid_id_at(b: &[u8], start: usize, end: usize) -> (res: bool)
    requires
        start <= end <= b@.len(),
    ensures
        res == is_hid_id_line(b@.subrange(start as int, end as int)),
{
    let ghost l = b@.subrange(start as int, end as int);
    if end - start < 7 {
        return false;
    }
    let res = b[start] == 72 && b[start + 1] == 73 && b[start + 2] == 68 && b[start + 3] == 95
        && b[start + 4] == 73 && b[start + 5] == 68 && b[start + 6] == 61;
    assert(res == (l.take(7) =~= hid_id_prefix()));
    res
}

/// Parse the first `HID_ID=0003:00001038:0000113A` line of a uevent into
/// `(vid, pid)`. The bus type is ignored; the vendor/product fields are
/// read as `u32` hex and cut to their low 16 bits.
pub fn parse_hid_id(uevent: &str) -> (res: Option<(u16, u16)>)
    ensures
        res == spec_parse_hid_id(uevent.spec_bytes()),
{
    let b = uevent.as_bytes();
    let n = b.len();
    let ghost whole = b@;
    assert(whole.subrange(0, n as int) =~= whole);
    let mut pos: usize = 0;
    while pos < n
        invariant
            n == b@.len(),
            whole == b@,
            whole == uevent.spec_bytes(),
            pos <= n,
            spec_find_hid_line(spec_lines(whole)) == spec_find_hid_line(
                spec_lines(whole.subrange(pos as int, n as int)),
            ),
        decreases n - pos,
    {
        let ghost rem = whole.subrange(pos as int, n as int);
        let i = find_byte(b, pos, n, 10);
        proof {
            lemma_first_index_of(rem, 10u8);
        }
        let mut line_end = pos + i;
        if i < n - pos && i > 0 && b[pos + i - 1] == 13 {
            line_end = line_end - 1;
        }
        let ghost line = whole.subrange(pos as int, line_end as int);
        let ghost ls = spec_lines(rem);
        proof {
            if i < n - pos {
                assert(rem.take(i as int) =~= whole.subrange(pos as int, (pos + i) as int));
                if i > 0 && b@[pos + i - 1] == 13u8 {
                    assert(rem.take(i as int).drop_last() =~= line);
                }
                assert(rem.skip(i + 1) =~= whole.subrange(pos + i + 1, n as int));
            } else {
                assert(rem =~= line);
            }
            assert(ls[0] == line);
            assert(ls.drop_first() =~= (if i < n - pos {
                spec_lines(whole.subrange(pos + i + 1, n as int))
            } else {
                Seq::empty()
            }));
        }
        if is_hid_id_at(b, pos, line_end) {
            assert(line.skip(7) =~= whole.subrange(pos + 7, line_end as int));
            return hid_id_fields(b, pos + 7, line_end);
        }
        if i == n - pos {
            assert(spec_find_hid_line(Seq::<Seq<u8>>::empty()) is None);
            return None;
        }
        pos = pos + i + 1;
    }
    None
}

/// A found `(vid, pid)` is wanted: the vendor matches and, if a PID list
/// is given, the product is in it.
pub fn hid_id_matches(found_vid: u16, found_pid: u16, vid: u16, pids: Option<&[u16]>) -> (res: bool)
    ensures
        res == (found_vid == vid && match pids {
            None => true,
            Some(list) => list@.contains(found_pid),
        }),
{
    if found_vid != vid {
        return false;
    }
    match pids {
        None => true,
        Some(list) => {
            let mut i: usize = 0;
            while i < list.len()
                invariant
                    found_vid == vid,
                    pids == Some(list),
                    i <= list@.len(),
                    forall|j: int| 0 <= j < i ==> list@[j] != found_pid,
                decreases list@.len() - i,
            {
                if list[i] == found_pid {
                    assert(list@.contains(found_pid)) by {
                        assert(list@[i as int] == found_pid);
                    }
                    return true;
                }
                i = i + 1;
            }
            false
        },
    }
}

} // verus!
