//! Identities in the per-model device table: a model's `vvvv:pppp` USB id,
//! the MSI product ids the table knows, lookup by exact id, and the order
//! of the table by model name. The table's per-channel color corrections
//! are floating point and stay with the program that scales colors.
use vstd::prelude::*;
use vstd::string::StringSliceAdditionalSpecFns;

use crate::command::strings_bytes;
use crate::device::VID_MSI;
use crate::text::{find_byte, lemma_first_index_of, parse_radix, spec_first_index_of, spec_from_str_radix};

verus! {

/// Why a model's USB id was rejected.
#[derive(Debug, Clone, Copy, PartialEq, Eq)]
pub enum UsbIdError {
    /// No `:` between vendor and product id.
    MissingColon,
    /// The vendor id is not a hex `u16`.
    InvalidVid,
    /// The product id is not a hex `u16`.
    InvalidPid,
}

/// A `vvvv:pppp` USB id (hex, no prefix), split at the first `:`.
pub open spec fn spec_usb_id(b: Seq<u8>) -> Result<(u16, u16), UsbIdError> {
    let k = spec_first_index_of(b, 58u8);
    if k >= b.len() {
        Err(UsbIdError::MissingColon)
    } else {
        match spec_from_str_radix(b.take(k), 16, 65535) {
            None => Err(UsbIdError::InvalidVid),
            Some(v) => match spec_from_str_radix(b.skip(k + 1), 16, 65535) {
                None => Err(UsbIdError::InvalidPid),
                Some(p) => Ok((v as u16, p as u16)),
            },
        }
    }
}

/// Parse a model's `vvvv:pppp` hex USB id into `(vid, pid)`.
pub fn parse_usb_id(s: &str) -> (res: Result<(u16, u16), UsbIdError>)
    ensures
        res == spec_usb_id(s.spec_bytes()),
{
    let b = s.as_bytes();
    let n = b.len();
    assert(b@.subrange(0, n as int) =~= b@);
    let k = find_byte(b, 0, n, 58);
    proof {
        lemma_first_index_of(b@, 58u8);
    }
    if k == n {
        return Err(UsbIdError::MissingColon);
    }
    assert(b@.subrange(0, k as int) =~= b@.take(k as int));
    assert(b@.subrange(k + 1, n as int) =~= b@.skip(k + 1));
    let vid = match parse_radix(b, 0, k, 16, 65535) {
        Some(v) => v as u16,
        None => {
            return Err(UsbIdError::InvalidVid);
        },
    };
    let pid = match parse_radix(b, k + 1, n, 16, 65535) {
        Some(v) => v as u16,
        None => {
            return Err(UsbIdError::InvalidPid);
        },
    };
    Ok((vid, pid))
}

/// The product ids of the models under the MSI vendor id, in table order.
pub open spec fn spec_msi_pids(ids: Seq<(u16, u16)>) -> Seq<u16>
    decreases ids.len(),
{
    if ids.len() == 0 {
        Seq::empty()
    } else {
        let prev = spec_msi_pids(ids.drop_last());
        if ids.last().0 == VID_MSI {
            prev.push(ids.last().1)
        } else {
            prev
        }
    }
}

/// The product ids of the table's models (given by their `(vid, pid)`)
/// under the MSI vendor id, in table order.
pub fn msi_pids(ids: &[(u16, u16)]) -> (res: Vec<u16>)
    ensures
        res@ == spec_msi_pids(ids@),
{
    let mut out: Vec<u16> = Vec::new();
    let mut i: usize = 0;
    assert(ids@.take(0) =~= Seq::<(u16, u16)>::empty());
    while i < ids.len()
        invariant
            i <= ids@.len(),
            out@ == spec_msi_pids(ids@.take(i as int)),
        decreases ids@.len() - i,
    {
        assert(ids@.take(i + 1).drop_last() =~= ids@.take(i as int));
        assert(ids@.take(i + 1).last() == ids@[i as int]);
        let (vid, pid) = ids[i];
        if vid == VID_MSI {
            out.push(pid);
        }
        i = i + 1;
    }
    assert(ids@.take(ids@.len() as int) =~= ids@);
    out
}

/// Index of the first model whose id is exactly `(vid, pid)`.
pub fn find_model(ids: &[(u16, u16)], vid: u16, pid: u16) -> (res: Option<usize>)
    ensures
        match res {
            Some(i) => i == spec_first_index_of(ids@, (vid, pid)) && i < ids@.len(),
            None => spec_first_index_of(ids@, (vid, pid)) == ids@.len(),
        },
{
    proof {
        lemma_first_index_of(ids@, (vid, pid));
    }
    let mut i: usize = 0;
    while i < ids.len()
        invariant
            i <= ids@.len(),
            forall|j: int| 0 <= j < i ==> ids@[j] != (vid, pid),
            0 <= spec_first_index_of(ids@, (vid, pid)) <= ids@.len(),
            spec_first_index_of(ids@, (vid, pid)) < ids@.len() ==> ids@[spec_first_index_of(
                ids@,
                (vid, pid),
            )] == (vid, pid),
            forall|j: int|
                0 <= j < spec_first_index_of(ids@, (vid, pid)) ==> ids@[j] != (vid, pid),
        decreases ids@.len() - i,
    {
        let (v, p) = ids[i];
        if v == vid && p == pid {
            assert(ids@[i as int] == (vid, pid));
            return Some(i);
        }
        i = i + 1;
    }
    None
}

/// Why a key-coordinate entry's HID usage code was rejected.
#[derive(Debug, Clone, Copy, PartialEq, Eq)]
pub enum CoordHidError {
    /// Not a decimal `u32`.
    NotNumeric,
    /// A code above 255.
    OutOfRange(u32),
}

/// A key-coordinate entry's HID usage code: a decimal `u32` (an optional
/// leading `+`) that must fit a byte.
pub open spec fn spec_coord_hid(b: Seq<u8>) -> Result<u8, CoordHidError> {
    match spec_from_str_radix(b, 10, u32::MAX as nat) {
        None => Err(CoordHidError::NotNumeric),
        Some(v) => if v > 255 {
            Err(CoordHidError::OutOfRange(v as u32))
        } else {
            Ok(v as u8)
        },
    }
}

/// Parse the HID usage code that keys a model's key-coordinate entry.
pub fn parse_coord_hid(s: &str) -> (res: Result<u8, CoordHidError>)
    ensures
        res == spec_coord_hid(s.spec_bytes()),
{
    let b = s.as_bytes();
    assert(b@.subrange(0, b@.len() as int) =~= b@);
    match parse_radix(b, 0, b.len(), 10, 4294967295) {
        None => Err(CoordHidError::NotNumeric),
        Some(v) => if v > 255 {
            Err(CoordHidError::OutOfRange(v as u32))
        } else {
            Ok(v as u8)
        },
    }
}

/// `a` sorts strictly before `b` in the byte-wise lexicographic order by
/// which `str` compares strings: at the first byte where they differ the
/// byte of `a` is smaller, or `a` is a proper prefix of `b`.
pub open spec fn bytes_lt(a: Seq<u8>, b: Seq<u8>) -> bool
    decreases a.len(),
{
    if b.len() == 0 {
        false
    } else if a.len() == 0 {
        true
    } else if a[0] != b[0] {
        a[0] < b[0]
    } else {
        bytes_lt(a.drop_first(), b.drop_first())
    }
}

/// Nothing sorts strictly before itself.
proof fn lemma_bytes_lt_irreflexive(a: Seq<u8>)
    ensures
        !bytes_lt(a, a),
    decreases a.len(),
{
    if a.len() > 0 {
        lemma_bytes_lt_irreflexive(a.drop_first());
    }
}

/// The byte order is transitive.
proof fn lemma_bytes_lt_transitive(a: Seq<u8>, b: Seq<u8>, c: Seq<u8>)
    requires
        bytes_lt(a, b),
        bytes_lt(b, c),
    ensures
        bytes_lt(a, c),
    decreases a.len(),
{
    if a.len() > 0 && a[0] == b[0] && b[0] == c[0] {
        lemma_bytes_lt_transitive(a.drop_first(), b.drop_first(), c.drop_first());
    }
}

/// Whether `a` sorts strictly before `b` (see `bytes_lt`).
fn bytes_less(a: &[u8], b: &[u8]) -> (res: bool)
    ensures
        res == bytes_lt(a@, b@),
{
    let mut i: usize = 0;
    assert(a@.skip(0) =~= a@ && b@.skip(0) =~= b@);
    loop
        invariant
            i <= a@.len(),
            i <= b@.len(),
            bytes_lt(a@, b@) == bytes_lt(a@.skip(i as int), b@.skip(i as int)),
        decreases a@.len() - i,
    {
        if i == b.len() {
            return false;
        }
        if i == a.len() {
            return true;
        }
        assert(a@.skip(i as int)[0] == a@[i as int] && b@.skip(i as int)[0] == b@[i as int]);
        if a[i] != b[i] {
            return a[i] < b[i];
        }
        assert(a@.skip(i as int).drop_first() =~= a@.skip(i + 1));
        assert(b@.skip(i as int).drop_first() =~= b@.skip(i + 1));
        i = i + 1;
    }
}

/// `order` lists every index of `names` once, by name in byte order (see
/// `bytes_lt`), indices of equal names in increasing order: the order a
/// stable sort by name gives.
pub open spec fn is_name_order(names: Seq<Seq<u8>>, order: Seq<usize>) -> bool {
    &&& order.len() == names.len()
    &&& forall|i: int| 0 <= i < order.len() ==> #[trigger] order[i] < names.len()
    &&& forall|i: int, j: int| 0 <= i < j < order.len() ==> order[i] != order[j]
    &&& forall|i: int, j: int|
        0 <= i < j < order.len() ==> !bytes_lt(names[order[j] as int], names[order[i] as int])
    &&& forall|i: int, j: int|
        0 <= i < j < order.len() && names[order[i] as int] == names[order[j] as int] ==> order[i]
            < order[j]
}

/// The indices of `names` in a stable sort by name, compared as `str`
/// compares strings: the order of the model table.
pub fn name_order(names: &Vec<String>) -> (res: Vec<usize>)
    ensures
        is_name_order(strings_bytes(names@), res@),
{
    let ghost ns = strings_bytes(names@);
    let mut out: Vec<usize> = Vec::new();
    let mut k: usize = 0;
    while k < names.len()
        invariant
            k <= names@.len(),
            ns == strings_bytes(names@),
            out@.len() == k,
            forall|i: int| 0 <= i < out@.len() ==> #[trigger] out@[i] < k,
            forall|i: int, j: int| 0 <= i < j < out@.len() ==> out@[i] != out@[j],
            forall|i: int, j: int|
                0 <= i < j < out@.len() ==> !bytes_lt(ns[out@[j] as int], ns[out@[i] as int]),
            forall|i: int, j: int|
                0 <= i < j < out@.len() && ns[out@[i] as int] == ns[out@[j] as int] ==> out@[i]
                    < out@[j],
        decreases names@.len() - k,
    {
        let kb = names[k].as_str().as_bytes();
        assert(kb@ == ns[k as int]);
        let mut p: usize = 0;
        loop
            invariant
                k < names@.len(),
                ns == strings_bytes(names@),
                kb@ == ns[k as int],
                p <= out@.len(),
                forall|i: int| 0 <= i < out@.len() ==> #[trigger] out@[i] < k,
                forall|i: int| 0 <= i < p ==> !bytes_lt(ns[k as int], #[trigger] ns[out@[i] as int]),
            ensures
                p <= out@.len(),
                forall|i: int| 0 <= i < p ==> !bytes_lt(ns[k as int], #[trigger] ns[out@[i] as int]),
                p < out@.len() ==> bytes_lt(ns[k as int], ns[out@[p as int] as int]),
            decreases out@.len() - p,
        {
            if p == out.len() {
                break;
            }
            let q = out[p];
            assert(names@[q as int]@ == names@[q as int]@);
            let qb = names[q].as_str().as_bytes();
            assert(qb@ == ns[q as int]);
            if bytes_less(kb, qb) {
                break;
            }
            p = p + 1;
        }
        let ghost old_out = out@;
        out.insert(p, k);
        proof {
            let o = old_out;
            let nw = out@;
            assert(nw == o.insert(p as int, k));
            assert forall|i: int| 0 <= i < nw.len() implies #[trigger] nw[i] < k + 1 by {
                if i < p {
                    assert(nw[i] == o[i]);
                } else if i > p {
                    assert(nw[i] == o[i - 1]);
                }
            }
            assert forall|i: int, j: int| 0 <= i < j < nw.len() implies nw[i] != nw[j] by {
                if i < p {
                    assert(nw[i] == o[i]);
                } else if i > p {
                    assert(nw[i] == o[i - 1]);
                }
                if j < p {
                    assert(nw[j] == o[j]);
                } else if j > p {
                    assert(nw[j] == o[j - 1]);
                }
            }
            assert forall|i: int, j: int| 0 <= i < j < nw.len() implies !bytes_lt(
                ns[nw[j] as int],
                ns[nw[i] as int],
            ) && (ns[nw[i] as int] == ns[nw[j] as int] ==> nw[i] < nw[j]) by {
                if j < p {
                    assert(nw[i] == o[i] && nw[j] == o[j]);
                } else if j == p {
                    assert(nw[i] == o[i]);
                    assert(!bytes_lt(ns[k as int], ns[o[i] as int]));
                    assert(o[i] < k);
                } else if i < p {
                    assert(nw[i] == o[i] && nw[j] == o[j - 1]);
                } else if i == p {
                    assert(nw[j] == o[j - 1]);
                    let x = ns[o[j - 1] as int];
                    let y = ns[o[p as int] as int];
                    assert(bytes_lt(ns[k as int], y));
                    if j - 1 > p {
                        assert(!bytes_lt(x, y));
                    }
                    if bytes_lt(x, ns[k as int]) {
                        lemma_bytes_lt_transitive(x, ns[k as int], y);
                        lemma_bytes_lt_irreflexive(y);
                    }
                    if x == ns[k as int] {
                        lemma_bytes_lt_irreflexive(y);
                    }
                } else {
                    assert(nw[i] == o[i - 1] && nw[j] == o[j - 1]);
                }
            }
        }
        k = k + 1;
    }
    out
}

} // verus!
