//! Keymap and region-group layout data: symbolic key names (`CLK_*`) to HID
//! usage codes per keymap, the 6-way partition of HID usage codes that the
//! `0x0E` bulk-color report groups keys into, key-name resolution and hex
//! color parsing.
use vstd::prelude::*;
use vstd::string::StringSliceAdditionalSpecFns;

use crate::text::{digit, parse_radix, spec_digit, spec_from_str_radix, str_eq};

verus! {

/// Keymap used when none is named (also covers the GS66).
pub const DEFAULT_KEYMAP: &'static str = "GE73Keys";

/// Why a layout lookup failed.
#[derive(Debug, Clone, Copy, PartialEq, Eq)]
pub enum LayoutError {
    /// No keymap of the requested name.
    UnknownKeymap,
    /// No key of the requested name in the keymap.
    UnknownKey,
    /// A HID usage code above 255.
    HidOutOfRange(u32),
    /// `Group<n>_Offset` (n = 1..=6) is missing from the region groups.
    MissingGroup(u8),
}

/// One named key of a keymap.
pub struct KeyCode {
    pub name: String,
    pub hid: u32,
}

/// A named keymap: key names to HID usage codes.
pub struct Keymap {
    pub name: String,
    pub keys: Vec<KeyCode>,
}

/// A named region group: a list of HID usage codes.
pub struct RegionGroup {
    pub name: String,
    pub hids: Vec<u32>,
}

/// Layout data plus lookups. A layout built by `Layout::new` holds no name
/// twice (see `names_unique`), so the first keymap, key or region group of
/// a name is the only one.
pub struct Layout {
    pub keymaps: Vec<Keymap>,
    pub region_groups: Vec<RegionGroup>,
}

/// No two keys share a name.
pub open spec fn keys_unique(keys: Seq<KeyCode>) -> bool {
    forall|i: int, j: int| 0 <= i < j < keys.len() ==> keys[i].name@ != keys[j].name@
}

/// No two keymaps share a name, no two keys of a keymap share a name, and
/// no two region groups share a name: each names a map's key.
pub open spec fn names_unique(keymaps: Seq<Keymap>, groups: Seq<RegionGroup>) -> bool {
    &&& forall|i: int, j: int| 0 <= i < j < keymaps.len() ==> keymaps[i].name@ != keymaps[j].name@
    &&& forall|k: int| 0 <= k < keymaps.len() ==> #[trigger] keys_unique(keymaps[k].keys@)
    &&& forall|i: int, j: int| 0 <= i < j < groups.len() ==> groups[i].name@ != groups[j].name@
}

/// The strings are pairwise distinct.
pub open spec fn strs_distinct(names: Seq<&str>) -> bool {
    forall|i: int, j: int| 0 <= i < j < names.len() ==> names[i]@ != names[j]@
}

/// Whether no two of `names` are equal.
fn distinct_strs(names: &Vec<&str>) -> (res: bool)
    ensures
        res == strs_distinct(names@),
{
    let n = names.len();
    let mut i: usize = 0;
    while i < n
        invariant
            n == names@.len(),
            i <= n,
            forall|a: int, b: int| 0 <= a < i && a < b < n ==> names@[a]@ != names@[b]@,
        decreases n - i,
    {
        let mut j: usize = i + 1;
        while j < n
            invariant
                n == names@.len(),
                i < n,
                i + 1 <= j <= n,
                forall|a: int, b: int| 0 <= a < i && a < b < n ==> names@[a]@ != names@[b]@,
                forall|b: int| i < b < j ==> names@[i as int]@ != names@[b]@,
            decreases n - j,
        {
            if str_eq(names[i], names[j]) {
                return false;
            }
            j = j + 1;
        }
        i = i + 1;
    }
    true
}

/// The names of the keys, in order.
fn key_names(keys: &Vec<KeyCode>) -> (res: Vec<&str>)
    ensures
        res@.len() == keys@.len(),
        forall|i: int| 0 <= i < res@.len() ==> res@[i]@ == #[trigger] keys@[i].name@,
{
    let mut res: Vec<&str> = Vec::new();
    let mut i: usize = 0;
    while i < keys.len()
        invariant
            i <= keys@.len(),
            res@.len() == i,
            forall|j: int| 0 <= j < i ==> res@[j]@ == #[trigger] keys@[j].name@,
        decreases keys@.len() - i,
    {
        res.push(keys[i].name.as_str());
        i = i + 1;
    }
    res
}

/// The names of the region groups, in order.
fn group_names(groups: &Vec<RegionGroup>) -> (res: Vec<&str>)
    ensures
        res@.len() == groups@.len(),
        forall|i: int| 0 <= i < res@.len() ==> res@[i]@ == #[trigger] groups@[i].name@,
{
    let mut res: Vec<&str> = Vec::new();
    let mut i: usize = 0;
    while i < groups.len()
        invariant
            i <= groups@.len(),
            res@.len() == i,
            forall|j: int| 0 <= j < i ==> res@[j]@ == #[trigger] groups@[j].name@,
        decreases groups@.len() - i,
    {
        res.push(groups[i].name.as_str());
        i = i + 1;
    }
    res
}

/// Whether no name occurs twice (see `names_unique`).
fn has_unique_names(keymaps: &Vec<Keymap>, groups: &Vec<RegionGroup>) -> (res: bool)
    ensures
        res == names_unique(keymaps@, groups@),
{
    let mut names: Vec<&str> = Vec::new();
    let mut k: usize = 0;
    while k < keymaps.len()
        invariant
            k <= keymaps@.len(),
            names@.len() == k,
            forall|j: int| 0 <= j < k ==> names@[j]@ == #[trigger] keymaps@[j].name@,
            forall|j: int| 0 <= j < k ==> #[trigger] keys_unique(keymaps@[j].keys@),
        decreases keymaps@.len() - k,
    {
        let keys = key_names(&keymaps[k].keys);
        if !distinct_strs(&keys) {
            assert(!keys_unique(keymaps@[k as int].keys@)) by {
                let (a, b) = choose|a: int, b: int|
                    0 <= a < b < keys@.len() && keys@[a]@ == keys@[b]@;
                assert(keymaps@[k as int].keys@[a].name@ == keymaps@[k as int].keys@[b].name@);
            }
            return false;
        }
        assert(keys_unique(keymaps@[k as int].keys@)) by {
            assert forall|a: int, b: int| 0 <= a < b < keymaps@[k as int].keys@.len() implies
                keymaps@[k as int].keys@[a].name@ != keymaps@[k as int].keys@[b].name@ by {
                assert(keys@[a]@ == keymaps@[k as int].keys@[a].name@);
                assert(keys@[b]@ == keymaps@[k as int].keys@[b].name@);
            }
        }
        names.push(keymaps[k].name.as_str());
        k = k + 1;
    }
    if !distinct_strs(&names) {
        proof {
            let (a, b) = choose|a: int, b: int| 0 <= a < b < names@.len() && names@[a]@ == names@[b]@;
            assert(keymaps@[a].name@ == keymaps@[b].name@);
        }
        return false;
    }
    let gnames = group_names(groups);
    if !distinct_strs(&gnames) {
        proof {
            let (a, b) = choose|a: int, b: int|
                0 <= a < b < gnames@.len() && gnames@[a]@ == gnames@[b]@;
            assert(groups@[a].name@ == groups@[b].name@);
        }
        return false;
    }
    assert forall|a: int, b: int| 0 <= a < b < keymaps@.len() implies keymaps@[a].name@
        != keymaps@[b].name@ by {
        assert(names@[a]@ != names@[b]@);
    }
    assert forall|a: int, b: int| 0 <= a < b < groups@.len() implies groups@[a].name@
        != groups@[b].name@ by {
        assert(gnames@[a]@ != gnames@[b]@);
    }
    true
}

/// The first keymap named `name`.
pub open spec fn spec_find_keymap(ks: Seq<Keymap>, name: Seq<char>) -> Option<Keymap>
    decreases ks.len(),
{
    if ks.len() == 0 {
        None
    } else if ks[0].name@ == name {
        Some(ks[0])
    } else {
        spec_find_keymap(ks.drop_first(), name)
    }
}

/// The first key named `name`.
pub open spec fn spec_find_key(ks: Seq<KeyCode>, name: Seq<char>) -> Option<KeyCode>
    decreases ks.len(),
{
    if ks.len() == 0 {
        None
    } else if ks[0].name@ == name {
        Some(ks[0])
    } else {
        spec_find_key(ks.drop_first(), name)
    }
}

/// The first region group named `name`.
pub open spec fn spec_find_group(gs: Seq<RegionGroup>, name: Seq<char>) -> Option<RegionGroup>
    decreases gs.len(),
{
    if gs.len() == 0 {
        None
    } else if gs[0].name@ == name {
        Some(gs[0])
    } else {
        spec_find_group(gs.drop_first(), name)
    }
}

/// The character `'1' + i` for `i` in `0..6`.
pub open spec fn group_digit(i: int) -> char {
    if i == 0 {
        '1'
    } else if i == 1 {
        '2'
    } else if i == 2 {
        '3'
    } else if i == 3 {
        '4'
    } else if i == 4 {
        '5'
    } else {
        '6'
    }
}

/// The name `Group<i+1>_Offset` of region group `i` (0-based).
pub open spec fn spec_group_name(i: int) -> Seq<char> {
    seq!['G', 'r', 'o', 'u', 'p', group_digit(i), '_', 'O', 'f', 'f', 's', 'e', 't']
}

/// A HID usage code as a byte, or the out-of-range error.
pub open spec fn spec_hid_to_u8(hid: u32) -> Result<u8, LayoutError> {
    if hid <= 255 {
        Ok(hid as u8)
    } else {
        Err(LayoutError::HidOutOfRange(hid))
    }
}

/// Every HID usage code as a byte; the first out-of-range code is the error.
pub open spec fn spec_hids_to_u8(hids: Seq<u32>) -> Result<Seq<u8>, LayoutError>
    decreases hids.len(),
{
    if hids.len() == 0 {
        Ok(Seq::empty())
    } else {
        match spec_hid_to_u8(hids[0]) {
            Err(e) => Err(e),
            Ok(h) => match spec_hids_to_u8(hids.drop_first()) {
                Err(e) => Err(e),
                Ok(rest) => Ok(seq![h] + rest),
            },
        }
    }
}

/// Region groups `i..6`, in order: the first missing group or out-of-range
/// code is the error.
pub open spec fn spec_groups_from(gs: Seq<RegionGroup>, i: nat) -> Result<Seq<Seq<u8>>, LayoutError>
    decreases 6 - i,
{
    if i >= 6 {
        Ok(Seq::empty())
    } else {
        match spec_find_group(gs, spec_group_name(i as int)) {
            None => Err(LayoutError::MissingGroup((i + 1) as u8)),
            Some(g) => match spec_hids_to_u8(g.hids@) {
                Err(e) => Err(e),
                Ok(hs) => match spec_groups_from(gs, i + 1) {
                    Err(e) => Err(e),
                    Ok(rest) => Ok(seq![hs] + rest),
                },
            },
        }
    }
}

/// A HID literal: `0x`/`0X`-prefixed hex, or a non-empty run of decimal
/// digits, as a byte.
pub open spec fn spec_parse_hid_literal(b: Seq<u8>) -> Option<u8> {
    if b.len() >= 2 && b[0] == 48u8 && (b[1] == 120u8 || b[1] == 88u8) {
        match spec_from_str_radix(b.skip(2), 16, 255) {
            Some(v) => Some(v as u8),
            None => None,
        }
    } else if b.len() > 0 && (forall|i: int| 0 <= i < b.len() ==> 48u8 <= #[trigger] b[i] <= 57u8) {
        match spec_from_str_radix(b, 10, 255) {
            Some(v) => Some(v as u8),
            None => None,
        }
    } else {
        None
    }
}

/// Parse a bare HID literal: decimal (`41`) or `0x`-prefixed hex (`0x29`).
pub fn parse_hid_literal(s: &str) -> (res: Option<u8>)
    ensures
        res == spec_parse_hid_literal(s.spec_bytes()),
{
    let b = s.as_bytes();
    let n = b.len();
    if n >= 2 && b[0] == 48 && (b[1] == 120 || b[1] == 88) {
        assert(b@.subrange(2, n as int) =~= b@.skip(2));
        match parse_radix(b, 2, n, 16, 255) {
            Some(v) => Some(v as u8),
            None => None,
        }
    } else {
        if n == 0 {
            return None;
        }
        let mut i: usize = 0;
        while i < n
            invariant
                n == b@.len(),
                b@ == s.spec_bytes(),
                n > 0,
                !(b@.len() >= 2 && b@[0] == 48u8 && (b@[1] == 120u8 || b@[1] == 88u8)),
                i <= n,
                forall|j: int| 0 <= j < i ==> 48u8 <= #[trigger] b@[j] <= 57u8,
            decreases n - i,
        {
            if !(48 <= b[i] && b[i] <= 57) {
                assert(!(48u8 <= b@[i as int] <= 57u8));
                return None;
            }
            i = i + 1;
        }
        assert(b@.subrange(0, n as int) =~= b@);
        match parse_radix(b, 0, n, 10, 255) {
            Some(v) => Some(v as u8),
            None => None,
        }
    }
}

/// A HID usage code as a byte.
pub fn hid_to_u8(hid: u32) -> (res: Result<u8, LayoutError>)
    ensures
        res == spec_hid_to_u8(hid),
{
    if hid <= 255 {
        Ok(hid as u8)
    } else {
        Err(LayoutError::HidOutOfRange(hid))
    }
}

/// Why a hex color was rejected.
#[derive(Debug, Clone, Copy, PartialEq, Eq)]
pub enum ColorError {
    /// Not 6 bytes once a leading `#` is removed.
    WrongLength,
    /// The red pair is not a hex byte.
    InvalidRed,
    /// The green pair is not a hex byte.
    InvalidGreen,
    /// The blue pair is not a hex byte.
    InvalidBlue,
}

/// The bytes of a color argument with one leading `#` removed.
pub open spec fn spec_strip_hash(b: Seq<u8>) -> Seq<u8> {
    if b.len() > 0 && b[0] == 35u8 {
        b.drop_first()
    } else {
        b
    }
}

/// Two hex digits (`0-9`, `a-f`, `A-F`) as the byte they spell, high digit
/// first; `None` if either byte is not a hex digit.
pub open spec fn spec_hex_pair(hi: u8, lo: u8) -> Option<u8> {
    match (spec_digit(hi, 16), spec_digit(lo, 16)) {
        (Some(h), Some(l)) => Some((h * 16 + l) as u8),
        _ => None,
    }
}

/// `RRGGBB`, optionally `#`-prefixed, as `(r, g, b)`: exactly six hex
/// digits once the `#` is removed; the first pair that is not two hex
/// digits names the error.
pub open spec fn spec_parse_hex_color(b: Seq<u8>) -> Result<(u8, u8, u8), ColorError> {
    let t = spec_strip_hash(b);
    if t.len() != 6 {
        Err(ColorError::WrongLength)
    } else {
        match spec_hex_pair(t[0], t[1]) {
            None => Err(ColorError::InvalidRed),
            Some(r) => match spec_hex_pair(t[2], t[3]) {
                None => Err(ColorError::InvalidGreen),
                Some(g) => match spec_hex_pair(t[4], t[5]) {
                    None => Err(ColorError::InvalidBlue),
                    Some(bl) => Ok((r, g, bl)),
                },
            },
        }
    }
}

/// Two hex digits as the byte they spell.
fn hex_pair(hi: u8, lo: u8) -> (res: Option<u8>)
    ensures
        res == spec_hex_pair(hi, lo),
{
    match (digit(hi, 16), digit(lo, 16)) {
        (Some(h), Some(l)) => Some((h * 16 + l) as u8),
        _ => None,
    }
}

/// Parse an `RRGGBB` (optionally `#`-prefixed) hex color into `(r, g, b)`.
/// Anything but six hex digits after the optional `#` is an error.
pub fn parse_hex_color(s: &str) -> (res: Result<(u8, u8, u8), ColorError>)
    ensures
        res == spec_parse_hex_color(s.spec_bytes()),
{
    let b = s.as_bytes();
    assert(b@.skip(0) =~= b@);
    hex_color_from(b, 0)
}

/// Parse the hex color held by bytes `from..` of `b`.
pub fn hex_color_from(b: &[u8], from: usize) -> (res: Result<(u8, u8, u8), ColorError>)
    requires
        from <= b@.len(),
    ensures
        res == spec_parse_hex_color(b@.skip(from as int)),
{
    let n = b.len();
    let start: usize = if from < n && b[from] == 35 {
        from + 1
    } else {
        from
    };
    let ghost t = spec_strip_hash(b@.skip(from as int));
    assert(t =~= b@.subrange(start as int, n as int));
    if n - start != 6 {
        return Err(ColorError::WrongLength);
    }
    let r = match hex_pair(b[start], b[start + 1]) {
        Some(v) => v,
        None => {
            return Err(ColorError::InvalidRed);
        },
    };
    let g = match hex_pair(b[start + 2], b[start + 3]) {
        Some(v) => v,
        None => {
            return Err(ColorError::InvalidGreen);
        },
    };
    let bl = match hex_pair(b[start + 4], b[start + 5]) {
        Some(v) => v,
        None => {
            return Err(ColorError::InvalidBlue);
        },
    };
    Ok((r, g, bl))
}

/// Whether `name` is `Group<i+1>_Offset`.
fn is_group_name(name: &str, i: usize) -> (res: bool)
    requires
        i < 6,
    ensures
        res == (name@ == spec_group_name(i as int)),
{
    let expected: &str = if i == 0 {
        "Group1_Offset"
    } else if i == 1 {
        "Group2_Offset"
    } else if i == 2 {
        "Group3_Offset"
    } else if i == 3 {
        "Group4_Offset"
    } else if i == 4 {
        "Group5_Offset"
    } else {
        "Group6_Offset"
    };
    proof {
        reveal_strlit("Group1_Offset");
        reveal_strlit("Group2_Offset");
        reveal_strlit("Group3_Offset");
        reveal_strlit("Group4_Offset");
        reveal_strlit("Group5_Offset");
        reveal_strlit("Group6_Offset");
        assert(expected@ =~= spec_group_name(i as int));
    }
    str_eq(name, expected)
}

impl Layout {
    /// No name occurs twice in the layout (see `names_unique`).
    pub open spec fn wf(&self) -> bool {
        names_unique(self.keymaps@, self.region_groups@)
    }

    /// Layout data from its keymaps and region groups; `None` when a name
    /// occurs twice (see `names_unique`).
    pub fn new(keymaps: Vec<Keymap>, region_groups: Vec<RegionGroup>) -> (res: Option<Self>)
        ensures
            res is Some <==> names_unique(keymaps@, region_groups@),
            res matches Some(l) ==> l.keymaps@ == keymaps@ && l.region_groups@ == region_groups@
                && l.wf(),
    {
        if has_unique_names(&keymaps, &region_groups) {
            Some(Layout { keymaps, region_groups })
        } else {
            None
        }
    }

    /// Names of all keymaps, in order.
    pub fn keymap_names(&self) -> (res: Vec<&str>)
        ensures
            res@.len() == self.keymaps@.len(),
            forall|i: int| 0 <= i < res@.len() ==> res@[i]@ == #[trigger] self.keymaps@[i].name@,
    {
        let mut res: Vec<&str> = Vec::new();
        let mut i: usize = 0;
        while i < self.keymaps.len()
            invariant
                i <= self.keymaps@.len(),
                res@.len() == i,
                forall|j: int| 0 <= j < i ==> res@[j]@ == #[trigger] self.keymaps@[j].name@,
            decreases self.keymaps@.len() - i,
        {
            res.push(self.keymaps[i].name.as_str());
            i = i + 1;
        }
        res
    }

    fn find_group(&self, i: usize) -> (res: Option<&RegionGroup>)
        requires
            i < 6,
        ensures
            match spec_find_group(self.region_groups@, spec_group_name(i as int)) {
                Some(g) => res == Some(&g),
                None => res is None,
            },
    {
        let gs = &self.region_groups;
        let ghost name = spec_group_name(i as int);
        assert(gs@.skip(0) =~= gs@);
        let mut j: usize = 0;
        while j < gs.len()
            invariant
                i < 6,
                gs@ == self.region_groups@,
                name == spec_group_name(i as int),
                j <= gs@.len(),
                spec_find_group(gs@, name) == spec_find_group(gs@.skip(j as int), name),
            decreases gs@.len() - j,
        {
            assert(gs@.skip(j as int).drop_first() =~= gs@.skip(j + 1));
            assert(gs@.skip(j as int)[0] == gs@[j as int]);
            if is_group_name(gs[j].name.as_str(), i) {
                return Some(&gs[j]);
            }
            j = j + 1;
        }
        None
    }

    /// The six region groups, in `Group1_Offset..Group6_Offset` order, each
    /// as HID usage codes; the first missing group or out-of-range code is
    /// the error.
    pub fn groups(&self) -> (res: Result<[Vec<u8>; 6], LayoutError>)
        ensures
            match spec_groups_from(self.region_groups@, 0) {
                Ok(gs) => res is Ok && gs.len() == 6 && forall|i: int|
                    0 <= i < 6 ==> (#[trigger] res->Ok_0[i])@ == gs[i],
                Err(e) => res == Err::<[Vec<u8>; 6], LayoutError>(e),
            },
    {
        let mut out: [Vec<u8>; 6] = [Vec::new(), Vec::new(), Vec::new(), Vec::new(), Vec::new(), Vec::new()];
        let ghost rg = self.region_groups@;
        let ghost mut prefix: Seq<Seq<u8>> = Seq::empty();
        proof {
            if let Ok(rest) = spec_groups_from(rg, 0) {
                assert(prefix + rest =~= rest);
            }
        }
        let mut i: usize = 0;
        while i < 6
            invariant
                i <= 6,
                rg == self.region_groups@,
                prefix.len() == i,
                forall|j: int| 0 <= j < i ==> (#[trigger] out[j])@ == prefix[j],
                spec_groups_from(rg, 0) == match spec_groups_from(rg, i as nat) {
                    Ok(rest) => Ok(prefix + rest),
                    Err(e) => Err::<Seq<Seq<u8>>, LayoutError>(e),
                },
            decreases 6 - i,
        {
            let g = match self.find_group(i) {
                Some(g) => g,
                None => {
                    return Err(LayoutError::MissingGroup((i + 1) as u8));
                },
            };
            let hs = match hids_to_u8(&g.hids) {
                Ok(hs) => hs,
                Err(e) => {
                    return Err(e);
                },
            };
            proof {
                if let Ok(rest) = spec_groups_from(rg, (i + 1) as nat) {
                    assert(prefix + (seq![hs@] + rest) =~= prefix.push(hs@) + rest);
                }
                prefix = prefix.push(hs@);
            }
            out[i] = hs;
            i = i + 1;
        }
        assert(prefix + Seq::<Seq<u8>>::empty() =~= prefix);
        Ok(out)
    }

    fn find_keymap(&self, keymap_name: &str) -> (res: Option<&Keymap>)
        ensures
            match spec_find_keymap(self.keymaps@, keymap_name@) {
                Some(k) => res == Some(&k),
                None => res is None,
            },
    {
        let ks = &self.keymaps;
        assert(ks@.skip(0) =~= ks@);
        let mut j: usize = 0;
        while j < ks.len()
            invariant
                ks@ == self.keymaps@,
                j <= ks@.len(),
                spec_find_keymap(ks@, keymap_name@) == spec_find_keymap(ks@.skip(j as int), keymap_name@),
            decreases ks@.len() - j,
        {
            assert(ks@.skip(j as int).drop_first() =~= ks@.skip(j + 1));
            assert(ks@.skip(j as int)[0] == ks@[j as int]);
            if str_eq(ks[j].name.as_str(), keymap_name) {
                return Some(&ks[j]);
            }
            j = j + 1;
        }
        None
    }

    /// Resolve a key name to its HID usage code within `keymap_name`. A bare
    /// decimal or `0x` hex HID literal resolves to itself in any keymap;
    /// otherwise the keymap and the key are looked up by name.
    pub fn resolve_key(&self, keymap_name: &str, name: &str) -> (res: Result<u8, LayoutError>)
        ensures
            res == spec_resolve_key(self, keymap_name@, name@, name.spec_bytes()),
    {
        if let Some(hid) = parse_hid_literal(name) {
            return Ok(hid);
        }
        let keymap = match self.find_keymap(keymap_name) {
            Some(k) => k,
            None => {
                return Err(LayoutError::UnknownKeymap);
            },
        };
        let keys = &keymap.keys;
        assert(keys@.skip(0) =~= keys@);
        let mut j: usize = 0;
        while j < keys.len()
            invariant
                spec_parse_hid_literal(name.spec_bytes()) is None,
                spec_find_keymap(self.keymaps@, keymap_name@) == Some(*keymap),
                keys@ == keymap.keys@,
                j <= keys@.len(),
                spec_find_key(keys@, name@) == spec_find_key(keys@.skip(j as int), name@),
            decreases keys@.len() - j,
        {
            assert(keys@.skip(j as int).drop_first() =~= keys@.skip(j + 1));
            assert(keys@.skip(j as int)[0] == keys@[j as int]);
            if str_eq(keys[j].name.as_str(), name) {
                return hid_to_u8(keys[j].hid);
            }
            j = j + 1;
        }
        Err(LayoutError::UnknownKey)
    }
}

/// `resolve_key`: a HID literal resolves to itself; otherwise the first
/// keymap named `keymap_name`, its first key named `name`, as a byte.
pub open spec fn spec_resolve_key(
    layout: &Layout,
    keymap_name: Seq<char>,
    name: Seq<char>,
    name_bytes: Seq<u8>,
) -> Result<u8, LayoutError> {
    match spec_parse_hid_literal(name_bytes) {
        Some(h) => Ok(h),
        None => match spec_find_keymap(layout.keymaps@, keymap_name) {
            None => Err(LayoutError::UnknownKeymap),
            Some(k) => match spec_find_key(k.keys@, name) {
                None => Err(LayoutError::UnknownKey),
                Some(key) => spec_hid_to_u8(key.hid),
            },
        },
    }
}

/// Every HID usage code as a byte; the first out-of-range code is the error.
pub fn hids_to_u8(hids: &Vec<u32>) -> (res: Result<Vec<u8>, LayoutError>)
    ensures
        match spec_hids_to_u8(hids@) {
            Ok(hs) => res is Ok && res->Ok_0@ == hs,
            Err(e) => res == Err::<Vec<u8>, LayoutError>(e),
        },
{
    let mut out: Vec<u8> = Vec::new();
    assert(hids@.skip(0) =~= hids@);
    proof {
        if let Ok(rest) = spec_hids_to_u8(hids@) {
            assert(out@ + rest =~= rest);
        }
    }
    let mut i: usize = 0;
    while i < hids.len()
        invariant
            i <= hids@.len(),
            spec_hids_to_u8(hids@) == match spec_hids_to_u8(hids@.skip(i as int)) {
                Ok(rest) => Ok(out@ + rest),
                Err(e) => Err::<Seq<u8>, LayoutError>(e),
            },
        decreases hids@.len() - i,
    {
        assert(hids@.skip(i as int).drop_first() =~= hids@.skip(i + 1));
        let h = match hid_to_u8(hids[i]) {
            Ok(h) => h,
            Err(e) => {
                return Err(e);
            },
        };
        proof {
            if let Ok(rest) = spec_hids_to_u8(hids@.skip(i + 1)) {
                assert(out@ + (seq![h] + rest) =~= out@.push(h) + rest);
            }
        }
        out.push(h);
        i = i + 1;
    }
    assert(hids@.skip(hids@.len() as int) =~= Seq::<u32>::empty());
    assert(out@ + Seq::<u8>::empty() =~= out@);
    Ok(out)
}

/// A leading `#` on a color is optional: `#RRGGBB` parses exactly as
/// `RRGGBB`.
pub proof fn law_hash_prefix_is_optional(t: Seq<u8>)
    requires
        t.len() == 0 || t[0] != 35u8,
    ensures
        spec_parse_hex_color(seq![35u8] + t) == spec_parse_hex_color(t),
{
    assert((seq![35u8] + t).drop_first() =~= t);
}

/// A bare HID literal (decimal, or `0x`/`0X` hex) resolves to its own value
/// whatever keymap is named, even one the layout lacks.
pub proof fn law_hid_literal_resolves_in_any_keymap(
    layout: &Layout,
    keymap_name: Seq<char>,
    name: Seq<char>,
    name_bytes: Seq<u8>,
)
    requires
        spec_parse_hid_literal(name_bytes) is Some,
    ensures
        spec_resolve_key(layout, keymap_name, name, name_bytes) == Ok::<u8, LayoutError>(
            spec_parse_hid_literal(name_bytes)->0,
        ),
{
}

/// Among keymaps of distinct names, the one named `name` is the one found.
proof fn lemma_find_keymap_unique(ks: Seq<Keymap>, i: int)
    requires
        0 <= i < ks.len(),
        forall|a: int, b: int| 0 <= a < b < ks.len() ==> ks[a].name@ != ks[b].name@,
    ensures
        spec_find_keymap(ks, ks[i].name@) == Some(ks[i]),
    decreases ks.len(),
{
    if i > 0 {
        assert(ks[0].name@ != ks[i].name@);
        let rest = ks.drop_first();
        assert(rest[i - 1] == ks[i]);
        assert forall|a: int, b: int| 0 <= a < b < rest.len() implies rest[a].name@
            != rest[b].name@ by {
            assert(rest[a] == ks[a + 1] && rest[b] == ks[b + 1]);
        }
        lemma_find_keymap_unique(rest, i - 1);
    }
}

/// Among keys of distinct names, the one named `name` is the one found.
proof fn lemma_find_key_unique(ks: Seq<KeyCode>, i: int)
    requires
        0 <= i < ks.len(),
        keys_unique(ks),
    ensures
        spec_find_key(ks, ks[i].name@) == Some(ks[i]),
    decreases ks.len(),
{
    if i > 0 {
        assert(ks[0].name@ != ks[i].name@);
        let rest = ks.drop_first();
        assert(rest[i - 1] == ks[i]);
        assert forall|a: int, b: int| 0 <= a < b < rest.len() implies rest[a].name@
            != rest[b].name@ by {
            assert(rest[a] == ks[a + 1] && rest[b] == ks[b + 1]);
        }
        lemma_find_key_unique(rest, i - 1);
    }
}

/// Among region groups of distinct names, the one named `name` is the one
/// found.
proof fn lemma_find_group_unique(gs: Seq<RegionGroup>, i: int)
    requires
        0 <= i < gs.len(),
        forall|a: int, b: int| 0 <= a < b < gs.len() ==> gs[a].name@ != gs[b].name@,
    ensures
        spec_find_group(gs, gs[i].name@) == Some(gs[i]),
    decreases gs.len(),
{
    if i > 0 {
        assert(gs[0].name@ != gs[i].name@);
        let rest = gs.drop_first();
        assert(rest[i - 1] == gs[i]);
        assert forall|a: int, b: int| 0 <= a < b < rest.len() implies rest[a].name@
            != rest[b].name@ by {
            assert(rest[a] == gs[a + 1] && rest[b] == gs[b + 1]);
        }
        lemma_find_group_unique(rest, i - 1);
    }
}

/// In a layout that holds no name twice, a key name that is no HID literal
/// resolves to the code of the key of that name in the keymap of that
/// name, wherever they stand: the lookup is a map lookup.
pub proof fn law_unique_names_resolve_by_name(
    layout: &Layout,
    k: int,
    j: int,
    name_bytes: Seq<u8>,
)
    requires
        layout.wf(),
        0 <= k < layout.keymaps@.len(),
        0 <= j < layout.keymaps@[k].keys@.len(),
        spec_parse_hid_literal(name_bytes) is None,
    ensures
        spec_resolve_key(
            layout,
            layout.keymaps@[k].name@,
            layout.keymaps@[k].keys@[j].name@,
            name_bytes,
        ) == spec_hid_to_u8(layout.keymaps@[k].keys@[j].hid),
{
    lemma_find_keymap_unique(layout.keymaps@, k);
    assert(keys_unique(layout.keymaps@[k].keys@));
    lemma_find_key_unique(layout.keymaps@[k].keys@, j);
}

/// In a layout that holds no name twice, the region group of a name is
/// found wherever it stands.
pub proof fn law_unique_names_find_group(layout: &Layout, i: int)
    requires
        layout.wf(),
        0 <= i < layout.region_groups@.len(),
    ensures
        spec_find_group(layout.region_groups@, layout.region_groups@[i].name@) == Some(
            layout.region_groups@[i],
        ),
{
    lemma_find_group_unique(layout.region_groups@, i);
}

/// The group name `Group<d>_Offset` whose digit `d` is the character
/// `'1' + i`.
pub open spec fn offset_group_name(i: int) -> Seq<char> {
    seq!['G', 'r', 'o', 'u', 'p', (49 + i) as char, '_', 'O', 'f', 'f', 's', 'e', 't']
}

/// The region groups read from group `j` on are `6 - j` lists.
proof fn lemma_groups_from_len(gs: Seq<RegionGroup>, j: nat)
    requires
        j <= 6,
        spec_groups_from(gs, j) is Ok,
    ensures
        spec_groups_from(gs, j)->Ok_0.len() == 6 - j,
    decreases 6 - j,
{
    if j < 6 {
        lemma_groups_from_len(gs, j + 1);
    }
}

/// Slot `i - j` of the region groups read from group `j` on is the HID
/// list of the group named for slot `i`.
proof fn lemma_groups_from_slot(gs: Seq<RegionGroup>, j: nat, i: int)
    requires
        j <= i < 6,
        spec_groups_from(gs, j) is Ok,
    ensures
        spec_find_group(gs, spec_group_name(i)) is Some,
        spec_hids_to_u8(spec_find_group(gs, spec_group_name(i))->0.hids@) is Ok,
        spec_groups_from(gs, j)->Ok_0[i - j] == spec_hids_to_u8(
            spec_find_group(gs, spec_group_name(i))->0.hids@,
        )->Ok_0,
    decreases 6 - j,
{
    if j < i {
        lemma_groups_from_slot(gs, j + 1, i);
        lemma_groups_from_len(gs, j + 1);
        let hs = spec_hids_to_u8(spec_find_group(gs, spec_group_name(j as int))->0.hids@)->Ok_0;
        let rest = spec_groups_from(gs, j + 1)->Ok_0;
        assert(spec_groups_from(gs, j)->Ok_0 == seq![hs] + rest);
        assert((seq![hs] + rest)[i - j] == rest[i - j - 1]);
    }
}

/// Slot `i` of the six region groups (`groups`, `0..6`) is exactly the HID
/// list of the region group named `Group<i+1>_Offset`, wherever it stands
/// in a layout that holds no name twice: slot 1 is `Group2_Offset`, and
/// every group of the six reaches its slot.
pub proof fn law_groups_are_the_offset_groups(layout: &Layout, i: int, k: int)
    requires
        layout.wf(),
        0 <= i < 6,
        0 <= k < layout.region_groups@.len(),
        layout.region_groups@[k].name@ == offset_group_name(i),
        spec_groups_from(layout.region_groups@, 0) is Ok,
    ensures
        spec_hids_to_u8(layout.region_groups@[k].hids@) is Ok,
        spec_groups_from(layout.region_groups@, 0)->Ok_0[i] == spec_hids_to_u8(
            layout.region_groups@[k].hids@,
        )->Ok_0,
{
    let gs = layout.region_groups@;
    assert(spec_group_name(i) =~= offset_group_name(i));
    lemma_find_group_unique(gs, k);
    lemma_groups_from_slot(gs, 0, i);
}

} // verus!
