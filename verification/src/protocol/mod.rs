//! Frame builders for the MSI SteelSeries "KLC" per-key RGB protocol.
//!
//! Every builder states, byte by byte, the report it produces: the
//! `0x0E` group report of 12-byte key elements, the `0x0C` free-form report
//! of 4-byte `[hid, R, G, B]` entries, the commit ("show") report, the short
//! vendor-command output reports, the layout-select report and (in
//! `effect`) the `lighting_effect` host struct, its transformed device
//! program and the `0x0B` upload report.
use vstd::prelude::*;

pub mod cmd;
pub mod direction_type;
pub mod effect_type;
pub mod settings_mask;

pub mod effect;
pub mod laws;

pub use self::effect::{
    build_effect_upload_frame, scaled_uint8, LightingEffect, EFFECT_DEVICE_BYTES_LEN,
    LIGHTING_EFFECT_LEN, MAX_EFFECT_COLORS, MAX_EFFECT_SLOT,
};


verus! {

/// Length of a KLC HID feature report, including the leading report-id
/// byte (`buf[0] = 0`, unnumbered reports). The wire payload is 524 bytes.
pub const FEATURE_REPORT_LEN: usize = 525;

/// Length of a KLC HID output/input report, including the report-id byte.
pub const OUTPUT_REPORT_LEN: usize = 64;

/// Length of the layout/layer-select output report, one byte longer than
/// the other output reports.
pub const LAYOUT_REPORT_LEN: usize = 65;

/// Max per-key elements in one group (`0x0E`) feature report.
pub const MAX_GROUP_ENTRIES: usize = (FEATURE_REPORT_LEN - 5) / 12;

/// Max per-key entries in one free (`0x0C`) feature report.
pub const MAX_FREE_ENTRIES: usize = (FEATURE_REPORT_LEN - 5) / 4;

/// The react-fade-time (`0x012C` = 300, little-endian `[0x2C, 0x01]`) that
/// the steady encoding always sends even though `STEADY` never uses the
/// reactive fields; kept so the steady encoding stays byte-identical.
pub const STEADY_LEGACY_REACT_TIME_MS: u16 = 0x012C;

/// Copy a byte vector of length `N` into an array.
pub fn vec_to_array<const N: usize>(v: &Vec<u8>) -> (res: [u8; N])
    requires
        v@.len() == N,
    ensures
        res@ == v@,
{
    let mut arr: [u8; N] = vstd::array::array_fill_for_copy_types::<u8, N>(0);
    let mut i: usize = 0;
    while i < N
        invariant
            i <= N,
            v@.len() == N,
            arr@.len() == N,
            forall|j: int| 0 <= j < i ==> arr@[j] == v@[j],
        decreases N - i,
    {
        arr[i] = v[i];
        i = i + 1;
    }
    assert(arr@ =~= v@);
    arr
}

/// Low byte of a little-endian `u16`.
pub open spec fn le_lo(v: u16) -> u8 {
    (v % 256) as u8
}

/// High byte of a little-endian `u16`.
pub open spec fn le_hi(v: u16) -> u8 {
    (v / 256) as u8
}

/// The little-endian bytes `[lo, hi]` of `v`.
pub fn u16_le_bytes(v: u16) -> (res: (u8, u8))
    ensures
        res.0 == le_lo(v),
        res.1 == le_hi(v),
        res.0 + 256 * res.1 == v,
{
    ((v % 256) as u8, (v / 256) as u8)
}

/// A resolved (key-code, R, G, B) tuple ready to be packed into a report.
#[derive(Debug, Clone, Copy, PartialEq, Eq)]
pub struct KeyColor {
    pub hid: u8,
    pub r: u8,
    pub g: u8,
    pub b: u8,
}

impl KeyColor {
    pub fn new(hid: u8, r: u8, g: u8, b: u8) -> (res: Self)
        ensures
            res.hid == hid,
            res.r == r,
            res.g == g,
            res.b == b,
    {
        KeyColor { hid, r, g, b }
    }

    /// The 4 on-wire bytes `[hid, R, G, B]` of a free-form entry.
    pub open spec fn spec_bytes(self) -> Seq<u8> {
        seq![self.hid, self.r, self.g, self.b]
    }
}

/// One per-key element of a `0x0E` group feature report (12 bytes):
///
/// ```text
/// [ init.R, init.G, init.B, react.R, react.G, react.B,
///   react.time_lo, react.time_hi, effect_index, settings_mask,
///   lockmask, hid ]
/// ```
#[derive(Debug, Clone, Copy, PartialEq, Eq)]
pub struct KeyElement {
    pub init: [u8; 3],
    pub react: [u8; 3],
    pub react_time_ms: u16,
    pub effect_index: u8,
    pub settings_mask: u8,
    pub lockmask: u8,
    pub hid: u8,
}

impl KeyElement {
    /// The 12 on-wire bytes of this element.
    pub open spec fn spec_bytes(self) -> Seq<u8> {
        seq![
            self.init[0],
            self.init[1],
            self.init[2],
            self.react[0],
            self.react[1],
            self.react[2],
            le_lo(self.react_time_ms),
            le_hi(self.react_time_ms),
            self.effect_index,
            self.settings_mask,
            self.lockmask,
            self.hid,
        ]
    }

    /// The steady element of `steady(hid, r, g, b)`.
    pub open spec fn spec_steady(hid: u8, r: u8, g: u8, b: u8) -> KeyElement {
        KeyElement {
            init: [r, g, b],
            react: [0, 0, 0],
            react_time_ms: STEADY_LEGACY_REACT_TIME_MS,
            effect_index: 0,
            settings_mask: settings_mask::STEADY,
            lockmask: 0,
            hid,
        }
    }

    /// The reactive element of `reactive(hid, base, hit, fade_ms)`.
    pub open spec fn spec_reactive(
        hid: u8,
        base: (u8, u8, u8),
        hit: (u8, u8, u8),
        fade_ms: u16,
    ) -> KeyElement {
        KeyElement {
            init: [base.0, base.1, base.2],
            react: [hit.0, hit.1, hit.2],
            react_time_ms: fade_ms,
            effect_index: 0,
            settings_mask: settings_mask::REACTIVE,
            lockmask: 0,
            hid,
        }
    }

    /// Serialize to the 12-byte on-wire element.
    pub fn to_bytes(self) -> (res: [u8; 12])
        ensures
            res@ == self.spec_bytes(),
    {
        let (lo, hi) = u16_le_bytes(self.react_time_ms);
        let res = [
            self.init[0],
            self.init[1],
            self.init[2],
            self.react[0],
            self.react[1],
            self.react[2],
            lo,
            hi,
            self.effect_index,
            self.settings_mask,
            self.lockmask,
            self.hid,
        ];
        assert(res@ =~= self.spec_bytes());
        res
    }

    /// A fixed/static color element: `init = (r, g, b)`, no reactive
    /// behavior, `settings_mask = STEADY`, and the legacy zeroed/300 ms
    /// reactive fields.
    pub fn steady(hid: u8, r: u8, g: u8, b: u8) -> (res: Self)
        ensures
            res == Self::spec_steady(hid, r, g, b),
    {
        KeyElement {
            init: [r, g, b],
            react: [0, 0, 0],
            react_time_ms: STEADY_LEGACY_REACT_TIME_MS,
            effect_index: 0,
            settings_mask: settings_mask::STEADY,
            lockmask: 0,
            hid,
        }
    }

    /// A reactive/keypress-trail element: rests at `base`, flashes to `hit`
    /// on keypress, fades back over `fade_ms`, `settings_mask = REACTIVE`.
    pub fn reactive(hid: u8, base: (u8, u8, u8), hit: (u8, u8, u8), fade_ms: u16) -> (res: Self)
        ensures
            res == Self::spec_reactive(hid, base, hit, fade_ms),
    {
        KeyElement {
            init: [base.0, base.1, base.2],
            react: [hit.0, hit.1, hit.2],
            react_time_ms: fade_ms,
            effect_index: 0,
            settings_mask: settings_mask::REACTIVE,
            lockmask: 0,
            hid,
        }
    }
}

/// The `0x0E` group feature report carrying `elements`: byte 1 is
/// `SET_COLOR_GROUP`, byte 3 the element count, element `m` occupies
/// bytes `5 + 12*m .. 5 + 12*m + 12`, every other byte is zero.
pub open spec fn spec_group_frame(elements: Seq<KeyElement>) -> Seq<u8> {
    Seq::new(
        FEATURE_REPORT_LEN as nat,
        |i: int|
            if i == 1 {
                cmd::SET_COLOR_GROUP
            } else if i == 3 {
                elements.len() as u8
            } else if 5 <= i < 5 + 12 * elements.len() {
                elements[(i - 5) / 12].spec_bytes()[(i - 5) % 12]
            } else {
                0u8
            },
    )
}

/// The `0x0C` free-form feature report carrying `entries`: byte 1 is
/// `SET_COLOR_FREE`, byte 3 the entry count, entry `i` occupies bytes
/// `5 + 4*i .. 5 + 4*i + 4` as `[hid, R, G, B]`, every other byte is zero.
pub open spec fn spec_free_frame(entries: Seq<KeyColor>) -> Seq<u8> {
    Seq::new(
        FEATURE_REPORT_LEN as nat,
        |i: int|
            if i == 1 {
                cmd::SET_COLOR_FREE
            } else if i == 3 {
                entries.len() as u8
            } else if 5 <= i < 5 + 4 * entries.len() {
                entries[(i - 5) / 4].spec_bytes()[(i - 5) % 4]
            } else {
                0u8
            },
    )
}

/// The steady elements `steady(hid, r, g, b)` for each of `hids`, in order.
pub open spec fn spec_steady_elements(hids: Seq<u8>, r: u8, g: u8, b: u8) -> Seq<KeyElement> {
    Seq::new(hids.len(), |i: int| KeyElement::spec_steady(hids[i], r, g, b))
}

/// The reactive elements `reactive(hid, base, hit, fade_ms)` for each of
/// `hids`, in order.
pub open spec fn spec_reactive_elements(
    hids: Seq<u8>,
    base: (u8, u8, u8),
    hit: (u8, u8, u8),
    fade_ms: u16,
) -> Seq<KeyElement> {
    Seq::new(hids.len(), |i: int| KeyElement::spec_reactive(hids[i], base, hit, fade_ms))
}

proof fn lemma_entry_index(i: int, base: int, m: int, k: int, width: int)
    requires
        width == 12 || width == 4,
        base == 5 + width * m,
        0 <= m,
        0 <= k < width,
        i == base + k,
    ensures
        (i - 5) / width == m,
        (i - 5) % width == k,
{
    if width == 12 {
        assert((i - 5) / 12 == m && (i - 5) % 12 == k) by (nonlinear_arith)
            requires
                i - 5 == 12 * m + k,
                0 <= k < 12,
                0 <= m,
        ;
    } else {
        assert((i - 5) / 4 == m && (i - 5) % 4 == k) by (nonlinear_arith)
            requires
                i - 5 == 4 * m + k,
                0 <= k < 4,
                0 <= m,
        ;
    }
}

/// Build one group (`0x0E`) feature report from already-built elements
/// (at most `MAX_GROUP_ENTRIES` of them, which is all one report holds).
pub fn build_group_frame_elements(elements: &[KeyElement]) -> (res: [u8; FEATURE_REPORT_LEN])
    requires
        elements@.len() <= MAX_GROUP_ENTRIES,
    ensures
        res@ == spec_group_frame(elements@),
{
    let mut buf = [0u8; FEATURE_REPORT_LEN];
    buf[1] = cmd::SET_COLOR_GROUP;
    buf[3] = elements.len() as u8;
    let n = elements.len();
    let ghost spec = spec_group_frame(elements@);
    let mut m: usize = 0;
    while m < n
        invariant
            n == elements@.len(),
            n <= MAX_GROUP_ENTRIES,
            m <= n,
            spec == spec_group_frame(elements@),
            buf@.len() == FEATURE_REPORT_LEN,
            forall|j: int| 0 <= j < 5 + 12 * m ==> buf@[j] == spec[j],
            forall|j: int| 5 + 12 * m <= j < FEATURE_REPORT_LEN ==> buf@[j] == 0u8,
        decreases n - m,
    {
        let base = 5 + 12 * m;
        let bytes = elements[m].to_bytes();
        let mut k: usize = 0;
        while k < 12
            invariant
                n == elements@.len(),
                n <= MAX_GROUP_ENTRIES,
                m < n,
                base == 5 + 12 * m,
                k <= 12,
                bytes@ == elements@[m as int].spec_bytes(),
                spec == spec_group_frame(elements@),
                buf@.len() == FEATURE_REPORT_LEN,
                forall|j: int| 0 <= j < base + k ==> buf@[j] == spec[j],
                forall|j: int| base + k <= j < FEATURE_REPORT_LEN ==> buf@[j] == 0u8,
            decreases 12 - k,
        {
            proof {
                lemma_entry_index(base + k, base as int, m as int, k as int, 12);
            }
            buf[base + k] = bytes[k];
            k = k + 1;
        }
        m = m + 1;
    }
    assert(buf@ =~= spec);
    buf
}

/// Build one group (`0x0E`) feature report for a single region group, every
/// key set to the steady color `(r, g, b)`.
pub fn build_group_frame(hids: &[u8], r: u8, g: u8, b: u8) -> (res: [u8; FEATURE_REPORT_LEN])
    requires
        hids@.len() <= MAX_GROUP_ENTRIES,
    ensures
        res@ == spec_group_frame(spec_steady_elements(hids@, r, g, b)),
{
    let mut elements: Vec<KeyElement> = Vec::with_capacity(hids.len());
    let mut i: usize = 0;
    while i < hids.len()
        invariant
            i <= hids@.len(),
            elements@ =~= spec_steady_elements(hids@, r, g, b).take(i as int),
        decreases hids@.len() - i,
    {
        elements.push(KeyElement::steady(hids[i], r, g, b));
        i = i + 1;
    }
    assert(elements@ =~= spec_steady_elements(hids@, r, g, b));
    build_group_frame_elements(elements.as_slice())
}

/// Build one group (`0x0E`) feature report for a single region group: every
/// key rests at `base`, flashes to `hit` on keypress and fades back over
/// `fade_ms` (`settings_mask = REACTIVE`).
pub fn build_group_frame_reactive(
    hids: &[u8],
    base: (u8, u8, u8),
    hit: (u8, u8, u8),
    fade_ms: u16,
) -> (res: [u8; FEATURE_REPORT_LEN])
    requires
        hids@.len() <= MAX_GROUP_ENTRIES,
    ensures
        res@ == spec_group_frame(spec_reactive_elements(hids@, base, hit, fade_ms)),
{
    let mut elements: Vec<KeyElement> = Vec::with_capacity(hids.len());
    let mut i: usize = 0;
    while i < hids.len()
        invariant
            i <= hids@.len(),
            elements@ =~= spec_reactive_elements(hids@, base, hit, fade_ms).take(i as int),
        decreases hids@.len() - i,
    {
        elements.push(KeyElement::reactive(hids[i], base, hit, fade_ms));
        i = i + 1;
    }
    assert(elements@ =~= spec_reactive_elements(hids@, base, hit, fade_ms));
    build_group_frame_elements(elements.as_slice())
}

/// Build one free (`0x0C`) per-key feature report from arbitrary
/// `(hid, r, g, b)` entries (at most `MAX_FREE_ENTRIES`).
pub fn build_free_frame(entries: &[KeyColor]) -> (res: [u8; FEATURE_REPORT_LEN])
    requires
        entries@.len() <= MAX_FREE_ENTRIES,
    ensures
        res@ == spec_free_frame(entries@),
{
    let mut buf = [0u8; FEATURE_REPORT_LEN];
    buf[1] = cmd::SET_COLOR_FREE;
    buf[3] = entries.len() as u8;
    let n = entries.len();
    let ghost spec = spec_free_frame(entries@);
    let mut i: usize = 0;
    while i < n
        invariant
            n == entries@.len(),
            n <= MAX_FREE_ENTRIES,
            i <= n,
            spec == spec_free_frame(entries@),
            buf@.len() == FEATURE_REPORT_LEN,
            forall|j: int| 0 <= j < 5 + 4 * i ==> buf@[j] == spec[j],
            forall|j: int| 5 + 4 * i <= j < FEATURE_REPORT_LEN ==> buf@[j] == 0u8,
        decreases n - i,
    {
        let base = 5 + 4 * i;
        let e = entries[i];
        proof {
            lemma_entry_index(base as int, base as int, i as int, 0, 4);
            lemma_entry_index(base + 1, base as int, i as int, 1, 4);
            lemma_entry_index(base + 2, base as int, i as int, 2, 4);
            lemma_entry_index(base + 3, base as int, i as int, 3, 4);
        }
        buf[base] = e.hid;
        buf[base + 1] = e.r;
        buf[base + 2] = e.g;
        buf[base + 3] = e.b;
        i = i + 1;
    }
    assert(buf@ =~= spec);
    buf
}

/// The 64-byte commit ("show") output report `[0x00, 0x0D, 0x00, 0x02, 0...]`.
pub open spec fn spec_commit() -> Seq<u8> {
    Seq::new(
        OUTPUT_REPORT_LEN as nat,
        |i: int|
            if i == 1 {
                cmd::SHOW
            } else if i == 3 {
                2u8
            } else {
                0u8
            },
    )
}

/// Build the 64-byte commit ("show") output report, which pushes the
/// just-written RAM color buffer to the live LEDs.
pub fn build_commit() -> (res: [u8; OUTPUT_REPORT_LEN])
    ensures
        res@ == spec_commit(),
{
    let mut buf = [0u8; OUTPUT_REPORT_LEN];
    buf[1] = cmd::SHOW;
    buf[3] = 0x02;
    assert(buf@ =~= spec_commit());
    buf
}

/// The short vendor-command output report `[0x00, cmd, params...]`.
pub open spec fn spec_vendor(cmd: u8, params: Seq<u8>) -> Seq<u8> {
    seq![0u8, cmd] + params
}

/// Build a short vendor-command output report `[0x00, cmd, params...]`,
/// not padded to 64 bytes.
pub fn build_vendor(cmd: u8, params: &[u8]) -> (res: Vec<u8>)
    ensures
        res@ == spec_vendor(cmd, params@),
{
    let mut buf: Vec<u8> = Vec::new();
    buf.push(0x00);
    buf.push(cmd);
    let mut i: usize = 0;
    while i < params.len()
        invariant
            i <= params@.len(),
            buf@ =~= spec_vendor(cmd, params@.take(i as int)),
        decreases params@.len() - i,
    {
        buf.push(params[i]);
        i = i + 1;
    }
    assert(params@.take(params@.len() as int) =~= params@);
    buf
}

/// Build the `0x50` "set all keys, live" vendor command `[0x00, 0x50, 0x00, R, G, B]`.
pub fn build_set_all_live(r: u8, g: u8, b: u8) -> (res: Vec<u8>)
    ensures
        res@ == spec_vendor(cmd::SET_ALL_LIVE, seq![0u8, r, g, b]),
        res@ == seq![0u8, 0x50u8, 0u8, r, g, b],
{
    let params = [0x00, r, g, b];
    assert(params@ =~= seq![0u8, r, g, b]);
    let res = build_vendor(cmd::SET_ALL_LIVE, &params);
    assert(res@ =~= seq![0u8, 0x50u8, 0u8, r, g, b]);
    res
}

/// Build the `0x51` "set global default color" vendor command
/// `[0x00, 0x51, 0x00, R, G, B]`.
pub fn build_set_default_color(r: u8, g: u8, b: u8) -> (res: Vec<u8>)
    ensures
        res@ == spec_vendor(cmd::SET_DEFAULT_COLOR, seq![0u8, r, g, b]),
        res@ == seq![0u8, 0x51u8, 0u8, r, g, b],
{
    let params = [0x00, r, g, b];
    assert(params@ =~= seq![0u8, r, g, b]);
    let res = build_vendor(cmd::SET_DEFAULT_COLOR, &params);
    assert(res@ =~= seq![0u8, 0x51u8, 0u8, r, g, b]);
    res
}

/// Build the `0x40` "load compiled default" vendor command `[0x00, 0x40]`.
pub fn build_load_default() -> (res: Vec<u8>)
    ensures
        res@ == seq![0u8, 0x40u8],
{
    let params: [u8; 0] = [];
    let res = build_vendor(cmd::LOAD_DEFAULT, &params);
    assert(res@ =~= seq![0u8, 0x40u8]);
    res
}

/// Build the `0x09` save-to-flash vendor command `[0x00, 0x09]`.
pub fn build_save_flash() -> (res: Vec<u8>)
    ensures
        res@ == seq![0u8, 0x09u8],
{
    let params: [u8; 0] = [];
    let res = build_vendor(cmd::SAVE_FLASH, &params);
    assert(res@ =~= seq![0u8, 0x09u8]);
    res
}

/// The 65-byte layout-select report
/// `[0x00, 0x0B, 0x00, SET_MODE, 0x00, layout_id, 0...]`.
pub open spec fn spec_layout_select(layout_id: u8) -> Seq<u8> {
    Seq::new(
        LAYOUT_REPORT_LEN as nat,
        |i: int|
            if i == 1 {
                0x0Bu8
            } else if i == 3 {
                cmd::SET_MODE
            } else if i == 5 {
                layout_id
            } else {
                0u8
            },
    )
}

/// Build the layout/layer-select output report for layout `0..=3`.
pub fn build_layout_select(layout_id: u8) -> (res: [u8; LAYOUT_REPORT_LEN])
    requires
        layout_id <= 3,
    ensures
        res@ == spec_layout_select(layout_id),
{
    let mut buf = [0u8; LAYOUT_REPORT_LEN];
    buf[1] = 0x0B;
    buf[2] = 0x00;
    buf[3] = cmd::SET_MODE;
    buf[4] = 0x00;
    buf[5] = layout_id;
    assert(buf@ =~= spec_layout_select(layout_id));
    buf
}

} // verus!
