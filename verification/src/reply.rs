//! Text renderings of raw reports and the decoding of vendor GET replies.
use vstd::prelude::*;
use vstd::string::{StrSliceExecFns, StringExecFns};

use crate::layout::spec_hex_pair;

verus! {

/// The lower-case hex digit for `d < 16`.
pub open spec fn hex_digit(d: int) -> char {
    if d < 10 {
        (48 + d) as char
    } else {
        (87 + d) as char
    }
}

/// The two lower-case hex digits of a byte (`{:02x}`).
pub open spec fn hex_pair(b: u8) -> Seq<char> {
    seq![hex_digit((b / 16) as int), hex_digit((b % 16) as int)]
}

/// Bytes as two hex digits each, separated by single spaces.
pub open spec fn spec_hexdump(b: Seq<u8>) -> Seq<char>
    decreases b.len(),
{
    if b.len() == 0 {
        Seq::empty()
    } else if b.len() == 1 {
        hex_pair(b[0])
    } else {
        spec_hexdump(b.drop_last()) + seq![' '] + hex_pair(b.last())
    }
}

/// Bytes as two hex digits each, run together.
pub open spec fn spec_hex_run(b: Seq<u8>) -> Seq<char>
    decreases b.len(),
{
    if b.len() == 0 {
        Seq::empty()
    } else {
        spec_hex_run(b.drop_last()) + hex_pair(b.last())
    }
}

/// Append the two hex digits of `b` to `out`.
fn push_hex_pair(out: &mut String, b: u8)
    ensures
        final(out)@ == old(out)@ + hex_pair(b),
{
    let digits = "0123456789abcdef";
    proof {
        reveal_strlit("0123456789abcdef");
        assert(digits@.len() == 16);
        assert(forall|d: int| 0 <= d < 16 ==> #[trigger] digits@[d] == hex_digit(d)) by {
            assert(digits@ =~= seq![
                '0',
                '1',
                '2',
                '3',
                '4',
                '5',
                '6',
                '7',
                '8',
                '9',
                'a',
                'b',
                'c',
                'd',
                'e',
                'f',
            ]);
        }
    }
    let hi = (b / 16) as usize;
    let lo = (b % 16) as usize;
    out.append(digits.substring_char(hi, hi + 1));
    out.append(digits.substring_char(lo, lo + 1));
    assert(digits@.subrange(hi as int, hi + 1) =~= seq![hex_digit((b / 16) as int)]);
    assert(digits@.subrange(lo as int, lo + 1) =~= seq![hex_digit((b % 16) as int)]);
    assert(final(out)@ =~= old(out)@ + hex_pair(b));
}

/// Bytes as two lower-case hex digits each, separated by single spaces.
pub fn hexdump(bytes: &[u8]) -> (res: String)
    ensures
        res@ == spec_hexdump(bytes@),
{
    let mut out = String::new();
    let mut i: usize = 0;
    while i < bytes.len()
        invariant
            i <= bytes@.len(),
            out@ == spec_hexdump(bytes@.take(i as int)),
        decreases bytes@.len() - i,
    {
        assert(bytes@.take(i + 1).drop_last() =~= bytes@.take(i as int));
        assert(bytes@.take(i + 1).last() == bytes@[i as int]);
        if i > 0 {
            out.append(" ");
            proof {
                reveal_strlit(" ");
            }
        }
        push_hex_pair(&mut out, bytes[i]);
        proof {
            if i == 0 {
                assert(bytes@.take(1) =~= seq![bytes@[0]]);
            }
        }
        i = i + 1;
    }
    assert(bytes@.take(bytes@.len() as int) =~= bytes@);
    out
}

/// The bytes of a reply after its first (the report id) as hex digits,
/// run together: the STM32 unique id of a `0x80` reply.
pub fn uid_hex(reply: &[u8]) -> (res: String)
    ensures
        reply@.len() == 0 ==> res@ == Seq::<char>::empty(),
        reply@.len() > 0 ==> res@ == spec_hex_run(reply@.skip(1)),
{
    let mut out = String::new();
    let mut i: usize = 1;
    if reply.len() == 0 {
        return out;
    }
    assert(reply@.skip(1).take(0) =~= Seq::<u8>::empty());
    while i < reply.len()
        invariant
            1 <= i <= reply@.len(),
            out@ == spec_hex_run(reply@.skip(1).take(i - 1)),
        decreases reply@.len() - i,
    {
        assert(reply@.skip(1).take(i as int).drop_last() =~= reply@.skip(1).take(i - 1));
        assert(reply@.skip(1).take(i as int).last() == reply@[i as int]);
        push_hex_pair(&mut out, reply[i]);
        i = i + 1;
    }
    assert(reply@.skip(1).take(reply@.len() - 1) =~= reply@.skip(1));
    out
}

/// The device id of a `0x10` reply: bytes 1 and 2, big-endian.
pub fn device_id_from_reply(reply: &[u8]) -> (res: Option<u16>)
    ensures
        reply@.len() >= 3 ==> res == Some((256 * reply@[1] + reply@[2]) as u16),
        reply@.len() < 3 ==> res is None,
{
    if reply.len() >= 3 {
        Some((reply[1] as u16) * 256 + reply[2] as u16)
    } else {
        None
    }
}

/// The firmware CRC of a `0x15` reply: bytes 1 to 4, little-endian.
pub fn fw_crc_from_reply(reply: &[u8]) -> (res: Option<u32>)
    ensures
        reply@.len() >= 5 ==> res == Some(
            (reply@[1] + 256 * reply@[2] + 65536 * reply@[3] + 16777216 * reply@[4]) as u32,
        ),
        reply@.len() < 5 ==> res is None,
{
    if reply.len() >= 5 {
        Some(
            reply[1] as u32 + (reply[2] as u32) * 256 + (reply[3] as u32) * 65536 + (reply[4] as u32)
                * 16777216,
        )
    } else {
        None
    }
}

/// Mode and brightness of a `0x86` reply: bytes 1 and 2.
pub fn mode_brightness_from_reply(reply: &[u8]) -> (res: Option<(u8, u8)>)
    ensures
        reply@.len() >= 3 ==> res == Some((reply@[1], reply@[2])),
        reply@.len() < 3 ==> res is None,
{
    if reply.len() >= 3 {
        Some((reply[1], reply[2]))
    } else {
        None
    }
}

/// The two digits a byte is written as are lower-case hex digits (`0-9`,
/// `a-f`), high nibble first, and read back as hex they give the byte.
pub proof fn law_hex_pair_reads_back(b: u8)
    ensures
        hex_pair(b).len() == 2,
        forall|k: int|
            0 <= k < 2 ==> ('0' <= #[trigger] hex_pair(b)[k] <= '9' || 'a' <= hex_pair(b)[k]
                <= 'f'),
        spec_hex_pair(hex_pair(b)[0] as u8, hex_pair(b)[1] as u8) == Some(b),
{
    let hi = (b / 16) as int;
    let lo = (b % 16) as int;
    assert(hex_pair(b)[0] == hex_digit(hi));
    assert(hex_pair(b)[1] == hex_digit(lo));
    assert(hi * 16 + lo == b);
}

/// A dump of `n > 0` bytes is `3n - 1` characters: byte `i` as its two hex
/// digits at `3i` and `3i + 1`, a space after each but the last.
pub proof fn law_hexdump_layout(b: Seq<u8>, i: int)
    requires
        0 <= i < b.len(),
    ensures
        spec_hexdump(b).len() == 3 * b.len() - 1,
        spec_hexdump(b)[3 * i] == hex_pair(b[i])[0],
        spec_hexdump(b)[3 * i + 1] == hex_pair(b[i])[1],
        i < b.len() - 1 ==> spec_hexdump(b)[3 * i + 2] == ' ',
    decreases b.len(),
{
    if b.len() > 1 {
        let prev = b.drop_last();
        if i < b.len() - 1 {
            law_hexdump_layout(prev, i);
            assert(prev[i] == b[i]);
            if i < b.len() - 2 {
                assert(spec_hexdump(b)[3 * i + 2] == spec_hexdump(prev)[3 * i + 2]);
            }
        } else {
            law_hexdump_layout(prev, 0);
        }
    }
}

/// A run of `n` bytes as hex is `2n` characters: byte `i` as its two hex
/// digits at `2i` and `2i + 1`.
pub proof fn law_hex_run_layout(b: Seq<u8>, i: int)
    requires
        0 <= i < b.len(),
    ensures
        spec_hex_run(b).len() == 2 * b.len(),
        spec_hex_run(b)[2 * i] == hex_pair(b[i])[0],
        spec_hex_run(b)[2 * i + 1] == hex_pair(b[i])[1],
    decreases b.len(),
{
    let prev = b.drop_last();
    if b.len() == 1 {
        assert(spec_hex_run(prev) == Seq::<char>::empty());
    }
    if i < b.len() - 1 {
        law_hex_run_layout(prev, i);
        assert(prev[i] == b[i]);
    } else if b.len() > 1 {
        law_hex_run_layout(prev, 0);
    }
}

/// The reply decoders read the id big-endian and the CRC little-endian:
/// the device id's high byte is reply byte 1 and its low byte byte 2; the
/// CRC's bytes from least significant up are reply bytes 1 to 4.
pub proof fn law_reply_decoders_byte_order(reply: Seq<u8>)
    requires
        reply.len() >= 5,
    ensures
        ((256 * reply[1] + reply[2]) as u16) / 256 == reply[1],
        ((256 * reply[1] + reply[2]) as u16) % 256 == reply[2],
        ({
            let crc = (reply[1] + 256 * reply[2] + 65536 * reply[3] + 16777216 * reply[4]) as u32;
            &&& crc % 256 == reply[1]
            &&& (crc / 256) % 256 == reply[2]
            &&& (crc / 65536) % 256 == reply[3]
            &&& crc / 16777216 == reply[4]
        }),
{
    let (b1, b2, b3, b4) = (reply[1] as int, reply[2] as int, reply[3] as int, reply[4] as int);
    let v = b1 + 256 * b2 + 65536 * b3 + 16777216 * b4;
    assert(0 <= v < 0x1_0000_0000 && v % 256 == b1 && (v / 256) % 256 == b2 && (v / 65536) % 256
        == b3 && v / 16777216 == b4) by (nonlinear_arith)
        requires
            0 <= b1 < 256,
            0 <= b2 < 256,
            0 <= b3 < 256,
            0 <= b4 < 256,
            v == b1 + 256 * b2 + 65536 * b3 + 16777216 * b4,
    ;
    let w = 256 * b1 + b2;
    assert(0 <= w < 65536 && w / 256 == b1 && w % 256 == b2) by (nonlinear_arith)
        requires
            0 <= b1 < 256,
            0 <= b2 < 256,
            w == 256 * b1 + b2,
    ;
}

} // verus!
