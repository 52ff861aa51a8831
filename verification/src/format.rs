//! The description of a sound format that the audio system hands out.
//!
//! It is a block of little-endian fields without gaps.  The plain form has the
//! tag, the number of channels, the rate, the bytes per second, the size of a
//! frame, the size of a sample, and how many bytes follow.  The extensible form
//! goes on with two bytes for the valid bits, four for the places of the channels,
//! and the identifier of the encoding.
use vstd::prelude::*;

verus! {

/// The tag of samples that are floating-point numbers.
pub const WAVE_FORMAT_IEEE_FLOAT: u16 = 0x0003;

/// The tag of the extensible form.
pub const WAVE_FORMAT_EXTENSIBLE: u16 = 0xfffe;

/// How many bytes of the plain form are looked at: all but those that say how many
/// follow.
pub const PLAIN_BYTES: usize = 16;

/// Where the identifier of the encoding starts in the extensible form.
pub const SUB_FORMAT_AT: usize = 24;

/// How many bytes the extensible form has.
pub const EXTENSIBLE_BYTES: usize = 40;

/// A globally unique identifier.
#[derive(Clone, Copy, Debug)]
pub struct Guid {
    pub data1: u32,
    pub data2: u16,
    pub data3: u16,
    pub data4: [u8; 8],
}

/// The plain form of a format.
#[derive(Clone, Copy, Debug, PartialEq, Eq, Structural)]
pub struct WaveFormat {
    pub format_tag: u16,
    pub channels: u16,
    pub samples_per_sec: u32,
    pub avg_bytes_per_sec: u32,
    pub block_align: u16,
    pub bits_per_sample: u16,
}

/// A format as far as it matters for taking samples.
#[derive(Clone, Copy, Debug, PartialEq, Eq, Structural)]
pub struct MixFormat {
    pub wave: WaveFormat,
    /// The size of a sample in bits.
    pub bits: u16,
    /// Whether samples are floating-point numbers.
    pub is_float: bool,
}

/// The number in the two bytes at `at`.
pub open spec fn u16_at(bytes: Seq<u8>, at: int) -> int {
    bytes[at] + 0x100 * bytes[at + 1]
}

/// The number in the four bytes at `at`.
pub open spec fn u32_at(bytes: Seq<u8>, at: int) -> int {
    u16_at(bytes, at) + 0x1_0000 * u16_at(bytes, at + 2)
}

/// The plain form at the start of `bytes`.
pub open spec fn wave_format_in(bytes: Seq<u8>) -> WaveFormat {
    WaveFormat {
        format_tag: u16_at(bytes, 0) as u16,
        channels: u16_at(bytes, 2) as u16,
        samples_per_sec: u32_at(bytes, 4) as u32,
        avg_bytes_per_sec: u32_at(bytes, 8) as u32,
        block_align: u16_at(bytes, 12) as u16,
        bits_per_sample: u16_at(bytes, 14) as u16,
    }
}

/// How many bytes of the form at the start of `bytes` are looked at.
pub open spec fn form_bytes(bytes: Seq<u8>) -> int {
    if u16_at(bytes, 0) == WAVE_FORMAT_EXTENSIBLE {
        EXTENSIBLE_BYTES as int
    } else {
        PLAIN_BYTES as int
    }
}

/// Whether `bytes` hold all of a form that is looked at.
pub open spec fn is_complete(bytes: Seq<u8>) -> bool {
    bytes.len() >= PLAIN_BYTES && bytes.len() >= form_bytes(bytes)
}

/// Whether the extensible form in `bytes` names floating-point numbers as its
/// encoding: {00000003-0000-0010-8000-00aa00389b71}.
pub open spec fn names_float(bytes: Seq<u8>) -> bool {
    &&& u32_at(bytes, SUB_FORMAT_AT as int) == 3
    &&& u16_at(bytes, SUB_FORMAT_AT + 4) == 0
    &&& u16_at(bytes, SUB_FORMAT_AT + 6) == 0x10
    &&& bytes.subrange(SUB_FORMAT_AT + 8, SUB_FORMAT_AT + 16) == seq![
        0x80u8,
        0x00,
        0x00,
        0xaa,
        0x00,
        0x38,
        0x9b,
        0x71,
    ]
}

/// The format that `bytes` describe.
pub open spec fn mix_format_in(bytes: Seq<u8>) -> MixFormat {
    let wave = wave_format_in(bytes);
    MixFormat {
        wave,
        bits: wave.bits_per_sample,
        is_float: if wave.format_tag == WAVE_FORMAT_EXTENSIBLE {
            names_float(bytes)
        } else {
            wave.format_tag == WAVE_FORMAT_IEEE_FLOAT
        },
    }
}

/// Whether two identifiers are equal, by `windows::core::GUID`'s `==` on the two
/// identifiers that `GUID::from_values` makes of the fields: the contract says
/// that this compares field by field.
#[verifier::external_body]
fn same_guid(a: &Guid, b: &Guid) -> (r: bool)
    ensures
        r == (a.data1 == b.data1 && a.data2 == b.data2 && a.data3 == b.data3 && a.data4@
            == b.data4@),
{
    windows::core::GUID::from_values(a.data1, a.data2, a.data3, a.data4)
        == windows::core::GUID::from_values(b.data1, b.data2, b.data3, b.data4)
}

/// How many bytes of a form have to be read, given at least its first two.
pub fn form_len(bytes: &[u8]) -> (n: usize)
    requires
        bytes@.len() >= 2,
    ensures
        n == form_bytes(bytes@),
{
    if read_u16(bytes, 0) == WAVE_FORMAT_EXTENSIBLE {
        EXTENSIBLE_BYTES
    } else {
        PLAIN_BYTES
    }
}

/// The format that `bytes` describe.
pub fn parse_mix_format(bytes: &[u8]) -> (format: MixFormat)
    requires
        is_complete(bytes@),
    ensures
        format == mix_format_in(bytes@),
        format.wave.format_tag == bytes@[0] + 256 * bytes@[1],
        format.wave.channels == bytes@[2] + 256 * bytes@[3],
        format.wave.samples_per_sec == bytes@[4] + 256 * bytes@[5] + 65536 * bytes@[6] + 16777216
            * bytes@[7],
        format.wave.avg_bytes_per_sec == bytes@[8] + 256 * bytes@[9] + 65536 * bytes@[10]
            + 16777216 * bytes@[11],
        format.wave.block_align == bytes@[12] + 256 * bytes@[13],
        format.wave.bits_per_sample == bytes@[14] + 256 * bytes@[15],
        format.bits == format.wave.bits_per_sample,
        format.wave.format_tag != 0xfffe ==> format.is_float == (format.wave.format_tag == 3),
        format.wave.format_tag == 0xfffe ==> (format.is_float <==> bytes@.subrange(24, 40)
            == float_encoding()),
{
    let wave = WaveFormat {
        format_tag: read_u16(bytes, 0),
        channels: read_u16(bytes, 2),
        samples_per_sec: read_u32(bytes, 4),
        avg_bytes_per_sec: read_u32(bytes, 8),
        block_align: read_u16(bytes, 12),
        bits_per_sample: read_u16(bytes, 14),
    };
    let is_float: bool = if wave.format_tag == WAVE_FORMAT_EXTENSIBLE {
        let float = Guid {
            data1: 0x0000_0003,
            data2: 0x0000,
            data3: 0x0010,
            data4: [0x80, 0x00, 0x00, 0xaa, 0x00, 0x38, 0x9b, 0x71],
        };
        let named: Guid = read_guid(bytes, SUB_FORMAT_AT);
        proof {
            assert(float.data4@ =~= seq![0x80u8, 0x00, 0x00, 0xaa, 0x00, 0x38, 0x9b, 0x71]);
        }
        same_guid(&named, &float)
    } else {
        wave.format_tag == WAVE_FORMAT_IEEE_FLOAT
    };
    proof {
        lemma_format(bytes@);
    }
    MixFormat { wave, bits: wave.bits_per_sample, is_float }
}

fn read_u16(bytes: &[u8], at: usize) -> (n: u16)
    requires
        at + 2 <= bytes@.len(),
    ensures
        n == u16_at(bytes@, at as int),
{
    bytes[at] as u16 + 0x100 * bytes[at + 1] as u16
}

fn read_u32(bytes: &[u8], at: usize) -> (n: u32)
    requires
        at + 4 <= bytes@.len(),
    ensures
        n == u32_at(bytes@, at as int),
{
    assert(bytes.len() == bytes@.len());
    read_u16(bytes, at) as u32 + 0x1_0000 * read_u16(bytes, at + 2) as u32
}

fn read_guid(bytes: &[u8], at: usize) -> (g: Guid)
    requires
        at + 16 <= bytes@.len(),
    ensures
        g.data1 == u32_at(bytes@, at as int),
        g.data2 == u16_at(bytes@, at + 4),
        g.data3 == u16_at(bytes@, at + 6),
        g.data4@ == bytes@.subrange(at + 8, at + 16),
{
    assert(bytes.len() == bytes@.len());
    let g = Guid {
        data1: read_u32(bytes, at),
        data2: read_u16(bytes, at + 4),
        data3: read_u16(bytes, at + 6),
        data4: [
            bytes[at + 8],
            bytes[at + 9],
            bytes[at + 10],
            bytes[at + 11],
            bytes[at + 12],
            bytes[at + 13],
            bytes[at + 14],
            bytes[at + 15],
        ],
    };
    assert(g.data4@ =~= bytes@.subrange(at + 8, at + 16));
    g
}

/// The identifier of floating-point numbers, byte by byte.
pub open spec fn float_encoding() -> Seq<u8> {
    seq![3u8, 0, 0, 0, 0, 0, 0x10, 0, 0x80, 0, 0, 0xaa, 0, 0x38, 0x9b, 0x71]
}

/// Where each field of a format lies, and when samples are floating-point numbers: in
/// the extensible form when the sixteen bytes of the identifier are those of
/// floating-point numbers, and else when the tag is three.
pub proof fn lemma_format(bytes: Seq<u8>)
    requires
        is_complete(bytes),
    ensures
        ({
            let format = mix_format_in(bytes);
            let tag = bytes[0] + 256 * bytes[1];
            &&& bytes.len() >= 16
            &&& tag == 0xfffe ==> bytes.len() >= 40
            &&& format.wave.format_tag == tag
            &&& format.wave.channels == bytes[2] + 256 * bytes[3]
            &&& format.wave.samples_per_sec == bytes[4] + 256 * bytes[5] + 65536 * bytes[6]
                + 16777216 * bytes[7]
            &&& format.wave.avg_bytes_per_sec == bytes[8] + 256 * bytes[9] + 65536 * bytes[10]
                + 16777216 * bytes[11]
            &&& format.wave.block_align == bytes[12] + 256 * bytes[13]
            &&& format.wave.bits_per_sample == bytes[14] + 256 * bytes[15]
            &&& format.bits == format.wave.bits_per_sample
            &&& tag != 0xfffe ==> format.is_float == (tag == 3)
            &&& tag == 0xfffe ==> (format.is_float <==> bytes.subrange(24, 40) == float_encoding())
        }),
{
    if bytes.len() >= 40 {
        let named = bytes.subrange(24, 40);
        let tail = bytes.subrange(32, 40);
        if named == float_encoding() {
            assert(named[0] == 3 && named[1] == 0 && named[2] == 0 && named[3] == 0);
            assert(named[4] == 0 && named[5] == 0 && named[6] == 0x10 && named[7] == 0);
            assert forall|i: int| 0 <= i < 8 implies #[trigger] tail[i] == float_encoding()[8
                + i] by {
                assert(named[8 + i] == tail[i]);
            }
            assert(tail =~= seq![0x80u8, 0x00, 0x00, 0xaa, 0x00, 0x38, 0x9b, 0x71]);
        }
        if names_float(bytes) {
            assert forall|i: int| 0 <= i < 16 implies #[trigger] named[i]
                == float_encoding()[i] by {
                if i >= 8 {
                    assert(tail[i - 8] == bytes[24 + i]);
                }
            }
            assert(named =~= float_encoding());
        }
    }
}

/// A form is complete with sixteen bytes, or with forty where it is extensible.
pub proof fn lemma_complete(bytes: Seq<u8>)
    requires
        bytes.len() >= 2,
    ensures
        bytes[0] + 256 * bytes[1] == 0xfffe ==> form_bytes(bytes) == 40,
        bytes[0] + 256 * bytes[1] != 0xfffe ==> form_bytes(bytes) == 16,
        is_complete(bytes) <==> bytes.len() >= form_bytes(bytes),
{
}

} // verus!
