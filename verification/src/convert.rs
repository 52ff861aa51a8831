//! Taking samples out of the packets that a capture device delivers.
//!
//! Integer samples are little-endian and signed; each stands for itself divided
//! by the full scale of its size.  Floating-point samples are taken over as
//! their bit patterns.
use vstd::prelude::*;

verus! {

/// The flag of a packet that is to be taken for silence, whatever it holds.
pub const SILENT: u32 = 0x0000_0002;

/// How the samples lie in a packet.
#[derive(Clone, Copy, Debug, PartialEq, Eq, Structural)]
pub struct PacketLayout {
    pub channels: u16,
    /// The size of a sample in bits.
    pub bits: u16,
    pub is_float: bool,
    /// The size of a frame in bytes.
    pub block_align: u16,
}

/// The samples of a packet.
#[derive(Debug, PartialEq, Eq)]
pub enum Converted {
    /// So many samples of silence.
    Silence(usize),
    /// So many samples in an encoding that is not known, taken for silence.
    Unsupported(usize),
    /// Each sample divided by `full_scale`.
    Scaled { samples: Vec<i32>, full_scale: u32 },
    /// The bit patterns of the samples.
    Float(Vec<u32>),
}

/// The samples of a packet, as contracts speak of them.
#[verifier::ext_equal]
pub enum ConvertedView {
    Silence(int),
    Unsupported(int),
    Scaled { samples: Seq<i32>, full_scale: u32 },
    Float(Seq<u32>),
}

impl View for Converted {
    type V = ConvertedView;

    open spec fn view(&self) -> ConvertedView {
        match self {
            Converted::Silence(count) => ConvertedView::Silence(*count as int),
            Converted::Unsupported(count) => ConvertedView::Unsupported(*count as int),
            Converted::Scaled { samples, full_scale } => ConvertedView::Scaled {
                samples: samples@,
                full_scale: *full_scale,
            },
            Converted::Float(samples) => ConvertedView::Float(samples@),
        }
    }
}

/// How many samples there are.
pub open spec fn count_of(converted: ConvertedView) -> int {
    match converted {
        ConvertedView::Silence(count) => count,
        ConvertedView::Unsupported(count) => count,
        ConvertedView::Scaled { samples, .. } => samples.len() as int,
        ConvertedView::Float(samples) => samples.len() as int,
    }
}

impl Converted {
    /// How many samples there are.
    pub fn len(&self) -> (n: usize)
        ensures
            n == count_of(self@),
    {
        match self {
            Converted::Silence(count) => *count,
            Converted::Unsupported(count) => *count,
            Converted::Scaled { samples, .. } => samples.len(),
            Converted::Float(samples) => samples.len(),
        }
    }
}

/// The encodings that are known.
pub enum Encoding {
    Silence,
    Pcm16,
    Pcm24,
    Pcm32,
    Float32,
    Unknown,
}

/// How the samples of a packet with these flags are encoded.
pub open spec fn encoding(layout: PacketLayout, flags: u32) -> Encoding {
    if flags & SILENT != 0 {
        Encoding::Silence
    } else if layout.bits == 16 && !layout.is_float {
        Encoding::Pcm16
    } else if layout.bits == 24 && !layout.is_float {
        Encoding::Pcm24
    } else if layout.bits == 32 && layout.is_float {
        Encoding::Float32
    } else if layout.bits == 32 {
        Encoding::Pcm32
    } else {
        Encoding::Unknown
    }
}

/// How many samples there are in `frames` frames.
pub open spec fn sample_count(layout: PacketLayout, frames: u32) -> int {
    frames * layout.channels
}

/// How many samples of three bytes are taken: not more than lie wholly within
/// the packet.
pub open spec fn count24(layout: PacketLayout, frames: u32) -> int {
    let whole = frames * layout.block_align / 3;
    if sample_count(layout, frames) < whole {
        sample_count(layout, frames)
    } else {
        whole
    }
}

/// How many bytes of a packet are looked at.
pub open spec fn bytes_needed(layout: PacketLayout, frames: u32, flags: u32) -> int {
    match encoding(layout, flags) {
        Encoding::Silence | Encoding::Unknown => 0,
        Encoding::Pcm16 => 2 * sample_count(layout, frames),
        Encoding::Pcm24 => 3 * count24(layout, frames),
        Encoding::Pcm32 | Encoding::Float32 => 4 * sample_count(layout, frames),
    }
}

/// A number below twice `half` as a signed one: the upper half is negative.
pub open spec fn signed(n: int, half: int) -> int {
    if n < half {
        n
    } else {
        n - 2 * half
    }
}

/// The sample of two bytes with the index `i`.
pub open spec fn pcm16_at(data: Seq<u8>, i: int) -> int {
    signed(crate::format::u16_at(data, 2 * i), 0x8000)
}

/// The sample of three bytes with the index `i`.
pub open spec fn pcm24_at(data: Seq<u8>, i: int) -> int {
    signed(crate::format::u16_at(data, 3 * i) + 0x1_0000 * data[3 * i + 2], 0x80_0000)
}

/// The sample of four bytes with the index `i`.
pub open spec fn pcm32_at(data: Seq<u8>, i: int) -> int {
    signed(crate::format::u32_at(data, 4 * i), 0x8000_0000)
}

/// The samples of a packet.
pub open spec fn conversion(
    layout: PacketLayout,
    frames: u32,
    flags: u32,
    data: Seq<u8>,
) -> ConvertedView {
    let count = sample_count(layout, frames);
    match encoding(layout, flags) {
        Encoding::Silence => ConvertedView::Silence(count),
        Encoding::Unknown => ConvertedView::Unsupported(count),
        Encoding::Pcm16 => ConvertedView::Scaled {
            samples: Seq::new(count as nat, |i: int| pcm16_at(data, i) as i32),
            full_scale: 0x8000,
        },
        Encoding::Pcm24 => ConvertedView::Scaled {
            samples: Seq::new(count24(layout, frames) as nat, |i: int| pcm24_at(data, i) as i32),
            full_scale: 0x80_0000,
        },
        Encoding::Pcm32 => ConvertedView::Scaled {
            samples: Seq::new(count as nat, |i: int| pcm32_at(data, i) as i32),
            full_scale: 0x8000_0000,
        },
        Encoding::Float32 => ConvertedView::Float(
            Seq::new(count as nat, |i: int| crate::format::u32_at(data, 4 * i) as u32),
        ),
    }
}

/// How many bytes of a packet are looked at, where the packet can be taken on
/// this machine.
pub fn packet_bytes(layout: PacketLayout, frames: u32, flags: u32) -> (n: Option<usize>)
    ensures
        n == (if bytes_needed(layout, frames, flags) <= usize::MAX && sample_count(layout, frames)
            <= usize::MAX {
            Some(bytes_needed(layout, frames, flags) as usize)
        } else {
            None
        }),
{
    proof {
        lemma_products(frames, layout.channels);
        lemma_products(frames, layout.block_align);
    }
    let count: u64 = frames as u64 * layout.channels as u64;
    let whole: u64 = frames as u64 * layout.block_align as u64 / 3;
    let needed: u64 = if flags & SILENT != 0 {
        0
    } else if layout.bits == 16 && !layout.is_float {
        2 * count
    } else if layout.bits == 24 && !layout.is_float {
        3 * (if count < whole {
            count
        } else {
            whole
        })
    } else if layout.bits == 32 {
        4 * count
    } else {
        0
    };
    if needed <= usize::MAX as u64 && count <= usize::MAX as u64 {
        Some(needed as usize)
    } else {
        None
    }
}

/// The samples of a packet of `frames` frames.
pub fn convert_packet(data: &[u8], frames: u32, flags: u32, layout: PacketLayout) -> (converted:
    Converted)
    requires
        sample_count(layout, frames) <= usize::MAX,
        bytes_needed(layout, frames, flags) <= data@.len(),
    ensures
        converted@ == conversion(layout, frames, flags, data@),
{
    proof {
        lemma_products(frames, layout.channels);
        lemma_products(frames, layout.block_align);
    }
    let count: usize = (frames as u64 * layout.channels as u64) as usize;
    if flags & SILENT != 0 {
        Converted::Silence(count)
    } else if layout.bits == 16 && !layout.is_float {
        Converted::Scaled { samples: take16(data, count), full_scale: 0x8000 }
    } else if layout.bits == 24 && !layout.is_float {
        let whole: u64 = frames as u64 * layout.block_align as u64 / 3;
        let taken: usize = if (count as u64) < whole {
            count
        } else {
            whole as usize
        };
        Converted::Scaled { samples: take24(data, taken), full_scale: 0x80_0000 }
    } else if layout.bits == 32 && layout.is_float {
        Converted::Float(take_patterns(data, count))
    } else if layout.bits == 32 {
        Converted::Scaled { samples: take32(data, count), full_scale: 0x8000_0000 }
    } else {
        Converted::Unsupported(count)
    }
}

fn take16(data: &[u8], count: usize) -> (samples: Vec<i32>)
    requires
        2 * count <= data@.len(),
    ensures
        samples@.len() == count,
        forall|i: int| 0 <= i < count ==> #[trigger] samples@[i] == pcm16_at(data@, i),
{
    let size: usize = data.len();
    let mut samples: Vec<i32> = Vec::new();
    let mut i: usize = 0;
    while i < count
        invariant
            2 * count <= size == data@.len(),
            0 <= i <= count,
            samples@.len() == i,
            forall|j: int| 0 <= j < i ==> #[trigger] samples@[j] == pcm16_at(data@, j),
        decreases count - i,
    {
        let n: i32 = data[2 * i] as i32 + 0x100 * data[2 * i + 1] as i32;
        samples.push(
            if n < 0x8000 {
                n
            } else {
                n - 0x1_0000
            },
        );
        i = i + 1;
    }
    samples
}

fn take24(data: &[u8], count: usize) -> (samples: Vec<i32>)
    requires
        3 * count <= data@.len(),
    ensures
        samples@.len() == count,
        forall|i: int| 0 <= i < count ==> #[trigger] samples@[i] == pcm24_at(data@, i),
{
    let size: usize = data.len();
    let mut samples: Vec<i32> = Vec::new();
    let mut i: usize = 0;
    while i < count
        invariant
            3 * count <= size == data@.len(),
            0 <= i <= count,
            samples@.len() == i,
            forall|j: int| 0 <= j < i ==> #[trigger] samples@[j] == pcm24_at(data@, j),
        decreases count - i,
    {
        let b0: i32 = data[3 * i] as i32;
        let b1: i32 = data[3 * i + 1] as i32;
        let b2: i32 = data[3 * i + 2] as i32;
        let n: i32 = b0 | (b1 << 8) | (b2 << 16);
        proof {
            assert(n == b0 + 0x100 * b1 + 0x1_0000 * b2 && (n << 8) >> 8 == (if n < 0x80_0000 {
                n as int
            } else {
                n - 0x100_0000
            })) by (bit_vector)
                requires
                    0 <= b0 <= 0xff,
                    0 <= b1 <= 0xff,
                    0 <= b2 <= 0xff,
                    n == b0 | (b1 << 8) | (b2 << 16),
            ;
        }
        samples.push((n << 8) >> 8);
        i = i + 1;
    }
    samples
}

fn take32(data: &[u8], count: usize) -> (samples: Vec<i32>)
    requires
        4 * count <= data@.len(),
    ensures
        samples@.len() == count,
        forall|i: int| 0 <= i < count ==> #[trigger] samples@[i] == pcm32_at(data@, i),
{
    let patterns: Vec<u32> = take_patterns(data, count);
    let mut samples: Vec<i32> = Vec::new();
    let mut i: usize = 0;
    while i < count
        invariant
            0 <= i <= count == patterns@.len(),
            samples@.len() == i,
            forall|j: int|
                0 <= j < count ==> #[trigger] patterns@[j] == crate::format::u32_at(data@, 4 * j),
            forall|j: int| 0 <= j < i ==> #[trigger] samples@[j] == pcm32_at(data@, j),
        decreases count - i,
    {
        let n: i64 = patterns[i] as i64;
        samples.push(
            if n < 0x8000_0000 {
                n as i32
            } else {
                (n - 0x1_0000_0000) as i32
            },
        );
        i = i + 1;
    }
    samples
}

fn take_patterns(data: &[u8], count: usize) -> (samples: Vec<u32>)
    requires
        4 * count <= data@.len(),
    ensures
        samples@.len() == count,
        forall|i: int|
            0 <= i < count ==> #[trigger] samples@[i] == crate::format::u32_at(data@, 4 * i),
{
    let size: usize = data.len();
    let mut samples: Vec<u32> = Vec::new();
    let mut i: usize = 0;
    while i < count
        invariant
            4 * count <= size == data@.len(),
            0 <= i <= count,
            samples@.len() == i,
            forall|j: int|
                0 <= j < i ==> #[trigger] samples@[j] == crate::format::u32_at(data@, 4 * j),
        decreases count - i,
    {
        samples.push(
            data[4 * i] as u32 + 0x100 * data[4 * i + 1] as u32 + 0x1_0000 * (data[4 * i + 2] as u32
                + 0x100 * data[4 * i + 3] as u32),
        );
        i = i + 1;
    }
    samples
}

/// The product of a count of frames and a size of a frame is far below the
/// largest number of sixty-four bits.
proof fn lemma_products(frames: u32, size: u16)
    ensures
        0 <= frames * size <= 0xffff_ffff * 0xffff,
{
    assert(0 <= frames * size <= 0xffff_ffff * 0xffff) by (nonlinear_arith)
        requires
            frames <= 0xffff_ffff,
            size <= 0xffff,
    ;
}

/// No sample lies beyond its full scale: what it stands for is at least minus
/// one and below one.
pub proof fn lemma_within_full_scale(
    layout: PacketLayout,
    frames: u32,
    flags: u32,
    data: Seq<u8>,
)
    ensures
        conversion(layout, frames, flags, data) matches ConvertedView::Scaled {
            samples,
            full_scale,
        } ==> forall|i: int|
            0 <= i < samples.len() ==> -full_scale <= #[trigger] samples[i] < full_scale,
{
    if let ConvertedView::Scaled { samples, full_scale } = conversion(layout, frames, flags, data) {
        assert forall|i: int| 0 <= i < samples.len() implies -full_scale <= #[trigger] samples[i]
            < full_scale by {
            assert(0 <= data[2 * i] <= 0xff);
        }
    }
}

/// Where the block of a frame has room for three bytes for each channel, no
/// sample of three bytes is left out.
pub proof fn lemma_takes_all24(layout: PacketLayout, frames: u32)
    requires
        3 * layout.channels <= layout.block_align,
    ensures
        count24(layout, frames) == sample_count(layout, frames),
{
    let count = frames * layout.channels;
    let bytes = frames * layout.block_align;
    assert(3 * count <= bytes) by (nonlinear_arith)
        requires
            count == frames * layout.channels,
            bytes == frames * layout.block_align,
            3 * layout.channels <= layout.block_align,
    ;
    if count >= bytes / 3 {
        assert(count == bytes / 3);
    }
}

/// How a packet is taken: as silence where its flag says so, and else by the size and
/// the kind of its samples.  Every sample of every frame is taken, but for samples of
/// three bytes, of which only those that lie within the packet are.
pub proof fn lemma_encoding(layout: PacketLayout, frames: u32, flags: u32, data: Seq<u8>)
    ensures
        ({
            let converted = conversion(layout, frames, flags, data);
            let count = frames * layout.channels;
            let whole = frames * layout.block_align;
            if flags & 2 != 0 {
                converted == ConvertedView::Silence(count)
            } else if layout.bits == 32 && layout.is_float {
                converted matches ConvertedView::Float(samples) && samples.len() == count
            } else if layout.is_float || (layout.bits != 16 && layout.bits != 24 && layout.bits
                != 32) {
                converted == ConvertedView::Unsupported(count)
            } else {
                &&& converted matches ConvertedView::Scaled { samples, full_scale }
                &&& layout.bits == 16 ==> full_scale == 32768 && samples.len() == count
                &&& layout.bits == 32 ==> full_scale == 2147483648 && samples.len() == count
                &&& layout.bits == 24 ==> {
                    let n = samples.len();
                    &&& full_scale == 8388608
                    &&& n <= count
                    &&& 3 * n <= whole
                    &&& n == count || 3 * (n + 1) > whole
                }
            }
        }),
{
    lemma_products(frames, layout.channels);
    lemma_products(frames, layout.block_align);
    assert(2u32 == SILENT);
}

/// Every sample is the little-endian number of its own bytes: it differs from what they
/// make up by a multiple of two to the power of its bits, and lies within its full
/// scale.
pub proof fn lemma_sample(
    layout: PacketLayout,
    frames: u32,
    flags: u32,
    data: Seq<u8>,
    i: int,
)
    ensures
        ({
            let low2 = data[2 * i] + 256 * data[2 * i + 1];
            let low3 = data[3 * i] + 256 * data[3 * i + 1] + 65536 * data[3 * i + 2];
            let low4 = data[4 * i] + 256 * data[4 * i + 1] + 65536 * data[4 * i + 2] + 16777216
                * data[4 * i + 3];
            match conversion(layout, frames, flags, data) {
                ConvertedView::Float(samples) => 0 <= i < samples.len() ==> samples[i] == low4,
                ConvertedView::Scaled { samples, full_scale } => 0 <= i < samples.len() ==> {
                    &&& layout.bits == 16 ==> (samples[i] == low2 || samples[i] == low2 - 65536)
                    &&& layout.bits == 24 ==> (samples[i] == low3 || samples[i] == low3 - 16777216)
                    &&& layout.bits == 32 ==> (samples[i] == low4 || samples[i] == low4
                        - 4294967296)
                    &&& -full_scale <= samples[i] < full_scale
                },
                _ => true,
            }
        }),
{
}

/// How many bytes of a packet are looked at: none of silence or of what is not known,
/// and else the size of all samples that are taken, which lie within the bytes.
pub proof fn lemma_bytes(layout: PacketLayout, frames: u32, flags: u32, data: Seq<u8>)
    ensures
        ({
            let bytes = bytes_needed(layout, frames, flags);
            match conversion(layout, frames, flags, data) {
                ConvertedView::Silence(_) | ConvertedView::Unsupported(_) => bytes == 0,
                ConvertedView::Float(samples) => bytes == 4 * samples.len(),
                ConvertedView::Scaled { samples, .. } => 8 * bytes == layout.bits * samples.len(),
            }
        }),
        flags & 2 != 0 ==> encoding(layout, flags) == Encoding::Silence,
{
    lemma_products(frames, layout.channels);
    lemma_products(frames, layout.block_align);
}

/// As many samples come out of a packet as its frames have, whether it holds silence,
/// sounds or what is not known; of samples of three bytes none is left out where a frame
/// has room for them.
pub proof fn lemma_count(layout: PacketLayout, frames: u32, flags: u32, data: Seq<u8>)
    requires
        layout.bits != 24 || layout.is_float || flags & 2 != 0 || 3 * layout.channels
            <= layout.block_align,
    ensures
        count_of(conversion(layout, frames, flags, data)) == frames * layout.channels,
{
    lemma_products(frames, layout.channels);
    lemma_encoding(layout, frames, flags, data);
    if 3 * layout.channels <= layout.block_align {
        lemma_takes_all24(layout, frames);
    }
}

} // verus!
