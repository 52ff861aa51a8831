//! A bounded queue of audio samples over a power-of-two buffer.
//!
//! Samples are carried as the IEEE 754 bit patterns of single-precision
//! numbers, so silence is the pattern zero.  The queue keeps two counters, the
//! number of samples ever written and the number ever read, both modulo
//! two to the power of sixty-four; what is queued lies between them.
use vstd::prelude::*;

verus! {

/// The smallest capacity that a queue is given.
pub const MIN_CAPACITY: usize = 1024;

/// How many samples a queue for `capacity_ms` milliseconds is asked to hold.
pub open spec fn requested_samples(capacity_ms: int, sample_rate: int, channels: int) -> int {
    capacity_ms * (sample_rate / 1000) * channels
}

/// Whether `capacity` is the smallest power of two that is at least
/// `requested` and at least [`MIN_CAPACITY`].
pub open spec fn is_capacity_for(requested: int, capacity: int) -> bool {
    &&& vstd::arithmetic::power2::is_pow2(capacity)
    &&& capacity >= requested
    &&& capacity >= MIN_CAPACITY
    &&& capacity == MIN_CAPACITY || capacity < 2 * requested
}

/// A queue of samples with room for a fixed number of them.
pub struct AudioRingBuffer {
    buffer: Vec<u32>,
    capacity: usize,
    capacity_mask: usize,
    write_seq: u64,
    read_seq: u64,
}

impl View for AudioRingBuffer {
    type V = Seq<u32>;

    /// The queued samples, oldest first.
    closed spec fn view(&self) -> Seq<u32> {
        Seq::new(
            self.used(),
            |i: int| self.buffer@[(self.read_seq + i) % (self.capacity as int)],
        )
    }
}

impl AudioRingBuffer {
    /// How many samples lie between the two counters.
    closed spec fn used(&self) -> nat {
        vstd::wrapping::u64_specs::wrapping_sub(self.write_seq, self.read_seq) as nat
    }

    /// How many samples the queue has room for.
    pub closed spec fn room(&self) -> nat {
        self.capacity as nat
    }

    /// The buffer is a power of two long, its size in bytes can be addressed,
    /// and no more is queued than fits.
    pub closed spec fn wf(&self) -> bool {
        &&& self.buffer@.len() == self.capacity
        &&& vstd::arithmetic::power2::is_pow2(self.capacity as int)
        &&& MIN_CAPACITY <= self.capacity
        &&& self.capacity * 4 <= isize::MAX
        &&& self.capacity_mask == self.capacity - 1
        &&& self.used() <= self.capacity
    }

    /// An empty queue for `capacity_ms` milliseconds of audio.
    ///
    /// The number of samples is rounded up to a power of two, and is at least
    /// [`MIN_CAPACITY`].
    pub fn new(capacity_ms: usize, sample_rate: usize, channels: usize) -> (r: Self)
        requires
            capacity_ms * (sample_rate / 1000) <= usize::MAX,
            8 * requested_samples(capacity_ms as int, sample_rate as int, channels as int)
                <= isize::MAX + 1,
        ensures
            r.wf(),
            r@ == Seq::<u32>::empty(),
            is_capacity_for(
                requested_samples(capacity_ms as int, sample_rate as int, channels as int),
                r.room() as int,
            ),
            r.room() >= capacity_ms * (sample_rate / 1000) * channels,
            r.room() >= 1024,
            r.room() == 1024 || r.room() < 2 * (capacity_ms * (sample_rate / 1000) * channels),
            vstd::arithmetic::power2::is_pow2(r.room() as int),
    {
        let samples_per_ms: usize = sample_rate / 1000;
        let per_channel: usize = capacity_ms * samples_per_ms;
        let requested: usize = per_channel * channels;
        let capacity: usize = next_capacity(requested);
        let buffer: Vec<u32> = vec![0u32; capacity];
        let r = AudioRingBuffer {
            buffer,
            capacity,
            capacity_mask: capacity - 1,
            write_seq: 0,
            read_seq: 0,
        };
        assert(r@ =~= Seq::<u32>::empty());
        r
    }

    /// How many samples are queued.
    pub fn available(&self) -> (n: usize)
        requires
            self.wf(),
        ensures
            n == self@.len(),
    {
        self.write_seq.wrapping_sub(self.read_seq) as usize
    }

    /// Queues as many of the first samples of `data` as there is room for, and
    /// drops the rest.
    pub fn write(&mut self, data: &[u32])
        requires
            old(self).wf(),
        ensures
            final(self).wf(),
            final(self).room() == old(self).room(),
            final(self)@ == after_write(old(self)@, old(self).room(), data@),
    {
        if data.len() == 0 {
            assert(self@ =~= after_write(old(self)@, old(self).room(), data@));
            return ;
        }
        let space_used: usize = self.write_seq.wrapping_sub(self.read_seq) as usize;
        let space_avail: usize = self.capacity.saturating_sub(space_used);
        let to_write: usize = if data.len() < space_avail {
            data.len()
        } else {
            space_avail
        };
        if to_write == 0 {
            assert(self@ =~= after_write(old(self)@, old(self).room(), data@));
            return ;
        }
        let write_idx: usize = (self.write_seq & (self.capacity_mask as u64)) as usize;
        let ghost first = self.read_seq as int;
        let ghost cap = self.capacity as int;
        let ghost queued = self@;
        proof {
            lemma_mask_u64(self.write_seq, self.capacity);
            lemma_counter_wrap(self.read_seq, self.write_seq, self.capacity);
            assert(write_idx == (first + space_used) % cap);
        }
        let mut i: usize = 0;
        while i < to_write
            invariant
                0 <= i <= to_write <= data@.len(),
                space_used + to_write <= cap,
                0 <= write_idx < cap,
                write_idx == (first + space_used) % cap,
                cap == self.capacity,
                self.capacity == old(self).capacity,
                self.capacity_mask == old(self).capacity_mask,
                self.capacity_mask == cap - 1,
                self.write_seq == old(self).write_seq,
                self.read_seq == old(self).read_seq,
                first == self.read_seq,
                self.buffer@.len() == cap,
                vstd::arithmetic::power2::is_pow2(cap),
                cap * 4 <= isize::MAX,
                queued.len() == space_used,
                forall|j: int|
                    0 <= j < space_used + i ==> #[trigger] self.buffer@[(first + j) % cap]
                        == (queued + data@.take(i as int))[j],
            decreases to_write - i,
        {
            let idx: usize = (write_idx + i) & self.capacity_mask;
            proof {
                lemma_mask_usize((write_idx + i) as usize, self.capacity);
                vstd::arithmetic::div_mod::lemma_add_mod_noop_right(
                    i as int,
                    first + space_used,
                    cap,
                );
                assert(idx == (first + (space_used + i)) % cap);
                assert forall|j: int| 0 <= j < space_used + i implies #[trigger] ((first + j)
                    % cap) != idx by {
                    lemma_slots_differ(first + j, first + (space_used + i), cap);
                }
            }
            let ghost before = self.buffer@;
            self.buffer[idx] = data[i];
            proof {
                assert forall|j: int| 0 <= j < space_used + i + 1 implies #[trigger] self.buffer@[(
                first + j) % cap] == (queued + data@.take(i + 1))[j] by {
                    if j < space_used + i {
                        assert((first + j) % cap != idx);
                        assert(0 <= (first + j) % cap < cap) by {
                            vstd::arithmetic::div_mod::lemma_mod_bound(first + j, cap);
                        }
                        assert(self.buffer@[(first + j) % cap] == before[(first + j) % cap]);
                        assert((queued + data@.take(i as int))[j] == (queued + data@.take(i + 1))[j]);
                    } else {
                        assert(j == space_used + i);
                    }
                }
            }
            i = i + 1;
        }
        self.write_seq = self.write_seq.wrapping_add(to_write as u64);
        proof {
            assert(self.used() == space_used + to_write);
            assert(self@ =~= after_write(old(self)@, old(self).room(), data@));
        }
    }

    /// Takes the oldest samples, as many as `dst` has room for, into the front of
    /// `dst`, and returns how many there were.
    pub fn read(&mut self, dst: &mut [u32]) -> (n: usize)
        requires
            old(self).wf(),
        ensures
            final(self).wf(),
            final(self).room() == old(self).room(),
            n == read_count(old(self)@, old(dst)@.len()),
            final(self)@ == old(self)@.skip(n as int),
            final(dst)@ == old(self)@.take(n as int) + old(dst)@.skip(n as int),
    {
        let wanted: usize = dst.len();
        if wanted == 0 {
            assert(self@ =~= old(self)@.skip(0));
            assert(dst@ =~= old(self)@.take(0) + old(dst)@.skip(0));
            return 0;
        }
        let available: usize = self.write_seq.wrapping_sub(self.read_seq) as usize;
        let to_read: usize = if wanted < available {
            wanted
        } else {
            available
        };
        if to_read == 0 {
            assert(self@ =~= old(self)@.skip(0));
            assert(dst@ =~= old(self)@.take(0) + old(dst)@.skip(0));
            return 0;
        }
        let read_idx: usize = (self.read_seq & (self.capacity_mask as u64)) as usize;
        let ghost first = self.read_seq as int;
        let ghost cap = self.capacity as int;
        let ghost queued = self@;
        let ghost given = dst@;
        proof {
            lemma_mask_u64(self.read_seq, self.capacity);
        }
        let mut i: usize = 0;
        while i < to_read
            invariant
                0 <= i <= to_read <= queued.len(),
                to_read <= given.len(),
                queued.len() <= cap,
                0 <= read_idx < cap,
                read_idx == first % cap,
                *self == *old(self),
                cap == self.capacity,
                self.capacity_mask == cap - 1,
                self.buffer@.len() == cap,
                vstd::arithmetic::power2::is_pow2(cap),
                cap * 4 <= isize::MAX,
                queued == self@,
                first == self.read_seq,
                dst@ == queued.take(i as int) + given.skip(i as int),
            decreases to_read - i,
        {
            let idx: usize = (read_idx + i) & self.capacity_mask;
            proof {
                lemma_mask_usize((read_idx + i) as usize, self.capacity);
                vstd::arithmetic::div_mod::lemma_add_mod_noop_right(i as int, first, cap);
                assert(idx == (first + i) % cap);
                assert(queued[i as int] == self.buffer@[idx as int]);
            }
            dst[i] = self.buffer[idx];
            assert(dst@ =~= queued.take(i + 1) + given.skip(i + 1));
            i = i + 1;
        }
        let ghost before = self.read_seq;
        self.read_seq = self.read_seq.wrapping_add(to_read as u64);
        proof {
            lemma_counter_wrap(before, self.read_seq, self.capacity);
            assert(self.used() == queued.len() - to_read);
            assert(self@.len() == queued.skip(to_read as int).len());
            assert forall|j: int| 0 <= j < self@.len() implies #[trigger] self@[j]
                == queued.skip(to_read as int)[j] by {
                lemma_same_slot(self.read_seq as int, first + to_read, j, cap);
            }
            assert(self@ =~= queued.skip(to_read as int));
        }
        to_read
    }

    /// Drops everything that is queued.
    pub fn clear(&mut self)
        requires
            old(self).wf(),
        ensures
            final(self).wf(),
            final(self).room() == old(self).room(),
            final(self)@ == Seq::<u32>::empty(),
    {
        self.read_seq = self.write_seq;
        assert(self@ =~= Seq::<u32>::empty());
    }
}

/// What is queued after `data` was offered to a queue that holds `queued` and
/// has room for `room` samples in all.
pub open spec fn after_write(queued: Seq<u32>, room: nat, data: Seq<u32>) -> Seq<u32> {
    let free = room - queued.len();
    queued + data.take(if data.len() < free {
        data.len() as int
    } else {
        free as int
    })
}

/// How many samples a read into `wanted` places takes.
pub open spec fn read_count(queued: Seq<u32>, wanted: nat) -> nat {
    if wanted < queued.len() {
        wanted
    } else {
        queued.len()
    }
}

/// A queue never holds more than it has room for, and its room is a power of two.
pub proof fn lemma_room(ring: AudioRingBuffer)
    requires
        ring.wf(),
    ensures
        ring@.len() <= ring.room(),
        ring.room() >= MIN_CAPACITY,
        vstd::arithmetic::power2::is_pow2(ring.room() as int),
{
}

/// There is one capacity for each number of samples that is asked for.
pub proof fn lemma_one_capacity(requested: int, a: int, b: int)
    requires
        is_capacity_for(requested, a),
        is_capacity_for(requested, b),
    ensures
        a == b,
{
    if a < b {
        lemma_pow2_gap(a, b);
    }
    if b < a {
        lemma_pow2_gap(b, a);
    }
}

/// What is read back behind what was queued before is what was written, from its
/// start and in order, as far as there was room for it; what fits is read back in
/// full, and nothing is left behind it.
pub proof fn lemma_write_then_read(queued: Seq<u32>, room: nat, data: Seq<u32>)
    requires
        queued.len() <= room,
    ensures
        ({
            let after = after_write(queued, room, data);
            let first = read_count(after, queued.len());
            let rest = after.skip(first as int);
            let second = read_count(rest, data.len());
            let back = rest.take(second as int);
            &&& after.take(first as int) == queued
            &&& back == data.take(second as int)
            &&& rest.skip(second as int) == Seq::<u32>::empty()
            &&& queued.len() + data.len() <= room ==> back == data
            &&& queued.len() + data.len() > room ==> back.len() == room - queued.len()
        }),
{
    let after = after_write(queued, room, data);
    let rest = after.skip(queued.len() as int);
    let second = read_count(rest, data.len());
    assert(after.take(queued.len() as int) =~= queued);
    assert(rest.take(second as int) =~= data.take(second as int));
    assert(rest.skip(second as int) =~= Seq::<u32>::empty());
    assert(data.take(data.len() as int) =~= data);
}

/// What was queued stays at the front, whatever is written, and the queue never
/// holds more than it has room for.
pub proof fn lemma_write_keeps_queued(queued: Seq<u32>, room: nat, data: Seq<u32>)
    requires
        queued.len() <= room,
    ensures
        after_write(queued, room, data).take(queued.len() as int) == queued,
        after_write(queued, room, data).len() <= room,
        data.len() > room - queued.len() ==> after_write(queued, room, data).len() == room,
{
    assert(after_write(queued, room, data).take(queued.len() as int) =~= queued);
}

/// Two writes one after the other queue what one write of both together does.
pub proof fn lemma_writes_concatenate(queued: Seq<u32>, room: nat, a: Seq<u32>, b: Seq<u32>)
    requires
        queued.len() <= room,
    ensures
        after_write(after_write(queued, room, a), room, b) == after_write(queued, room, a + b),
{
    assert(after_write(after_write(queued, room, a), room, b) =~= after_write(queued, room, a + b));
}

/// Two reads one after the other take what one read of both lengths does.
pub proof fn lemma_reads_concatenate(queued: Seq<u32>, m: nat, n: nat)
    ensures
        ({
            let first = read_count(queued, m);
            let second = read_count(queued.skip(first as int), n);
            &&& first + second == read_count(queued, m + n)
            &&& queued.take(first as int) + queued.skip(first as int).take(second as int)
                == queued.take(read_count(queued, m + n) as int)
            &&& queued.skip(first as int).skip(second as int) == queued.skip(
                read_count(queued, m + n) as int,
            )
        }),
{
    let first = read_count(queued, m);
    let second = read_count(queued.skip(first as int), n);
    let both = read_count(queued, m + n);
    assert(queued.take(first as int) + queued.skip(first as int).take(second as int)
        =~= queued.take(both as int));
    assert(queued.skip(first as int).skip(second as int) =~= queued.skip(both as int));
}

/// Samples that are less than a whole buffer apart lie in different slots.
proof fn lemma_slots_differ(a: int, b: int, cap: int)
    requires
        0 < cap,
        a < b < a + cap,
    ensures
        a % cap != b % cap,
{
    if a % cap == b % cap {
        vstd::arithmetic::div_mod::lemma_fundamental_div_mod(a, cap);
        vstd::arithmetic::div_mod::lemma_fundamental_div_mod(b, cap);
        let d = b / cap - a / cap;
        assert(cap * (b / cap) - cap * (a / cap) == cap * d) by (nonlinear_arith)
            requires
                d == b / cap - a / cap,
        ;
        assert(0 < cap * d < cap);
        assert(false) by (nonlinear_arith)
            requires
                0 < cap * d < cap,
                0 < cap,
        ;
    }
}

/// Counters that agree modulo the buffer agree on every later slot.
proof fn lemma_same_slot(a: int, b: int, j: int, cap: int)
    requires
        0 < cap,
        a % cap == b % cap,
    ensures
        (a + j) % cap == (b + j) % cap,
{
    vstd::arithmetic::div_mod::lemma_add_mod_noop_right(j, a, cap);
    vstd::arithmetic::div_mod::lemma_add_mod_noop_right(j, b, cap);
}

/// A power of two that a machine word holds is two to some power below the
/// number of its bits.
proof fn lemma_exponent(cap: usize) -> (k: nat)
    requires
        vstd::arithmetic::power2::is_pow2(cap as int),
    ensures
        k < usize::BITS,
        cap == vstd::arithmetic::power2::pow2(k),
        cap - 1 == vstd::bits::low_bits_mask(k),
{
    vstd::arithmetic::power2::is_pow2_equiv(cap as int);
    let k = choose|k: nat| vstd::arithmetic::power::pow(2, k) == cap as int;
    vstd::arithmetic::power2::lemma2_to64_rest();
    vstd::arithmetic::power2::lemma2_to64();
    if k >= usize::BITS {
        if k > usize::BITS {
            vstd::arithmetic::power2::lemma_pow2_strictly_increases(usize::BITS as nat, k);
        }
        assert(false);
    }
    k
}

/// Masking a counter with one less than a power of two is taking it modulo that
/// power.
proof fn lemma_mask_u64(x: u64, cap: usize)
    requires
        vstd::arithmetic::power2::is_pow2(cap as int),
    ensures
        x & ((cap - 1) as u64) == x as int % cap as int,
{
    let k = lemma_exponent(cap);
    vstd::bits::lemma_u64_low_bits_mask_is_mod(x, k);
}

/// The same for an index.
proof fn lemma_mask_usize(x: usize, cap: usize)
    requires
        vstd::arithmetic::power2::is_pow2(cap as int),
    ensures
        x & ((cap - 1) as usize) == x as int % cap as int,
{
    let k = lemma_exponent(cap);
    vstd::bits::lemma_usize_low_bits_mask_is_mod(x, k);
}

/// A counter that has wrapped round still names the slot that it would name had
/// it not.
proof fn lemma_counter_wrap(from: u64, to: u64, cap: usize)
    requires
        vstd::arithmetic::power2::is_pow2(cap as int),
    ensures
        to as int % cap as int == (from + vstd::wrapping::u64_specs::wrapping_sub(to, from))
            % cap as int,
{
    let k = lemma_exponent(cap);
    let range = 0x1_0000_0000_0000_0000int;
    let rest = vstd::arithmetic::power2::pow2((64 - k) as nat) as int;
    assert(range == rest * cap) by {
        vstd::arithmetic::power2::lemma2_to64();
        vstd::arithmetic::power2::lemma2_to64_rest();
        vstd::arithmetic::power2::lemma_pow2_adds((64 - k) as nat, k);
    }
    if to < from {
        vstd::arithmetic::div_mod::lemma_mod_multiples_vanish(rest, to as int, cap as int);
        assert(cap * rest == rest * cap) by (nonlinear_arith);
    }
}

/// The largest capacity whose size in bytes can be addressed is a power of two.
proof fn lemma_limit_is_pow2()
    ensures
        vstd::arithmetic::power2::is_pow2((isize::MAX + 1) / 8),
{
    vstd::arithmetic::power2::lemma2_to64();
    vstd::arithmetic::power2::lemma2_to64_rest();
    let k: nat = if isize::MAX == 0x7fff_ffff {
        28
    } else {
        60
    };
    vstd::arithmetic::power::lemma_pow_positive(2, k);
    assert(vstd::arithmetic::power2::pow2(k) == (isize::MAX + 1) / 8);
    assert(vstd::arithmetic::power::pow(2, k) == (isize::MAX + 1) / 8);
    vstd::arithmetic::power2::is_pow2_equiv((isize::MAX + 1) / 8);
}

/// Of two powers of two, the smaller fits into the larger at least twice.
proof fn lemma_pow2_gap(a: int, b: int)
    requires
        vstd::arithmetic::power2::is_pow2(a),
        vstd::arithmetic::power2::is_pow2(b),
        a < b,
    ensures
        2 * a <= b,
    decreases a,
{
    reveal(vstd::arithmetic::power2::is_pow2);
    if a > 1 {
        lemma_pow2_gap(a / 2, b / 2);
    }
}

/// The smallest power of two that is at least `requested` and at least
/// [`MIN_CAPACITY`].
fn next_capacity(requested: usize) -> (capacity: usize)
    requires
        8 * requested <= isize::MAX + 1,
    ensures
        is_capacity_for(requested as int, capacity as int),
        capacity * 4 <= isize::MAX,
{
    let mut capacity: usize = MIN_CAPACITY;
    proof {
        assert(vstd::arithmetic::power2::is_pow2(1024)) by {
            reveal_with_fuel(vstd::arithmetic::power2::is_pow2, 12);
        }
    }
    while capacity < requested
        invariant
            8 * requested <= isize::MAX + 1,
            8 * capacity <= isize::MAX + 1,
            MIN_CAPACITY <= capacity,
            capacity == MIN_CAPACITY || capacity < 2 * requested,
            vstd::arithmetic::power2::is_pow2(capacity as int),
        decreases 2 * requested - capacity,
    {
        proof {
            lemma_limit_is_pow2();
            lemma_pow2_gap(capacity as int, (isize::MAX + 1) / 8);
            assert(vstd::arithmetic::power2::is_pow2(2 * capacity)) by {
                reveal(vstd::arithmetic::power2::is_pow2);
            }
        }
        capacity = capacity * 2;
    }
    capacity
}

/// What is queued keeps its place, and what is written follows it in order.
pub proof fn lemma_places(queued: Seq<u32>, room: nat, data: Seq<u32>, i: int)
    requires
        queued.len() <= room,
        0 <= i < after_write(queued, room, data).len(),
    ensures
        i < queued.len() ==> after_write(queued, room, data)[i] == queued[i],
        i >= queued.len() ==> after_write(queued, room, data)[i] == data[i - queued.len()],
        after_write(queued, room, data).len() == queued.len() + data.len()
            || after_write(queued, room, data).len() == room && queued.len() + data.len() >= room,
{
}

/// A read takes all that is queued or as much as it has places for, whichever is less.
pub proof fn lemma_read_takes_all(queued: Seq<u32>, wanted: nat)
    ensures
        read_count(queued, wanted) <= queued.len(),
        read_count(queued, wanted) <= wanted,
        read_count(queued, wanted) == queued.len() || read_count(queued, wanted) == wanted,
{
}

} // verus!
