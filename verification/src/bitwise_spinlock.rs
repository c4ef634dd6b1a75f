//! One lock per chunk, each a single bit of a byte region that the caller
//! supplies.
//!
//! The index of a chunk is multiplied by a number that shares no divisor
//! with the number of chunks, and reduced modulo that number, before it is
//! split into a byte and a bit: the locks of neighbouring chunks then lie in
//! different bytes.

use vstd::prelude::*;
use xorshift::{Rng, SeedableRng, SplitMix64};
use crate::errors::BitlockErr;
use crate::math::{
    common_divisor, coprime, gcd, is_gcd, lemma_one_more_than_multiple_is_coprime,
};

verus! {

/// The multiplier at which the search for a coprime one starts.
pub const FIRST_MULTIPLIER: usize = 512;

/// The proof that a lock is held, to be given back when it is released.
#[derive(Debug)]
pub struct BitGuard {
    idx: usize,
}

/// A set of locks in a byte region.
#[derive(Debug, Clone, Copy, PartialEq, Eq, Structural)]
pub struct Bitlock {
    /// Where in the region the bytes of the locks begin.
    pub base: usize,
    /// The number of locks.
    pub size_bits: usize,
    pub coprime_multiplier: usize,
    pub poisoned: bool,
}

/// The byte and the bit of one lock.
#[derive(Debug, Clone, Copy)]
pub struct MappedIdx {
    pub byte_idx: usize,
    pub bit: u8,
}

/// What a waiting thread does after one draw of its random number generator.
#[derive(Debug, Clone, Copy, PartialEq, Eq, Structural)]
pub enum Backoff {
    /// Try the lock again.
    Retry,
    /// Give the processor to another thread, then draw again.
    Yield,
    /// Pause for a moment, then draw again.
    Pause,
    /// Draw again at once.
    Draw,
}

/// Where the index of a lock is sent before it is split into byte and bit.
pub open spec fn spec_permuted(idx: int, multiplier: int, size_bits: int) -> int {
    (idx * multiplier) % size_bits
}

/// The mask that has only bit `n` set.
pub open spec fn spec_bit(n: int) -> u8 {
    1u8 << (n as u8)
}

/// What a waiting thread does after drawing `draw`, having paused `ctr`
/// times: of the low eight bits of the draw, 0 means to pause, or to yield
/// after more than three pauses, 1 to 31 mean to try the lock again, and
/// anything else to draw again.
pub open spec fn spec_backoff(draw: u32, ctr: u32) -> (Backoff, u32) {
    let low = draw & 0xff;
    if low == 0 && ctr > 3 {
        (Backoff::Yield, ctr)
    } else if low == 0 {
        (Backoff::Pause, (ctr + 1) as u32)
    } else if low < 32 {
        (Backoff::Retry, ctr)
    } else {
        (Backoff::Draw, ctr)
    }
}

/// What a waiting thread does after drawing `draw`, having paused `ctr`
/// times, and the number of its pauses after that.
pub fn backoff(draw: u32, ctr: u32) -> (r: (Backoff, u32))
    ensures
        r == spec_backoff(draw, ctr),
{
    let low: u32 = draw & 0xff;
    if low == 0 && ctr > 3 {
        (Backoff::Yield, ctr)
    } else if low == 0 {
        (Backoff::Pause, ctr + 1)
    } else if low < 32 {
        (Backoff::Retry, ctr)
    } else {
        (Backoff::Draw, ctr)
    }
}

#[verifier::external_type_specification]
#[verifier::external_body]
pub struct ExSplitMix64(SplitMix64);

/// `SplitMix64::from_seed`: a generator that starts from `seed`.
#[verifier::external_body]
fn seeded(seed: u64) -> SplitMix64 {
    SplitMix64::from_seed(seed)
}

/// `SplitMix64::next_u32`: the next number of the generator. Nothing is
/// claimed of the number.
#[verifier::external_body]
fn next_draw(rng: &mut SplitMix64) -> u32 {
    rng.next_u32()
}

/// The seed of the generator of a thread that waits for the lock `idx`: the
/// index plus the number of the thread, wrapping around at 2^64.
pub open spec fn spec_backoff_seed(idx: usize, thread: u64) -> u64 {
    if idx + thread > u64::MAX {
        (idx + thread - 0x1_0000_0000_0000_0000) as u64
    } else {
        (idx + thread) as u64
    }
}

/// The random number generator of one waiting thread, together with the
/// seed that it was started from.
pub struct BackoffGenerator {
    seed: u64,
    rng: SplitMix64,
}

impl BackoffGenerator {
    /// The seed that the generator was started from.
    pub closed spec fn view(&self) -> u64 {
        self.seed
    }

    /// The seed that the generator was started from.
    pub fn seed(&self) -> (r: u64)
        ensures
            r == self@,
    {
        self.seed
    }
}

/// The generator of a thread that waits for the lock `idx`: its seed is the
/// index plus the number of the thread, wrapping around.
pub fn backoff_generator(idx: usize, thread: u64) -> (r: BackoffGenerator)
    ensures
        r@ == spec_backoff_seed(idx, thread),
{
    let seed: u64 = (idx as u64).wrapping_add(thread);
    BackoffGenerator { seed, rng: seeded(seed) }
}

/// Draws a number from the generator of a waiting thread that has paused
/// `ctr` times, and says what the thread does next, as `backoff` does for
/// the number that was drawn. The generator keeps its seed.
pub fn backoff_draw(generator: &mut BackoffGenerator, ctr: u32) -> (r: (Backoff, u32))
    ensures
        exists|draw: u32| r == #[trigger] spec_backoff(draw, ctr),
        final(generator)@ == old(generator)@,
{
    let draw = next_draw(&mut generator.rng);
    backoff(draw, ctr)
}

impl BitGuard {
    /// The index of the lock that is held.
    pub closed spec fn view(&self) -> usize {
        self.idx
    }

    /// The index of the lock that is held.
    pub fn index(&self) -> (r: usize)
        ensures
            r == self@,
    {
        self.idx
    }

    /// Gives the lock back.
    pub fn unlock(self, parent: &mut Bitlock, region: &mut [u8])
        requires
            old(parent).fits(old(region)@),
            self@ < old(parent).size_bits,
        ensures
            *final(parent) == *old(parent),
            final(region)@ == old(parent).spec_released(old(region)@, self@ as int),
    {
        self.drop_guard(parent, region, false)
    }

    /// Gives the lock back at the end of the guard's life. Where the holder
    /// is unwinding from a failure, the lock set is poisoned first.
    pub fn drop_guard(self, parent: &mut Bitlock, region: &mut [u8], panicking: bool)
        requires
            old(parent).fits(old(region)@),
            self@ < old(parent).size_bits,
        ensures
            final(parent).poisoned == (old(parent).poisoned || panicking),
            final(parent).base == old(parent).base,
            final(parent).size_bits == old(parent).size_bits,
            final(parent).coprime_multiplier == old(parent).coprime_multiplier,
            final(region)@ == old(parent).spec_released(old(region)@, self@ as int),
    {
        if panicking {
            parent.poisoned = true;
        }
        parent.unlock(region, &self);
    }
}

impl Bitlock {
    /// The number of bytes that the locks take.
    pub open spec fn spec_bytes(&self) -> int {
        (self.size_bits + 7) / 8
    }

    /// The multiplier permutes the indices.
    pub open spec fn wf(&self) -> bool {
        self.size_bits > 0 ==> coprime(self.coprime_multiplier as nat, self.size_bits as nat)
    }

    /// The lock set is as `new` makes it for `ct` locks at `base`: not
    /// poisoned, with the first multiplier from 512 on that shares no
    /// divisor with `ct`.
    pub open spec fn fresh(&self, base: usize, ct: usize) -> bool {
        &&& self.base == base
        &&& self.size_bits == ct
        &&& !self.poisoned
        &&& self.wf()
        &&& self.coprime_multiplier >= FIRST_MULTIPLIER
        &&& ct > 0 ==> forall|m: nat|
            FIRST_MULTIPLIER <= m < self.coprime_multiplier ==> !#[trigger] coprime(m, ct as nat)
        &&& ct == 0 ==> self.coprime_multiplier == FIRST_MULTIPLIER
    }

    /// The bytes of the locks lie inside a region with these contents.
    pub open spec fn fits(&self, region: Seq<u8>) -> bool {
        self.base + self.spec_bytes() <= region.len()
    }

    /// The byte and the bit of the lock `idx`.
    pub open spec fn spec_map_index(&self, idx: int) -> MappedIdx {
        let mapped = spec_permuted(idx, self.coprime_multiplier as int, self.size_bits as int);
        MappedIdx { byte_idx: (mapped / 8) as usize, bit: spec_bit(mapped % 8) }
    }

    /// Whether the lock `idx` is held in a region with these contents.
    pub open spec fn spec_held(&self, region: Seq<u8>, idx: int) -> bool {
        let at = self.spec_map_index(idx);
        region[self.base + at.byte_idx] & at.bit != 0
    }

    /// The contents of the region after the lock `idx` was taken.
    pub open spec fn spec_taken(&self, region: Seq<u8>, idx: int) -> Seq<u8> {
        let at = self.spec_map_index(idx);
        region.update(self.base + at.byte_idx, region[self.base + at.byte_idx] | at.bit)
    }

    /// The contents of the region after the lock `idx` was given back.
    pub open spec fn spec_released(&self, region: Seq<u8>, idx: int) -> Seq<u8> {
        let at = self.spec_map_index(idx);
        region.update(self.base + at.byte_idx, region[self.base + at.byte_idx] & !at.bit)
    }

    /// What an attempt to take the lock `idx` returns, and what it leaves in
    /// the region.
    pub open spec fn spec_lock(&self, region: Seq<u8>, idx: usize) -> (
        Result<usize, BitlockErr>,
        Seq<u8>,
    ) {
        if idx >= self.size_bits {
            (Err(BitlockErr::OutOfBounds(idx, self.size_bits)), region)
        } else if self.poisoned {
            (Err(BitlockErr::PoisonErr(idx)), region)
        } else if self.spec_held(region, idx as int) {
            (Err(BitlockErr::Contended(idx)), region)
        } else {
            (Ok(idx), self.spec_taken(region, idx as int))
        }
    }

    /// A set of `ct` locks whose bytes begin `base` bytes into the region.
    /// The multiplier is the first from 512 on that shares no divisor with
    /// `ct`.
    pub fn new(base: usize, ct: usize) -> (r: Bitlock)
        requires
            ct < usize::MAX,
        ensures
            r.fresh(base, ct),
    {
        let mut coprime_multiplier: usize = FIRST_MULTIPLIER;
        if ct > 0 {
            let ghost limit: int = first_one_more(ct as int);
            proof {
                lemma_first_one_more(ct as int);
            }
            let mut g: usize = gcd(coprime_multiplier, ct);
            while g > 1
                invariant
                    ct > 0,
                    limit == first_one_more(ct as int),
                    ct >= 2 ==> limit % (ct as int) == 1,
                    limit <= usize::MAX,
                    FIRST_MULTIPLIER <= coprime_multiplier <= limit,
                    is_gcd(coprime_multiplier as nat, ct as nat, g as nat),
                    forall|m: nat|
                        FIRST_MULTIPLIER <= m < coprime_multiplier ==> !#[trigger] coprime(
                            m,
                            ct as nat,
                        ),
                decreases limit - coprime_multiplier,
            {
                proof {
                    lemma_not_coprime(coprime_multiplier as nat, ct as nat, g as nat);
                    if coprime_multiplier == limit {
                        if ct >= 2 {
                            lemma_one_more_than_multiple_is_coprime(limit as nat, ct as nat);
                        } else {
                            crate::math::lemma_coprime_with_one(coprime_multiplier as nat);
                        }
                    }
                }
                coprime_multiplier += 1;
                g = gcd(coprime_multiplier, ct);
            }
            proof {
                assert(common_divisor(g as nat, coprime_multiplier as nat, ct as nat));
                assert(g == 1);
            }
        }
        Bitlock { base, size_bits: ct, coprime_multiplier, poisoned: false }
    }

    /// The byte and the bit of the lock `idx`.
    pub fn map_index(&self, idx: usize) -> (r: Result<MappedIdx, BitlockErr>)
        ensures
            idx >= self.size_bits ==> r == Err::<MappedIdx, BitlockErr>(
                BitlockErr::OutOfBounds(idx, self.size_bits),
            ),
            idx < self.size_bits ==> r == Ok::<MappedIdx, BitlockErr>(
                self.spec_map_index(idx as int),
            ),
            idx < self.size_bits ==> r->Ok_0.byte_idx < self.spec_bytes(),
    {
        if idx >= self.size_bits {
            Err(BitlockErr::OutOfBounds(idx, self.size_bits))
        } else {
            assert(idx * self.coprime_multiplier <= 0xffff_ffff_ffff_ffff * 0xffff_ffff_ffff_ffff)
                by (nonlinear_arith)
                requires
                    0 <= idx <= 0xffff_ffff_ffff_ffff,
                    0 <= self.coprime_multiplier <= 0xffff_ffff_ffff_ffff,
            ;
            let product: u128 = (idx as u128) * (self.coprime_multiplier as u128);
            let mapped: usize = (product % (self.size_bits as u128)) as usize;
            let shift: u8 = (mapped % 8) as u8;
            assert(mapped / 8 < (self.size_bits + 7) / 8);
            Ok(MappedIdx { byte_idx: mapped / 8, bit: 1u8 << shift })
        }
    }

    /// Gives the lock back that `guard` holds.
    pub fn unlock(&self, region: &mut [u8], guard: &BitGuard)
        requires
            self.fits(old(region)@),
            guard@ < self.size_bits,
        ensures
            final(region)@ == self.spec_released(old(region)@, guard@ as int),
    {
        let bytes = region.len();
        match self.map_index(guard.idx) {
            Ok(mapped_idx) => {
                assert(self.base + mapped_idx.byte_idx < bytes);
                let at: usize = self.base + mapped_idx.byte_idx;
                let inv_bit: u8 = !mapped_idx.bit;
                let held: u8 = region[at];
                region[at] = held & inv_bit;
            },
            Err(_) => {},
        }
    }

    /// Sets `bit` in `target`, and says whether it was clear before.
    pub fn try_lock(target: &mut u8, bit: u8) -> (r: bool)
        ensures
            r == (*old(target) & bit == 0),
            *final(target) == *old(target) | bit,
    {
        let before: u8 = *target;
        *target = before | bit;
        assert(bit & before == before & bit) by (bit_vector);
        0 == bit & before
    }

    /// Takes the lock `idx` if it is free, and fails at once if it is held,
    /// if the lock set is poisoned or if there is no such lock.
    pub fn lock_uncontended(&self, region: &mut [u8], idx: usize) -> (r: Result<
        BitGuard,
        BitlockErr,
    >)
        requires
            self.fits(old(region)@),
        ensures
            match self.spec_lock(old(region)@, idx).0 {
                Ok(held) => r is Ok && r->Ok_0@ == held,
                Err(e) => r == Err::<BitGuard, BitlockErr>(e),
            },
            final(region)@ == self.spec_lock(old(region)@, idx).1,
    {
        let bytes = region.len();
        let mapped_idx = self.map_index(idx)?;
        if self.poisoned {
            return Err(BitlockErr::PoisonErr(idx));
        }
        assert(self.base + mapped_idx.byte_idx < bytes);
        let at: usize = self.base + mapped_idx.byte_idx;
        let mut target: u8 = region[at];
        let ghost before: u8 = target;
        let free = Self::try_lock(&mut target, mapped_idx.bit);
        region[at] = target;
        if free {
            Ok(BitGuard { idx })
        } else {
            proof {
                let bit = mapped_idx.bit;
                let shift = (spec_permuted(
                    idx as int,
                    self.coprime_multiplier as int,
                    self.size_bits as int,
                ) % 8) as u8;
                assert(before & bit != 0 ==> before | bit == before) by (bit_vector)
                    requires
                        bit == 1u8 << shift,
                        shift < 8,
                ;
                assert(final(region)@ =~= old(region)@);
            }
            Err(BitlockErr::Contended(idx))
        }
    }

    /// One round of waiting for the lock `idx`: the guard if the lock was
    /// free, `None` if it is held and the caller is to back off and come
    /// again, and an error if the lock set is poisoned or there is no such
    /// lock.
    pub fn spinlock(&self, region: &mut [u8], idx: usize) -> (r: Result<
        Option<BitGuard>,
        BitlockErr,
    >)
        requires
            self.fits(old(region)@),
        ensures
            match self.spec_lock(old(region)@, idx).0 {
                Ok(held) => r is Ok && r->Ok_0 is Some && r->Ok_0->0@ == held,
                Err(BitlockErr::Contended(_)) => r is Ok && r->Ok_0 is None,
                Err(e) => r == Err::<Option<BitGuard>, BitlockErr>(e),
            },
            final(region)@ == self.spec_lock(old(region)@, idx).1,
    {
        match self.lock_uncontended(region, idx) {
            Ok(guard) => Ok(Some(guard)),
            Err(BitlockErr::Contended(_)) => Ok(None),
            Err(e) => Err(e),
        }
    }

    /// Marks the lock set as poisoned: no lock of it is given out any more.
    pub fn poison(&mut self)
        ensures
            final(self).poisoned,
            final(self).base == old(self).base,
            final(self).size_bits == old(self).size_bits,
            final(self).coprime_multiplier == old(self).coprime_multiplier,
    {
        self.poisoned = true;
    }
}

/// The first number from 512 on that is one more than a multiple of `ct`.
pub open spec fn first_one_more(ct: int) -> int {
    let r = 512int % ct;
    if r == 1 {
        512
    } else if r == 0 {
        513
    } else {
        512 - r + ct + 1
    }
}

/// `first_one_more` is what its name says, and the machine word holds it.
proof fn lemma_first_one_more(ct: int)
    requires
        0 < ct < usize::MAX,
    ensures
        first_one_more(ct) >= 512,
        first_one_more(ct) <= usize::MAX,
        ct >= 2 ==> first_one_more(ct) % ct == 1,
{
    let r = 512int % ct;
    let q = 512int / ct;
    vstd::arithmetic::div_mod::lemma_fundamental_div_mod(512, ct);
    vstd::arithmetic::div_mod::lemma_mod_bound(512, ct);
    if ct > 512 {
        vstd::arithmetic::div_mod::lemma_small_mod(512, ct as nat);
        assert(first_one_more(ct) == ct + 1);
    } else {
        assert(first_one_more(ct) <= 1025);
    }
    if ct >= 2 {
        let f = first_one_more(ct);
        if r == 1 {
        } else if r == 0 {
            assert(f == q * ct + 1) by (nonlinear_arith)
                requires
                    512 == ct * q + r,
                    r == 0,
                    f == 513,
            ;
            vstd::arithmetic::div_mod::lemma_fundamental_div_mod_converse(f, ct, q, 1);
        } else {
            assert(f == (q + 1) * ct + 1) by (nonlinear_arith)
                requires
                    512 == ct * q + r,
                    f == 512 - r + ct + 1,
            ;
            vstd::arithmetic::div_mod::lemma_fundamental_div_mod_converse(f, ct, q + 1, 1);
        }
    }
}

/// Two numbers whose greatest common divisor exceeds 1 are not coprime.
proof fn lemma_not_coprime(a: nat, b: nat, g: nat)
    requires
        is_gcd(a, b, g),
        g > 1,
    ensures
        !coprime(a, b),
{
    if coprime(a, b) {
        crate::math::lemma_gcd_unique(a, b, g, 1);
    }
}

/// A lock that was free is free again, and the region as it was, once it was
/// taken and given back.
pub proof fn lemma_take_then_release(
    locks: Bitlock,
    region: Seq<u8>,
    idx: int,
)
    requires
        locks.fits(region),
        0 <= idx < locks.size_bits,
        !locks.spec_held(region, idx),
    ensures
        locks.spec_held(locks.spec_taken(region, idx), idx),
        locks.spec_released(locks.spec_taken(region, idx), idx) == region,
{
    let at = locks.spec_map_index(idx);
    let mapped = spec_permuted(
        idx,
        locks.coprime_multiplier as int,
        locks.size_bits as int,
    );
    let shift = (mapped % 8) as u8;
    let bit = at.bit;
    let place = locks.base + at.byte_idx;
    assert(0 <= mapped < locks.size_bits);
    assert(0 <= place < region.len());
    let before = region[place];
    assert((before | bit) & bit != 0 && (before & bit == 0 ==> (before | bit) & !bit == before))
        by (bit_vector)
        requires
            bit == 1u8 << shift,
            shift < 8,
    ;
    assert(locks.spec_released(locks.spec_taken(region, idx), idx) =~= region);
}

/// Different locks lie at different places: taking or giving back one
/// leaves every other lock as it is.
pub proof fn lemma_locks_are_apart(locks: Bitlock, region: Seq<u8>, idx: int, other: int)
    requires
        locks.wf(),
        locks.fits(region),
        0 <= idx < locks.size_bits,
        0 <= other < locks.size_bits,
        idx != other,
    ensures
        locks.spec_map_index(idx) != locks.spec_map_index(other),
        locks.spec_held(locks.spec_taken(region, idx), other) == locks.spec_held(region, other),
        locks.spec_held(locks.spec_released(region, idx), other) == locks.spec_held(
            region,
            other,
        ),
{
    let n = locks.size_bits as int;
    let m = locks.coprime_multiplier as int;
    let p = spec_permuted(idx, m, n);
    let q = spec_permuted(other, m, n);
    if p == q {
        crate::math::lemma_coprime_multiplier_is_injective(n as nat, m as nat, idx, other);
    }
    assert(0 <= p < n && 0 <= q < n);
    let shift = (p % 8) as u8;
    let other_shift = (q % 8) as u8;
    let bit = spec_bit(p % 8);
    let other_bit = spec_bit(q % 8);
    assert(p / 8 != q / 8 || p % 8 != q % 8);
    assert(shift != other_shift ==> bit != other_bit) by (bit_vector)
        requires
            bit == 1u8 << shift,
            other_bit == 1u8 << other_shift,
            shift < 8,
            other_shift < 8,
    ;
    let place = locks.base + p / 8;
    let there = locks.base + q / 8;
    assert(0 <= place < region.len() && 0 <= there < region.len());
    if p / 8 == q / 8 {
        let before = region[place];
        assert(((before | bit) & other_bit != 0) == (before & other_bit != 0) && ((before & !bit)
            & other_bit != 0) == (before & other_bit != 0)) by (bit_vector)
            requires
                bit == 1u8 << shift,
                other_bit == 1u8 << other_shift,
                shift < 8,
                other_shift < 8,
                shift != other_shift,
        ;
    }
}

} // verus!
