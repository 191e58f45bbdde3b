//! Random draws for the generator. An `Entropy` handle either forwards
//! to the process generator of the `rand` crate, or replays a scripted
//! sequence of raw values, which makes generation reproducible.

use vstd::prelude::*;

use rand::Rng;

verus! {

/// A weighted categorical distribution of the `rand` crate, held opaquely.
#[verifier::external_body]
pub struct WeightedDist {
    inner: rand::distributions::WeightedIndex<u32>,
}

/// The weights a `WeightedDist` was built from.
pub uninterp spec fn weighted_index_weights(d: WeightedDist) -> Seq<u32>;

/// Relies on rand::Rng::gen_range on the thread-local generator: a draw
/// from the half-open range `lo..hi`. It panics only on an empty range,
/// which the precondition rules out.
#[verifier::external_body]
fn sys_range_i32(lo: i32, hi: i32) -> (r: i32)
    requires
        lo < hi,
    ensures
        lo <= r < hi,
{
    rand::thread_rng().gen_range(lo..hi)
}

/// Relies on rand::Rng::gen_range on the thread-local generator: a draw
/// from the half-open range `lo..hi`. It panics only on an empty range,
/// which the precondition rules out.
#[verifier::external_body]
fn sys_range_u32(lo: u32, hi: u32) -> (r: u32)
    requires
        lo < hi,
    ensures
        lo <= r < hi,
{
    rand::thread_rng().gen_range(lo..hi)
}

/// Relies on rand::random::<bool>: a coin toss from the thread-local
/// generator. Nothing is promised of the value.
#[verifier::external_body]
fn sys_coin() -> bool {
    rand::random()
}

/// Relies on rand::distributions::WeightedIndex::new: it sums the u32
/// weights in u32, so the caller keeps the total within u32::MAX; within
/// that bound it fails only on an empty list or an all-zero total, so
/// with a positive weight present it returns a distribution holding the
/// given weights.
#[verifier::external_body]
fn weighted_index_new(weights: &Vec<u32>) -> (d: WeightedDist)
    requires
        exists|i: int| 0 <= i < weights@.len() && weights@[i] > 0,
        sum_weights(weights@) <= u32::MAX,
    ensures
        weighted_index_weights(d) == weights@,
{
    WeightedDist { inner: rand::distributions::WeightedIndex::new(weights.clone()).unwrap() }
}

/// Relies on WeightedIndex's Distribution::sample on the thread-local
/// generator: it returns the index of one weight, drawn with probability
/// proportional to it, and never the index of a zero weight.
#[verifier::external_body]
fn weighted_index_sample(d: &WeightedDist) -> (r: usize)
    ensures
        r < weighted_index_weights(*d).len(),
        weighted_index_weights(*d)[r as int] > 0,
{
    rand::thread_rng().sample(&d.inner)
}

pub open spec fn sum_weights(s: Seq<u32>) -> int
    decreases s.len(),
{
    if s.len() == 0 {
        0
    } else {
        sum_weights(s.drop_last()) + s.last()
    }
}

proof fn lemma_sum_take_step(s: Seq<u32>, i: int)
    requires
        0 <= i < s.len(),
    ensures
        sum_weights(s.take(i + 1)) == sum_weights(s.take(i)) + s[i],
{
    assert(s.take(i + 1).drop_last() =~= s.take(i));
    assert(s.take(i + 1).last() == s[i]);
}

proof fn lemma_sum_nonneg(s: Seq<u32>)
    ensures
        sum_weights(s) >= 0,
    decreases s.len(),
{
    if s.len() > 0 {
        lemma_sum_nonneg(s.drop_last());
    }
}

/// Every prefix sum stays at or below the whole sum.
proof fn lemma_sum_prefix_le(s: Seq<u32>, i: int)
    requires
        0 <= i <= s.len(),
    ensures
        sum_weights(s.take(i)) <= sum_weights(s),
    decreases s.len() - i,
{
    if i == s.len() {
        assert(s.take(i) =~= s);
    } else {
        lemma_sum_take_step(s, i);
        lemma_sum_prefix_le(s, i + 1);
    }
}

/// A single positive weight makes the whole sum positive.
proof fn lemma_sum_pos(s: Seq<u32>, i: int)
    requires
        0 <= i < s.len(),
        s[i] > 0,
    ensures
        sum_weights(s) > 0,
    decreases s.len(),
{
    if i == s.len() - 1 {
        lemma_sum_nonneg(s.drop_last());
    } else {
        assert(s.drop_last()[i] == s[i]);
        lemma_sum_pos(s.drop_last(), i);
    }
}

/// A pointwise bound on the weights bounds their sum.
pub proof fn lemma_sum_le_pointwise(s: Seq<u32>, b: int)
    requires
        forall|i: int| 0 <= i < s.len() ==> s[i] <= b,
    ensures
        sum_weights(s) <= s.len() * b,
    decreases s.len(),
{
    if s.len() > 0 {
        assert forall|i: int| 0 <= i < s.drop_last().len() implies s.drop_last()[i] <= b by {
            assert(s.drop_last()[i] == s[i]);
        }
        lemma_sum_le_pointwise(s.drop_last(), b);
        assert((s.len() - 1) * b + b == s.len() * b) by (nonlinear_arith);
    }
}

/// The total of a weight list, as a spec-exact u64.
fn total_weight(weights: &Vec<u32>) -> (total: u64)
    requires
        sum_weights(weights@) <= u64::MAX,
    ensures
        total == sum_weights(weights@),
{
    let mut total: u64 = 0;
    let mut i: usize = 0;
    proof {
        assert(weights@.take(0) =~= Seq::<u32>::empty());
    }
    while i < weights.len()
        invariant
            i <= weights@.len(),
            total == sum_weights(weights@.take(i as int)),
            sum_weights(weights@) <= u64::MAX,
        decreases weights@.len() - i,
    {
        proof {
            lemma_sum_take_step(weights@, i as int);
            lemma_sum_prefix_le(weights@, i + 1);
            lemma_sum_nonneg(weights@.take(i + 1));
        }
        total = total + (weights[i] as u64);
        i = i + 1;
    }
    proof {
        assert(weights@.take(weights@.len() as int) =~= weights@);
    }
    total
}

/// The index whose cumulative weight bracket holds `roll`: the first
/// index with `roll < weights[0] + ... + weights[index]`.
pub open spec fn spec_pick(s: Seq<u32>, roll: int) -> int
    decreases s.len(),
{
    if s.len() == 0 {
        0
    } else if roll < s[0] {
        0
    } else {
        1 + spec_pick(s.drop_first(), roll - s[0])
    }
}

/// The index whose cumulative weight bracket holds `roll`. Such an index
/// always has a positive weight.
fn pick_weighted(weights: &Vec<u32>, roll: u64) -> (r: usize)
    requires
        sum_weights(weights@) <= u64::MAX,
        roll < sum_weights(weights@),
    ensures
        r < weights@.len(),
        weights@[r as int] > 0,
        r == spec_pick(weights@, roll as int),
{
    let mut acc: u64 = 0;
    let mut i: usize = 0;
    proof {
        assert(weights@.take(0) =~= Seq::<u32>::empty());
        assert(weights@.skip(0) =~= weights@);
    }
    while i < weights.len()
        invariant
            i <= weights@.len(),
            acc == sum_weights(weights@.take(i as int)),
            acc <= roll,
            roll < sum_weights(weights@),
            sum_weights(weights@) <= u64::MAX,
            spec_pick(weights@, roll as int) == i + spec_pick(
                weights@.skip(i as int),
                roll - acc,
            ),
        decreases weights@.len() - i,
    {
        proof {
            lemma_sum_take_step(weights@, i as int);
            lemma_sum_prefix_le(weights@, i + 1);
            lemma_sum_nonneg(weights@.take(i + 1));
            assert(weights@.skip(i as int)[0] == weights@[i as int]);
        }
        let w = weights[i];
        if roll < acc + (w as u64) {
            proof {
                assert(spec_pick(weights@.skip(i as int), roll - acc) == 0);
            }
            return i;
        }
        proof {
            assert(weights@.skip(i as int).drop_first() =~= weights@.skip(i as int + 1));
        }
        acc = acc + (w as u64);
        i = i + 1;
    }
    proof {
        assert(weights@.take(weights@.len() as int) =~= weights@);
        assert(false);
    }
    vstd::pervasive::unreached()
}

/// Where random draws come from: the process generator, or a scripted
/// sequence of raw values replayed in order (and 0 once exhausted).
pub struct Entropy {
    scripted: bool,
    values: Vec<u64>,
    next: usize,
}

/// The raw value a scripted draw at cursor `next` replays: the value
/// there, or 0 once the script is exhausted.
pub open spec fn spec_peek(values: Seq<u64>, next: int) -> u64 {
    if next < values.len() {
        values[next]
    } else {
        0u64
    }
}

/// The cursor after one scripted draw.
pub open spec fn spec_step(values: Seq<u64>, next: int) -> int {
    if next < values.len() {
        next + 1
    } else {
        next
    }
}

/// What a scripted draw from the half-open range `lo..hi` returns.
pub open spec fn spec_range_draw(values: Seq<u64>, next: int, lo: int, hi: int) -> int {
    lo + (spec_peek(values, next) as int) % (hi - lo)
}

/// What a scripted coin toss returns.
pub open spec fn spec_coin_draw(values: Seq<u64>, next: int) -> bool {
    spec_peek(values, next) % 2 == 0
}

/// What a scripted weighted draw over `weights` returns.
pub open spec fn spec_choose_draw(values: Seq<u64>, next: int, weights: Seq<u32>) -> int {
    spec_pick(weights, (spec_peek(values, next) as int) % sum_weights(weights))
}

impl Entropy {
    pub closed spec fn is_scripted(self) -> bool {
        self.scripted
    }

    /// The scripted raw values, in full.
    pub closed spec fn spec_values(self) -> Seq<u64> {
        self.values@
    }

    /// How many raw values have been replayed.
    pub closed spec fn spec_next(self) -> int {
        self.next as int
    }

    /// The raw value the next scripted draw replays.
    pub open spec fn peek(self) -> u64 {
        spec_peek(self.spec_values(), self.spec_next())
    }

    /// The cursor after one scripted draw.
    pub open spec fn spec_advanced(self) -> int {
        spec_step(self.spec_values(), self.spec_next())
    }

    /// One scripted draw consumes exactly one raw value; everything else
    /// about the handle is unchanged.
    pub open spec fn advanced_from(post: Entropy, pre: Entropy) -> bool {
        &&& post.is_scripted() == pre.is_scripted()
        &&& post.spec_values() == pre.spec_values()
        &&& post.spec_next() == pre.spec_advanced()
    }

    /// Draws forwarded to the process generator.
    pub fn system() -> (e: Entropy)
        ensures
            !e.is_scripted(),
    {
        Entropy { scripted: false, values: Vec::new(), next: 0 }
    }

    /// Draws replayed from `values`, then 0 forever.
    pub fn scripted(values: Vec<u64>) -> (e: Entropy)
        ensures
            e.is_scripted(),
            e.spec_values() == values@,
            e.spec_next() == 0,
    {
        Entropy { scripted: true, values, next: 0 }
    }

    fn next_raw(&mut self) -> (r: u64)
        requires
            old(self).scripted,
        ensures
            r == old(self).peek(),
            Entropy::advanced_from(*final(self), *old(self)),
    {
        if self.next < self.values.len() {
            let v = self.values[self.next];
            self.next = self.next + 1;
            v
        } else {
            0
        }
    }

    /// A draw from the half-open range `lo..hi`. A scripted draw is a
    /// pure function of the handle's state: it replays the next raw
    /// value, reduced into the range.
    pub fn range_i32(&mut self, lo: i32, hi: i32) -> (r: i32)
        requires
            0 <= lo < hi,
        ensures
            lo <= r < hi,
            old(self).is_scripted() ==> r == spec_range_draw(
                old(self).spec_values(),
                old(self).spec_next(),
                lo as int,
                hi as int,
            ) && Entropy::advanced_from(*final(self), *old(self)),
            !old(self).is_scripted() ==> *final(self) == *old(self),
    {
        if self.scripted {
            let raw = self.next_raw();
            let span = (hi - lo) as u64;
            let off = (raw % span) as i32;
            lo + off
        } else {
            sys_range_i32(lo, hi)
        }
    }

    /// A draw from the half-open range `lo..hi`, as `range_i32`.
    pub fn range_u32(&mut self, lo: u32, hi: u32) -> (r: u32)
        requires
            lo < hi,
        ensures
            lo <= r < hi,
            old(self).is_scripted() ==> r == spec_range_draw(
                old(self).spec_values(),
                old(self).spec_next(),
                lo as int,
                hi as int,
            ) && Entropy::advanced_from(*final(self), *old(self)),
            !old(self).is_scripted() ==> *final(self) == *old(self),
    {
        if self.scripted {
            let raw = self.next_raw();
            let span = ((hi - lo) as u64);
            let off = (raw % span) as u32;
            lo + off
        } else {
            sys_range_u32(lo, hi)
        }
    }

    /// A coin toss; a scripted one reads the next raw value's parity.
    pub fn coin(&mut self) -> (r: bool)
        ensures
            old(self).is_scripted() ==> r == spec_coin_draw(
                old(self).spec_values(),
                old(self).spec_next(),
            ) && Entropy::advanced_from(*final(self), *old(self)),
            !old(self).is_scripted() ==> *final(self) == *old(self),
    {
        if self.scripted {
            let raw = self.next_raw();
            raw % 2 == 0
        } else {
            sys_coin()
        }
    }

    /// A weighted categorical draw: the index of one weight, never one
    /// that is zero. A list without a positive weight is a construction
    /// error and is ruled out up front.
    pub fn choose_weighted(&mut self, weights: &Vec<u32>) -> (r: usize)
        requires
            exists|i: int| 0 <= i < weights@.len() && weights@[i] > 0,
            sum_weights(weights@) <= u32::MAX,
        ensures
            r < weights@.len(),
            weights@[r as int] > 0,
            old(self).is_scripted() ==> r == spec_choose_draw(
                old(self).spec_values(),
                old(self).spec_next(),
                weights@,
            ) && Entropy::advanced_from(*final(self), *old(self)),
            !old(self).is_scripted() ==> *final(self) == *old(self),
    {
        proof {
            let i = choose|i: int| 0 <= i < weights@.len() && weights@[i] > 0;
            lemma_sum_pos(weights@, i);
        }
        if self.scripted {
            let total = total_weight(weights);
            let raw = self.next_raw();
            let roll = raw % total;
            pick_weighted(weights, roll)
        } else {
            let d = weighted_index_new(weights);
            weighted_index_sample(&d)
        }
    }
}

} // verus!
