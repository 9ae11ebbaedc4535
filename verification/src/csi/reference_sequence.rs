//! A reference sequence of the binning index: its bins and the interval query
//! over them.

use vstd::arithmetic::div_mod::{
    lemma_div_is_ordered, lemma_div_multiples_vanish, lemma_multiply_divide_lt,
};
use vstd::arithmetic::power2::{
    lemma2_to64, lemma_pow2_adds, lemma_pow2_pos, lemma_pow2_strictly_increases, pow2,
};
use vstd::bits::{lemma_u64_shl_is_mul, lemma_u64_shr_is_div};
use vstd::prelude::*;

use crate::csi::bin::{bin_like, bin_count, level_offset, Bin, Metadata};
use crate::csi::bitset::{bits_of, bitvec_from_elem, bitvec_get, bitvec_set};
use crate::csi::index::{resolve_interval, spec_resolved_end, spec_resolved_start, Interval,
    QueryError};
use crate::position::{position_valid, Position};
use crate::vpos::VirtualPosition;

verus! {

/// Whether the tree parameters describe a representable binning scheme: the
/// leaf shift is positive, bin ids fit the id width, and the greatest position
/// fits the formats' signed 32-bit coordinates.
pub open spec fn params_valid(min_shift: int, depth: int) -> bool {
    &&& 1 <= min_shift
    &&& 0 <= depth <= 9
    &&& min_shift + 3 * depth <= 31
}

/// The window shift on level `l`: leaves sit at `min_shift`, and each level up
/// widens windows eightfold.
pub open spec fn level_shift(min_shift: int, depth: int, l: int) -> int {
    min_shift + 3 * (depth - l)
}

/// Whether bin `id` sits on level `l` between the bins of the interval's two
/// endpoints, inclusive.
pub open spec fn in_level_range(
    min_shift: int,
    depth: int,
    beg: int,
    end: int,
    l: int,
    id: int,
) -> bool {
    let w = pow2(level_shift(min_shift, depth, l) as nat) as int;
    level_offset(l) + beg / w <= id <= level_offset(l) + end / w
}

/// Whether bin `id` lies in the interval's range on some level below `lmax`.
pub open spec fn candidate_below(
    min_shift: int,
    depth: int,
    beg: int,
    end: int,
    lmax: int,
    id: int,
) -> bool {
    exists|l: int| 0 <= l < lmax && in_level_range(min_shift, depth, beg, end, l, id)
}

/// Whether bin `id` may hold a record overlapping the 0-based closed interval
/// `[beg, end]`: it lies in the interval's range on some level of the tree.
pub open spec fn is_candidate_bin(
    min_shift: int,
    depth: int,
    beg: int,
    end: int,
    id: int,
) -> bool {
    candidate_below(min_shift, depth, beg, end, depth + 1, id)
}

/// The bins of `bins` that the interval selects, kept in order.
pub open spec fn candidate_bins(
    bins: Seq<Bin>,
    min_shift: int,
    depth: int,
    beg: int,
    end: int,
) -> Seq<Bin>
    decreases bins.len(),
{
    if bins.len() == 0 {
        Seq::empty()
    } else {
        candidate_bins(bins.drop_last(), min_shift, depth, beg, end) + if is_candidate_bin(
            min_shift,
            depth,
            beg,
            end,
            bins.last().id as int,
        ) {
            seq![bins.last()]
        } else {
            Seq::empty()
        }
    }
}

/// Whether two runs of bins agree pairwise in id, first-record position and
/// chunks.
pub open spec fn bins_like(a: Seq<Bin>, b: Seq<Bin>) -> bool {
    a.len() == b.len() && forall|j: int| 0 <= j < a.len() ==> bin_like(#[trigger] a[j], b[j])
}

/// A reference sequence of the index: its bins, and the optional counts from
/// the metadata pseudo-bin.
#[derive(Clone, Debug)]
pub struct ReferenceSequence {
    /// The bins, without the metadata pseudo-bin.
    pub bins: Vec<Bin>,
    /// The counts from the metadata pseudo-bin, when present.
    pub metadata: Option<Metadata>,
}

impl ReferenceSequence {
    /// The greatest position a tree of the given parameters can index:
    /// one less than two to the power `min_shift + 3 * depth`.
    pub fn max_position(min_shift: u8, depth: u8) -> (r: Position)
        requires
            params_valid(min_shift as int, depth as int),
        ensures
            r.value == pow2((min_shift + 3 * depth) as nat) - 1,
            position_valid(r),
    {
        let s: u64 = min_shift as u64 + 3 * (depth as u64);
        proof {
            lemma_pow2_strictly_increases(s as nat, 32);
            lemma_pow2_pos(s as nat);
            lemma2_to64();
        }
        let p: u64 = 1u64 << s;
        proof {
            lemma_u64_shl_is_mul(1u64, s);
        }
        let n: u64 = p - 1;
        Position { value: n as usize }
    }

    /// Creates a reference sequence from its bins and optional metadata.
    pub fn new(bins: Vec<Bin>, metadata: Option<Metadata>) -> (r: ReferenceSequence)
        ensures
            r.bins == bins && r.metadata == metadata,
    {
        ReferenceSequence { bins, metadata }
    }

    /// Returns the bins. The metadata pseudo-bin is not among them.
    pub fn bins(&self) -> (r: &Vec<Bin>)
        ensures
            r == self.bins,
    {
        &self.bins
    }

    /// Returns the counts from the metadata pseudo-bin, when present.
    pub fn metadata(&self) -> (r: &Option<Metadata>)
        ensures
            r == self.metadata,
    {
        &self.metadata
    }

    /// Returns the start virtual position of the first record in the last
    /// linear bin.
    pub fn first_record_in_last_linear_bin_start_position(&self) -> (r: Option<VirtualPosition>)
        ensures
            self.bins@.len() == 0 ==> r is None,
            self.bins@.len() > 0 ==> r == Some(self.bins@.last().loffset),
    {
        if self.bins.len() == 0 {
            None
        } else {
            Some(self.bins[self.bins.len() - 1].loffset())
        }
    }

    /// Returns the bins of this reference sequence that the 1-based interval
    /// selects: those that may hold a record overlapping it.
    #[verifier::loop_isolation(false)]
    pub fn query(&self, min_shift: u8, depth: u8, interval: Interval) -> (r: Result<
        Vec<Bin>,
        QueryError,
    >)
        requires
            params_valid(min_shift as int, depth as int),
            crate::csi::index::interval_valid(interval),
        ensures
            ({
                let max = pow2((min_shift + 3 * depth) as nat) - 1;
                let s = spec_resolved_start(interval);
                let e = spec_resolved_end(interval, min_shift as int, depth as int);
                if s > max {
                    r == Result::<Vec<Bin>, QueryError>::Err(QueryError::InvalidStartBound)
                } else if e > max {
                    r == Result::<Vec<Bin>, QueryError>::Err(QueryError::InvalidEndBound)
                } else if s > e {
                    r == Result::<Vec<Bin>, QueryError>::Err(QueryError::InvalidInterval)
                } else {
                    r is Ok && bins_like(
                        r->Ok_0@,
                        candidate_bins(self.bins@, min_shift as int, depth as int, s - 1, e - 1),
                    )
                }
            }),
    {
        let (start, end) = match resolve_interval(min_shift, depth, interval) {
            Ok(bounds) => bounds,
            Err(e) => {
                return Err(e);
            },
        };
        proof {
            lemma_pow2_strictly_increases(0, (min_shift + 3 * depth) as nat);
            lemma2_to64();
        }
        let max_bin_id = Bin::max_id(depth);
        let mut region_bins = bitvec_from_elem(max_bin_id as usize, false);
        reg2bins(start, end, min_shift, depth, &mut region_bins);
        let ghost begi = start.value - 1;
        let ghost endi = end.value - 1;
        let mut query_bins: Vec<Bin> = Vec::new();
        let mut i: usize = 0;
        proof {
            assert(self.bins@.take(0) =~= Seq::<Bin>::empty());
        }
        while i < self.bins.len()
            invariant
                i <= self.bins@.len(),
                bits_of(region_bins).len() == bin_count(depth as int),
                forall|j: int| 0 <= j < bin_count(depth as int) ==> bits_of(region_bins)[j]
                    == is_candidate_bin(min_shift as int, depth as int, begi, endi, j),
                bins_like(
                    query_bins@,
                    candidate_bins(
                        self.bins@.take(i as int),
                        min_shift as int,
                        depth as int,
                        begi,
                        endi,
                    ),
                ),
                params_valid(min_shift as int, depth as int),
                0 <= begi <= endi,
                endi < pow2((min_shift + 3 * depth) as nat),
            decreases self.bins@.len() - i,
        {
            let b = &self.bins[i];
            let id = b.id();
            let selected = if (id as usize) < max_bin_id as usize {
                bitvec_get(&region_bins, id as usize)
            } else {
                proof {
                    if is_candidate_bin(min_shift as int, depth as int, begi, endi, id as int) {
                        lemma_candidate_bin_bounded(
                            min_shift as int,
                            depth as int,
                            begi,
                            endi,
                            id as int,
                        );
                    }
                }
                false
            };
            proof {
                lemma_candidate_bins_step(
                    self.bins@,
                    min_shift as int,
                    depth as int,
                    begi,
                    endi,
                    i as int,
                );
                assert(selected == is_candidate_bin(
                    min_shift as int,
                    depth as int,
                    begi,
                    endi,
                    id as int,
                ));
            }
            let ghost prev = candidate_bins(
                self.bins@.take(i as int),
                min_shift as int,
                depth as int,
                begi,
                endi,
            );
            let ghost next = candidate_bins(
                self.bins@.take(i as int + 1),
                min_shift as int,
                depth as int,
                begi,
                endi,
            );
            if selected {
                let dup = b.duplicate();
                let ghost pre_bins = query_bins@;
                query_bins.push(dup);
                proof {
                    assert(next =~= prev.push(self.bins@[i as int]));
                    assert(query_bins@ =~= pre_bins.push(dup));
                    assert forall|j: int| 0 <= j < query_bins@.len() implies bin_like(
                        #[trigger] query_bins@[j],
                        next[j],
                    ) by {
                        if j < pre_bins.len() {
                            assert(bin_like(pre_bins[j], prev[j]));
                        }
                    }
                }
            } else {
                proof {
                    assert(next =~= prev);
                }
            }
            i = i + 1;
        }
        proof {
            assert(self.bins@.take(self.bins@.len() as int) =~= self.bins@);
        }
        Ok(query_bins)
    }
}

/// Unfolds the selection one bin at a time: the bins selected from a prefix
/// one longer are those of the prefix, plus the next bin when it is a
/// candidate.
proof fn lemma_candidate_bins_step(
    bins: Seq<Bin>,
    min_shift: int,
    depth: int,
    beg: int,
    end: int,
    i: int,
)
    requires
        0 <= i < bins.len(),
    ensures
        candidate_bins(bins.take(i + 1), min_shift, depth, beg, end) == candidate_bins(
            bins.take(i),
            min_shift,
            depth,
            beg,
            end,
        ) + if is_candidate_bin(min_shift, depth, beg, end, bins[i].id as int) {
            seq![bins[i]]
        } else {
            Seq::<Bin>::empty()
        },
{
    assert(bins.take(i + 1).drop_last() =~= bins.take(i));
    assert(bins.take(i + 1).last() == bins[i]);
}

/// A candidate bin id lies below the tree's bin count.
pub proof fn lemma_candidate_bin_bounded(
    min_shift: int,
    depth: int,
    beg: int,
    end: int,
    id: int,
)
    requires
        params_valid(min_shift, depth),
        0 <= beg <= end,
        end < pow2((min_shift + 3 * depth) as nat),
        is_candidate_bin(min_shift, depth, beg, end, id),
    ensures
        id < bin_count(depth),
{
    let l = choose|l: int|
        0 <= l < depth + 1 && in_level_range(min_shift, depth, beg, end, l, id);
    lemma_level_end_bound(min_shift, depth, end, l);
    crate::csi::bin::lemma_level_offset_monotone(l + 1, depth + 1);
}

/// On each level, the interval's last bin index lies below the next level's
/// offset.
proof fn lemma_level_end_bound(min_shift: int, depth: int, end: int, l: int)
    requires
        params_valid(min_shift, depth),
        0 <= l <= depth,
        0 <= end < pow2((min_shift + 3 * depth) as nat),
    ensures
        level_offset(l) + end / (pow2(level_shift(min_shift, depth, l) as nat) as int)
            < level_offset(l + 1),
{
    let s = level_shift(min_shift, depth, l);
    lemma_pow2_adds(s as nat, (3 * l) as nat);
    lemma_pow2_pos(s as nat);
    lemma_pow2_pos((3 * l) as nat);
    assert(end < pow2(s as nat) as int * pow2((3 * l) as nat) as int);
    lemma_multiply_divide_lt(end, pow2(s as nat) as int, pow2((3 * l) as nat) as int);
    assert(level_offset(l + 1) == level_offset(l) + pow2((3 * l) as nat) as int);
}

/// A level offset of a shallow tree fits comfortably below two to the
/// thirtieth.
proof fn lemma_level_offset_small(l: int)
    requires
        0 <= l <= 10,
    ensures
        level_offset(l) <= 0x4000_0000,
{
    crate::csi::bin::lemma_level_offset_value(l);
    if 3 * l < 31 {
        lemma_pow2_strictly_increases((3 * l) as nat, 31);
    }
    lemma2_to64();
}

/// Splitting the levels strictly below `l + 1` into those below `l` and level
/// `l` itself.
proof fn lemma_candidate_step(
    min_shift: int,
    depth: int,
    beg: int,
    end: int,
    l: int,
    id: int,
)
    requires
        0 <= l,
    ensures
        candidate_below(min_shift, depth, beg, end, l + 1, id) <==> (candidate_below(
            min_shift,
            depth,
            beg,
            end,
            l,
            id,
        ) || in_level_range(min_shift, depth, beg, end, l, id)),
{
    if candidate_below(min_shift, depth, beg, end, l + 1, id) {
        let lw = choose|lw: int|
            0 <= lw < l + 1 && in_level_range(min_shift, depth, beg, end, lw, id);
        if lw < l {
            assert(candidate_below(min_shift, depth, beg, end, l, id));
        }
    }
    if candidate_below(min_shift, depth, beg, end, l, id) {
        let lw = choose|lw: int|
            0 <= lw < l && in_level_range(min_shift, depth, beg, end, lw, id);
        assert(0 <= lw < l + 1 && in_level_range(min_shift, depth, beg, end, lw, id));
    }
    if in_level_range(min_shift, depth, beg, end, l, id) {
        assert(0 <= l < l + 1 && in_level_range(min_shift, depth, beg, end, l, id));
    }
}

/// Marks, in `bins`, every bin of the tree whose range on some level meets the
/// closed 1-based interval `[start, end]`: the candidate set of the query.
#[verifier::loop_isolation(false)]
pub fn reg2bins(
    start: Position,
    end: Position,
    min_shift: u8,
    depth: u8,
    bins: &mut bit_vec::BitVec<u32>,
)
    requires
        position_valid(start),
        position_valid(end),
        start.value <= end.value,
        params_valid(min_shift as int, depth as int),
        end.value <= pow2((min_shift + 3 * depth) as nat) - 1,
        bits_of(*old(bins)).len() >= bin_count(depth as int),
    ensures
        bits_of(*final(bins)).len() == bits_of(*old(bins)).len(),
        forall|i: int| 0 <= i < bits_of(*old(bins)).len() ==> bits_of(*final(bins))[i] == (
        bits_of(*old(bins))[i] || is_candidate_bin(
            min_shift as int,
            depth as int,
            start.value - 1,
            end.value - 1,
            i,
        )),
{
    let beg: u64 = start.get() as u64 - 1;
    let end0: u64 = end.get() as u64 - 1;
    let ghost begi = beg as int;
    let ghost endi = end0 as int;
    let mut l: u8 = 0;
    let mut t: u64 = 0;
    while l <= depth
        invariant
            0 <= l <= depth + 1,
            t as int == level_offset(l as int),
            t <= 0x4000_0000u64,
            bits_of(*bins).len() == bits_of(*old(bins)).len(),
            forall|j: int| 0 <= j < bits_of(*old(bins)).len() ==> bits_of(*bins)[j] == (
            bits_of(*old(bins))[j] || candidate_below(
                min_shift as int,
                depth as int,
                begi,
                endi,
                l as int,
                j,
            )),
        decreases depth + 1 - l,
    {
        let s: u8 = min_shift + 3 * (depth - l);
        let ghost w = pow2(s as nat) as int;
        proof {
            lemma_pow2_pos(s as nat);
            lemma_u64_shr_is_div(beg, s as u64);
            lemma_u64_shr_is_div(end0, s as u64);
            lemma_level_end_bound(min_shift as int, depth as int, endi, l as int);
            lemma_div_is_ordered(begi, endi, w);
            crate::csi::bin::lemma_level_offset_monotone(l as int + 1, depth as int + 1);
            lemma_level_offset_small(depth as int + 1);
            vstd::arithmetic::div_mod::lemma_div_pos_is_pos(begi, w);
        }
        let b: u64 = t + (beg >> (s as u64));
        let e: u64 = t + (end0 >> (s as u64));
        let mut i: u64 = b;
        while i <= e
            invariant
                b <= i <= e + 1,
                bits_of(*bins).len() == bits_of(*old(bins)).len(),
                forall|j: int| 0 <= j < bits_of(*old(bins)).len() ==> bits_of(*bins)[j] == (
                bits_of(*old(bins))[j] || candidate_below(
                    min_shift as int,
                    depth as int,
                    begi,
                    endi,
                    l as int,
                    j,
                ) || (b as int <= j < i as int)),
            decreases e + 1 - i,
        {
            bitvec_set(bins, i as usize, true);
            proof {
                assert forall|j: int| 0 <= j < bits_of(*old(bins)).len() implies bits_of(*bins)[j]
                    == (bits_of(*old(bins))[j] || candidate_below(
                    min_shift as int,
                    depth as int,
                    begi,
                    endi,
                    l as int,
                    j,
                ) || (b as int <= j < i as int + 1)) by {
                    if j != i as int {
                        assert(bits_of(*bins)[j] == bits_of(*old(bins))[j] || candidate_below(
                            min_shift as int,
                            depth as int,
                            begi,
                            endi,
                            l as int,
                            j,
                        ) || (b as int <= j < i as int));
                    }
                }
            }
            i = i + 1;
        }
        proof {
            assert forall|j: int| 0 <= j < bits_of(*old(bins)).len() implies bits_of(*bins)[j] == (
            bits_of(*old(bins))[j] || candidate_below(
                min_shift as int,
                depth as int,
                begi,
                endi,
                l as int + 1,
                j,
            )) by {
                lemma_candidate_step(min_shift as int, depth as int, begi, endi, l as int, j);
                assert(in_level_range(min_shift as int, depth as int, begi, endi, l as int, j)
                    <==> (b as int <= j <= e as int));
            }
        }
        let shift_amount: u64 = 3 * (l as u64);
        proof {
            lemma_pow2_strictly_increases((3 * l) as nat, 31);
            lemma2_to64();
            lemma_u64_shl_is_mul(1u64, shift_amount);
            lemma_level_offset_small(l as int + 1);
        }
        t = t + (1u64 << shift_amount);
        l = l + 1;
    }
}

/// LAW OF QUERY COVERAGE. A record was placed in some bin: on level `l`, in
/// the window `w` wide enough to span it. If that window meets the queried
/// interval `[beg, end]` at all, the query keeps the bin, and with it every
/// chunk of the bin: what the index returns covers every record that can
/// overlap the interval.
pub proof fn lemma_query_covers_overlapping_bin(
    bins: Seq<Bin>,
    min_shift: int,
    depth: int,
    beg: int,
    end: int,
    k: int,
    l: int,
    w: int,
)
    requires
        params_valid(min_shift, depth),
        0 <= beg <= end < pow2((min_shift + 3 * depth) as nat),
        0 <= k < bins.len(),
        0 <= l <= depth,
        0 <= w,
        bins[k].id as int == level_offset(l) + w,
        w * pow2(level_shift(min_shift, depth, l) as nat) <= end,
        beg < (w + 1) * pow2(level_shift(min_shift, depth, l) as nat),
    ensures
        candidate_bins(bins, min_shift, depth, beg, end).contains(bins[k]),
        forall|ci: int| 0 <= ci < bins[k].chunks@.len() ==> chunks_of_bins(
            candidate_bins(bins, min_shift, depth, beg, end),
        ).contains(#[trigger] bins[k].chunks@[ci]),
{
    let s = level_shift(min_shift, depth, l);
    let p = pow2(s as nat) as int;
    lemma_pow2_pos(s as nat);
    assert(beg / p <= w) by {
        lemma_multiply_divide_lt(beg, p, w + 1);
    }
    assert(w <= end / p) by {
        lemma_div_is_ordered(w * p, end, p);
        lemma_div_multiples_vanish(w, p);
    }
    assert(in_level_range(min_shift, depth, beg, end, l, bins[k].id as int));
    assert(0 <= l < depth + 1 && in_level_range(min_shift, depth, beg, end, l, bins[k].id as int));
    assert(is_candidate_bin(min_shift, depth, beg, end, bins[k].id as int));
    lemma_candidate_bins_contains(bins, min_shift, depth, beg, end, k);
    let selected = candidate_bins(bins, min_shift, depth, beg, end);
    assert forall|ci: int| 0 <= ci < bins[k].chunks@.len() implies chunks_of_bins(
        selected,
    ).contains(#[trigger] bins[k].chunks@[ci]) by {
        lemma_chunks_of_contained_bin(selected, bins[k], ci);
    }
}

/// A candidate bin is among the bins the query selects.
pub proof fn lemma_candidate_bins_contains(
    bins: Seq<Bin>,
    min_shift: int,
    depth: int,
    beg: int,
    end: int,
    k: int,
)
    requires
        0 <= k < bins.len(),
        is_candidate_bin(min_shift, depth, beg, end, bins[k].id as int),
    ensures
        candidate_bins(bins, min_shift, depth, beg, end).contains(bins[k]),
    decreases bins.len(),
{
    if k == bins.len() - 1 {
        let tail = seq![bins.last()];
        let whole = candidate_bins(bins.drop_last(), min_shift, depth, beg, end) + tail;
        assert(candidate_bins(bins, min_shift, depth, beg, end) == whole);
        assert(whole[whole.len() - 1] == bins[k]);
    } else {
        lemma_candidate_bins_contains(bins.drop_last(), min_shift, depth, beg, end, k);
        assert(bins.drop_last()[k] == bins[k]);
        let prefix = candidate_bins(bins.drop_last(), min_shift, depth, beg, end);
        let ji = choose|ji: int| 0 <= ji < prefix.len() && prefix[ji] == bins[k];
        assert(candidate_bins(bins, min_shift, depth, beg, end)[ji] == bins[k]);
    }
}

/// The chunks the query returns: those of the selected bins, in order.
pub open spec fn chunks_of_bins(bins: Seq<Bin>) -> Seq<crate::csi::bin::Chunk>
    decreases bins.len(),
{
    if bins.len() == 0 {
        Seq::empty()
    } else {
        chunks_of_bins(bins.drop_last()) + bins.last().chunks@
    }
}

/// Every chunk of a selected bin is among the chunks of the selection.
pub proof fn lemma_chunks_of_contained_bin(bins: Seq<Bin>, b: Bin, ci: int)
    requires
        bins.contains(b),
        0 <= ci < b.chunks@.len(),
    ensures
        chunks_of_bins(bins).contains(b.chunks@[ci]),
    decreases bins.len(),
{
    let k = choose|k: int| 0 <= k < bins.len() && bins[k] == b;
    if k == bins.len() - 1 {
        let whole = chunks_of_bins(bins.drop_last()) + bins.last().chunks@;
        assert(whole[chunks_of_bins(bins.drop_last()).len() + ci] == b.chunks@[ci]);
    } else {
        assert(bins.drop_last()[k] == b);
        assert(bins.drop_last().contains(b));
        lemma_chunks_of_contained_bin(bins.drop_last(), b, ci);
        let prefix = chunks_of_bins(bins.drop_last());
        let ji = choose|ji: int| 0 <= ji < prefix.len() && prefix[ji] == b.chunks@[ci];
        assert(chunks_of_bins(bins)[ji] == b.chunks@[ci]);
    }
}

/// Two selections that agree bin for bin carry the same chunks.
pub proof fn lemma_bins_like_same_chunks(a: Seq<Bin>, b: Seq<Bin>)
    requires
        bins_like(a, b),
    ensures
        chunks_of_bins(a) == chunks_of_bins(b),
    decreases a.len(),
{
    if a.len() > 0 {
        assert(bins_like(a.drop_last(), b.drop_last())) by {
            assert forall|j: int| 0 <= j < a.drop_last().len() implies bin_like(
                #[trigger] a.drop_last()[j],
                b.drop_last()[j],
            ) by {
                assert(a.drop_last()[j] == a[j]);
                assert(b.drop_last()[j] == b[j]);
            }
        }
        lemma_bins_like_same_chunks(a.drop_last(), b.drop_last());
        assert(bin_like(a.last(), b.last()));
        assert(chunks_of_bins(a) == chunks_of_bins(b));
    }
}

} // verus!
