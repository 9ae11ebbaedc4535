//! The coordinate-sorted index: tree parameters, indexed reference sequences,
//! and the chunk query.

use vstd::arithmetic::power2::pow2;
use vstd::prelude::*;
use vstd::multiset::Multiset;
use vstd::seq_lib::group_to_multiset_ensures;

use crate::csi::bin::Chunk;
use crate::csi::reference_sequence::{
    candidate_bins, chunks_of_bins, lemma_bins_like_same_chunks, params_valid, ReferenceSequence,
};
use crate::position::{position_valid, Position};

verus! {

/// Why a query was refused.
#[derive(Clone, Copy, Debug, PartialEq, Eq, Structural)]
pub enum QueryError {
    /// The reference sequence id names no reference sequence of the index.
    InvalidReferenceSequenceId,
    /// The interval starts past the greatest indexable position.
    InvalidStartBound,
    /// The interval ends past the greatest indexable position.
    InvalidEndBound,
    /// The interval ends before it starts.
    InvalidInterval,
}

/// A 1-based closed genomic interval, either bound possibly absent: an absent
/// start means the first position, an absent end the greatest indexable one.
/// An exclusive bound is normalized by the caller: the position just inside
/// it is given as the inclusive bound here.
#[derive(Clone, Copy, Debug, PartialEq, Eq, Structural)]
pub struct Interval {
    /// The inclusive lower bound, when given.
    pub start: Option<Position>,
    /// The inclusive upper bound, when given.
    pub end: Option<Position>,
}

/// Whether the interval's given bounds are legal positions.
pub open spec fn interval_valid(interval: Interval) -> bool {
    &&& interval.start is Some ==> position_valid(interval.start->0)
    &&& interval.end is Some ==> position_valid(interval.end->0)
}

/// The 1-based start the interval resolves to.
pub open spec fn spec_resolved_start(interval: Interval) -> int {
    match interval.start {
        Some(p) => p.value as int,
        None => 1,
    }
}

/// The 1-based end the interval resolves to, given the tree parameters.
pub open spec fn spec_resolved_end(interval: Interval, min_shift: int, depth: int) -> int {
    match interval.end {
        Some(p) => p.value as int,
        None => pow2((min_shift + 3 * depth) as nat) - 1,
    }
}

impl Interval {
    /// Creates an interval from its optional bounds.
    pub fn new(start: Option<Position>, end: Option<Position>) -> (r: Interval)
        ensures
            r.start == start && r.end == end,
    {
        Interval { start, end }
    }
}

/// Resolves an interval to closed 1-based bounds and validates them: both
/// bounds must lie at or below the greatest indexable position, and the start
/// must not pass the end.
pub fn resolve_interval(min_shift: u8, depth: u8, interval: Interval) -> (r: Result<
    (Position, Position),
    QueryError,
>)
    requires
        params_valid(min_shift as int, depth as int),
        interval_valid(interval),
    ensures
        ({
            let max = pow2((min_shift + 3 * depth) as nat) - 1;
            let s = spec_resolved_start(interval);
            let e = spec_resolved_end(interval, min_shift as int, depth as int);
            if s > max {
                r == Result::<(Position, Position), QueryError>::Err(QueryError::InvalidStartBound)
            } else if e > max {
                r == Result::<(Position, Position), QueryError>::Err(QueryError::InvalidEndBound)
            } else if s > e {
                r == Result::<(Position, Position), QueryError>::Err(QueryError::InvalidInterval)
            } else {
                r == Result::<(Position, Position), QueryError>::Ok(
                    (Position { value: s as usize }, Position { value: e as usize }),
                )
            }
        }),
{
    let max_position = ReferenceSequence::max_position(min_shift, depth);
    let start = match interval.start {
        Some(p) => p,
        None => Position::min(),
    };
    if start.get() > max_position.get() {
        return Err(QueryError::InvalidStartBound);
    }
    let end = match interval.end {
        Some(p) => p,
        None => max_position,
    };
    if end.get() > max_position.get() {
        return Err(QueryError::InvalidEndBound);
    }
    if start.get() > end.get() {
        return Err(QueryError::InvalidInterval);
    }
    Ok((start, end))
}


/// Whether a virtual position falls inside one of the chunks.
pub open spec fn covered_by_chunks(chunks: Seq<Chunk>, v: u64) -> bool {
    exists|i: int|
        0 <= i < chunks.len() && (#[trigger] chunks[i]).start.value <= v < chunks[i].end.value
}

/// Whether the chunks ascend by start position.
pub open spec fn chunks_sorted(chunks: Seq<Chunk>) -> bool {
    forall|i: int|
        0 <= i < chunks.len() - 1 ==> (#[trigger] chunks[i]).start.value <= chunks[i
            + 1].start.value
}

/// Whether the chunks ascend by start position and none reaches its
/// successor: the shape the query returns.
pub open spec fn chunks_sorted_disjoint(chunks: Seq<Chunk>) -> bool {
    forall|i: int|
        0 <= i < chunks.len() - 1 ==> ((#[trigger] chunks[i]).start.value <= chunks[
            i + 1].start.value && chunks[i].end.value < chunks[i + 1].start.value)
}

/// Appending a chunk covers exactly what the run covered, plus the chunk.
proof fn lemma_cover_push(chunks: Seq<Chunk>, c: Chunk)
    ensures
        forall|v: u64| covered_by_chunks(chunks.push(c), v) <==> (covered_by_chunks(chunks, v) || (
        c.start.value <= v < c.end.value)),
{
    assert forall|v: u64| covered_by_chunks(chunks.push(c), v) <==> (covered_by_chunks(chunks, v)
        || (c.start.value <= v < c.end.value)) by {
        if covered_by_chunks(chunks.push(c), v) {
            let i = choose|i: int|
                0 <= i < chunks.push(c).len() && (#[trigger] chunks.push(c)[i]).start.value <= v
                    < chunks.push(c)[i].end.value;
            if i < chunks.len() {
                assert(chunks[i].start.value <= v < chunks[i].end.value);
            }
        }
        if covered_by_chunks(chunks, v) {
            let i = choose|i: int|
                0 <= i < chunks.len() && (#[trigger] chunks[i]).start.value <= v
                    < chunks[i].end.value;
            assert(chunks.push(c)[i].start.value <= v < chunks.push(c)[i].end.value);
        }
        if c.start.value <= v < c.end.value {
            assert(chunks.push(c)[chunks.len() as int].start.value <= v < chunks.push(c)[
                chunks.len() as int
            ].end.value);
        }
    }
}

/// Two runs holding the same chunks cover the same positions.
proof fn lemma_same_chunks_same_cover(a: Seq<Chunk>, b: Seq<Chunk>)
    requires
        a.to_multiset() == b.to_multiset(),
    ensures
        forall|v: u64| covered_by_chunks(a, v) <==> covered_by_chunks(b, v),
{
    broadcast use group_to_multiset_ensures;

    assert forall|v: u64| covered_by_chunks(a, v) <==> covered_by_chunks(b, v) by {
        if covered_by_chunks(a, v) {
            let i = choose|i: int|
                0 <= i < a.len() && (#[trigger] a[i]).start.value <= v < a[i].end.value;
            assert(a.contains(a[i]));
            assert(a.to_multiset().count(a[i]) > 0);
            assert(b.to_multiset().count(a[i]) > 0);
            assert(b.contains(a[i]));
            let j = choose|j: int| 0 <= j < b.len() && b[j] == a[i];
            assert(b[j].start.value <= v < b[j].end.value);
        }
        if covered_by_chunks(b, v) {
            let i = choose|i: int|
                0 <= i < b.len() && (#[trigger] b[i]).start.value <= v < b[i].end.value;
            assert(b.contains(b[i]));
            assert(b.to_multiset().count(b[i]) > 0);
            assert(a.to_multiset().count(b[i]) > 0);
            assert(a.contains(b[i]));
            let j = choose|j: int| 0 <= j < a.len() && a[j] == b[i];
            assert(a[j].start.value <= v < a[j].end.value);
        }
    }
}

/// Orders chunks by ascending start position.
#[verifier::loop_isolation(false)]
fn sort_chunks(chunks: Vec<Chunk>) -> (r: Vec<Chunk>)
    ensures
        chunks_sorted(r@),
        r@.to_multiset() == chunks@.to_multiset(),
{
    broadcast use group_to_multiset_ensures;

    let mut rest = chunks;
    let mut out: Vec<Chunk> = Vec::new();
    proof {
        assert(out@.to_multiset().add(rest@.to_multiset()) =~= chunks@.to_multiset());
    }
    while rest.len() > 0
        invariant
            chunks_sorted(out@),
            out@.to_multiset().add(rest@.to_multiset()) == chunks@.to_multiset(),
            forall|i: int, j: int|
                0 <= i < out@.len() && 0 <= j < rest@.len() ==> (#[trigger] out@[i]).start.value
                    <= (#[trigger] rest@[j]).start.value,
        decreases rest@.len(),
    {
        let mut m: usize = 0;
        let mut t: usize = 1;
        while t < rest.len()
            invariant
                m < rest@.len(),
                t <= rest@.len(),
                forall|k: int| 0 <= k < t ==> rest@[m as int].start.value <= (#[trigger] rest@[k]).start.value,
            decreases rest@.len() - t,
        {
            if rest[t].start.value < rest[m].start.value {
                m = t;
            }
            t = t + 1;
        }
        let ghost pre_out = out@;
        let ghost pre_rest = rest@;
        let c = rest.remove(m);
        out.push(c);
        proof {
            assert(pre_rest.contains(pre_rest[m as int]));
            assert(out@.to_multiset() =~= pre_out.to_multiset().insert(c));
            assert(rest@.to_multiset() =~= pre_rest.to_multiset().remove(c));
            assert(out@.to_multiset().add(rest@.to_multiset()) =~= pre_out.to_multiset().add(
                pre_rest.to_multiset(),
            ));
            assert forall|i: int, j: int|
                0 <= i < out@.len() && 0 <= j < rest@.len() implies (#[trigger] out@[i]).start.value <= (#[trigger] rest@[j]).start.value by {
                if j < m {
                    assert(rest@[j] == pre_rest[j]);
                } else {
                    assert(rest@[j] == pre_rest[j + 1]);
                }
                if i < pre_out.len() {
                    assert(out@[i] == pre_out[i]);
                } else {
                    assert(out@[i] == c);
                }
            }
            assert(chunks_sorted(out@)) by {
                assert forall|i: int| 0 <= i < out@.len() - 1 implies (#[trigger] out@[i]).start.value <= out@[i + 1].start.value by {
                    if i + 1 < pre_out.len() {
                        assert(pre_out[i].start.value <= pre_out[i + 1].start.value);
                    } else {
                        assert(pre_out[i].start.value <= pre_rest[m as int].start.value);
                    }
                }
            }
        }
    }
    proof {
        assert(rest@.to_multiset() =~= Multiset::<Chunk>::empty());
        assert(out@.to_multiset().add(Multiset::<Chunk>::empty()) =~= out@.to_multiset());
    }
    out
}

/// Joins sorted chunks into the least ordered, non-overlapping run covering
/// the same positions: a chunk reaching or passing its successor's start is
/// merged with it.
#[verifier::loop_isolation(false)]
fn merge_chunks(sorted: Vec<Chunk>) -> (r: Vec<Chunk>)
    requires
        chunks_sorted(sorted@),
    ensures
        chunks_sorted_disjoint(r@),
        forall|v: u64| covered_by_chunks(r@, v) <==> covered_by_chunks(sorted@, v),
{
    let mut out: Vec<Chunk> = Vec::new();
    let mut i: usize = 0;
    proof {
        assert(sorted@.take(0) =~= Seq::<Chunk>::empty());
    }
    while i < sorted.len()
        invariant
            i <= sorted@.len(),
            chunks_sorted_disjoint(out@),
            forall|v: u64| covered_by_chunks(out@, v) <==> covered_by_chunks(
                sorted@.take(i as int),
                v,
            ),
            out@.len() == 0 <==> i == 0,
            i > 0 ==> out@.last().start.value <= sorted@[i - 1].start.value,
        decreases sorted@.len() - i,
    {
        let c = sorted[i];
        proof {
            assert(sorted@.take(i + 1).drop_last() =~= sorted@.take(i as int));
            assert(sorted@.take(i + 1).last() == c);
            lemma_cover_push(sorted@.take(i as int), c);
            assert(sorted@.take(i as int).push(c) =~= sorted@.take(i + 1));
            if i > 0 {
                assert(sorted@[i - 1].start.value <= sorted@[i as int].start.value);
            }
        }
        if out.len() == 0 {
            let ghost pre_out = out@;
            out.push(c);
            proof {
                lemma_cover_push(pre_out, c);
                assert forall|v: u64| covered_by_chunks(out@, v) <==> covered_by_chunks(
                    sorted@.take(i + 1),
                    v,
                ) by {
                    assert(covered_by_chunks(out@, v) == covered_by_chunks(pre_out.push(c), v));
                    assert(covered_by_chunks(pre_out, v) == covered_by_chunks(
                        sorted@.take(i as int),
                        v,
                    ));
                    assert(covered_by_chunks(sorted@.take(i + 1), v) == covered_by_chunks(
                        sorted@.take(i as int).push(c),
                        v,
                    ));
                }
            }
        } else {
            let last_index = out.len() - 1;
            let last = out[last_index];
            let ghost pre_out = out@;
            if last.end.value < c.start.value {
                out.push(c);
                proof {
                    lemma_cover_push(pre_out, c);
                    assert forall|v: u64| covered_by_chunks(out@, v) <==> covered_by_chunks(
                        sorted@.take(i + 1),
                        v,
                    ) by {
                        assert(covered_by_chunks(out@, v) == covered_by_chunks(
                            pre_out.push(c),
                            v,
                        ));
                        assert(covered_by_chunks(sorted@.take(i + 1), v) == covered_by_chunks(
                            sorted@.take(i as int).push(c),
                            v,
                        ));
                        assert(covered_by_chunks(pre_out, v) == covered_by_chunks(
                            sorted@.take(i as int),
                            v,
                        ));
                    }
                }
            } else if c.end.value > last.end.value {
                let merged = Chunk { start: last.start, end: c.end };
                out.set(last_index, merged);
                proof {
                    assert(pre_out =~= pre_out.drop_last().push(last));
                    assert(out@ =~= pre_out.drop_last().push(merged));
                    lemma_cover_push(pre_out.drop_last(), last);
                    lemma_cover_push(pre_out.drop_last(), merged);
                    assert(last.start.value <= c.start.value);
                    assert(c.start.value <= last.end.value);
                    assert forall|v: u64| covered_by_chunks(out@, v) <==> covered_by_chunks(
                        sorted@.take(i + 1),
                        v,
                    ) by {
                        assert(covered_by_chunks(out@, v) == (covered_by_chunks(
                            pre_out.drop_last(),
                            v,
                        ) || (merged.start.value <= v < merged.end.value)));
                        assert(covered_by_chunks(pre_out, v) == (covered_by_chunks(
                            pre_out.drop_last(),
                            v,
                        ) || (last.start.value <= v < last.end.value)));
                        assert(covered_by_chunks(pre_out, v) == covered_by_chunks(
                            sorted@.take(i as int),
                            v,
                        ));
                        assert(covered_by_chunks(sorted@.take(i + 1), v) == covered_by_chunks(
                            sorted@.take(i as int).push(c),
                            v,
                        ));
                        if last.start.value <= v < last.end.value || c.start.value <= v
                            < c.end.value {
                            assert(merged.start.value <= v < merged.end.value);
                        }
                        if merged.start.value <= v < merged.end.value && v >= last.end.value {
                            assert(c.start.value <= v < c.end.value);
                        }
                    }
                    assert(chunks_sorted_disjoint(out@)) by {
                        assert forall|k: int| 0 <= k < out@.len() - 1 implies ((#[trigger] out@[k]).start.value <= out@[k + 1].start.value && out@[k].end.value < out@[k
                            + 1].start.value) by {
                            assert(pre_out[k].start.value <= pre_out[k + 1].start.value);
                            assert(pre_out[k].end.value < pre_out[k + 1].start.value);
                        }
                    }
                }
            } else {
                proof {
                    assert(last.start.value <= c.start.value);
                    assert(pre_out =~= pre_out.drop_last().push(last));
                    lemma_cover_push(pre_out.drop_last(), last);
                    assert forall|v: u64| covered_by_chunks(out@, v) <==> covered_by_chunks(
                        sorted@.take(i + 1),
                        v,
                    ) by {
                        assert(covered_by_chunks(out@, v) == (covered_by_chunks(
                            pre_out.drop_last(),
                            v,
                        ) || (last.start.value <= v < last.end.value)));
                        assert(covered_by_chunks(out@, v) == covered_by_chunks(
                            sorted@.take(i as int),
                            v,
                        ));
                        assert(covered_by_chunks(sorted@.take(i + 1), v) == covered_by_chunks(
                            sorted@.take(i as int).push(c),
                            v,
                        ));
                        if c.start.value <= v < c.end.value {
                            assert(last.start.value <= v < last.end.value);
                        }
                    }
                }
            }
        }
        i = i + 1;
    }
    proof {
        assert(sorted@.take(sorted@.len() as int) =~= sorted@);
    }
    out
}

/// A coordinate-sorted index: the tree parameters, auxiliary data, the indexed
/// reference sequences, and the count of unplaced unmapped records.
#[derive(Clone, Debug)]
pub struct Index {
    /// The number of bits of a leaf window.
    pub min_shift: u8,
    /// How many levels the tree has below the root.
    pub depth: u8,
    /// Uninterpreted auxiliary data carried by the index file.
    pub aux: Vec<u8>,
    /// One entry per reference sequence, in header order.
    pub reference_sequences: Vec<ReferenceSequence>,
    /// How many records are unplaced and unmapped, when counted.
    pub n_no_coor: Option<u64>,
}

/// Builds an index from each of its fields; the tree parameters default to a
/// 14-bit leaf window and five levels.
pub struct Builder {
    /// The number of bits of a leaf window.
    pub min_shift: u8,
    /// How many levels the tree has below the root.
    pub depth: u8,
    /// Uninterpreted auxiliary data.
    pub aux: Vec<u8>,
    /// One entry per reference sequence.
    pub reference_sequences: Vec<ReferenceSequence>,
    /// How many records are unplaced and unmapped, when counted.
    pub n_no_coor: Option<u64>,
}

impl Builder {
    /// Sets the number of bits of a leaf window.
    pub fn set_min_shift(self, min_shift: u8) -> (r: Builder)
        ensures
            r.min_shift == min_shift,
            r.depth == self.depth && r.aux == self.aux && r.reference_sequences
                == self.reference_sequences && r.n_no_coor == self.n_no_coor,
    {
        Builder { min_shift, ..self }
    }

    /// Sets how many levels the tree has below the root.
    pub fn set_depth(self, depth: u8) -> (r: Builder)
        ensures
            r.depth == depth,
            r.min_shift == self.min_shift && r.aux == self.aux && r.reference_sequences
                == self.reference_sequences && r.n_no_coor == self.n_no_coor,
    {
        Builder { depth, ..self }
    }

    /// Sets the auxiliary data.
    pub fn set_aux(self, aux: Vec<u8>) -> (r: Builder)
        ensures
            r.aux == aux,
            r.min_shift == self.min_shift && r.depth == self.depth && r.reference_sequences
                == self.reference_sequences && r.n_no_coor == self.n_no_coor,
    {
        Builder { aux, ..self }
    }

    /// Sets the reference sequences.
    pub fn set_reference_sequences(self, reference_sequences: Vec<ReferenceSequence>) -> (r:
        Builder)
        ensures
            r.reference_sequences == reference_sequences,
            r.min_shift == self.min_shift && r.depth == self.depth && r.aux == self.aux
                && r.n_no_coor == self.n_no_coor,
    {
        Builder { reference_sequences, ..self }
    }

    /// Sets how many records are unplaced and unmapped.
    pub fn set_unplaced_unmapped_record_count(self, n_no_coor: u64) -> (r: Builder)
        ensures
            r.n_no_coor == Some(n_no_coor),
            r.min_shift == self.min_shift && r.depth == self.depth && r.aux == self.aux
                && r.reference_sequences == self.reference_sequences,
    {
        Builder { n_no_coor: Some(n_no_coor), ..self }
    }

    /// Builds the index.
    pub fn build(self) -> (r: Index)
        ensures
            r.min_shift == self.min_shift && r.depth == self.depth && r.aux == self.aux
                && r.reference_sequences == self.reference_sequences && r.n_no_coor
                == self.n_no_coor,
    {
        Index {
            min_shift: self.min_shift,
            depth: self.depth,
            aux: self.aux,
            reference_sequences: self.reference_sequences,
            n_no_coor: self.n_no_coor,
        }
    }
}

impl Default for Builder {
    /// A builder for an index over a 14-bit leaf window and five levels, with
    /// nothing else set.
    fn default() -> (r: Builder)
        ensures
            r.min_shift == 14 && r.depth == 5 && r.aux@.len() == 0
                && r.reference_sequences@.len() == 0 && r.n_no_coor is None,
    {
        Builder {
            min_shift: 14,
            depth: 5,
            aux: Vec::new(),
            reference_sequences: Vec::new(),
            n_no_coor: None,
        }
    }
}

impl Index {
    /// Whether the index's tree parameters are representable.
    pub open spec fn wf(&self) -> bool {
        params_valid(self.min_shift as int, self.depth as int)
    }

    /// Returns a builder, with the default tree parameters.
    pub fn builder() -> (r: Builder)
        ensures
            r.min_shift == 14 && r.depth == 5 && r.aux@.len() == 0
                && r.reference_sequences@.len() == 0 && r.n_no_coor is None,
    {
        Builder::default()
    }

    /// Returns the number of bits of a leaf window.
    pub fn min_shift(&self) -> (r: u8)
        ensures
            r == self.min_shift,
    {
        self.min_shift
    }

    /// Returns how many levels the tree has below the root.
    pub fn depth(&self) -> (r: u8)
        ensures
            r == self.depth,
    {
        self.depth
    }

    /// Returns the auxiliary data.
    pub fn aux(&self) -> (r: &Vec<u8>)
        ensures
            r == self.aux,
    {
        &self.aux
    }

    /// Returns how many records are unplaced and unmapped, when counted.
    pub fn unmapped_read_count(&self) -> (r: Option<u64>)
        ensures
            r == self.n_no_coor,
    {
        self.n_no_coor
    }

    /// Returns how many records are unplaced and unmapped, when counted.
    pub fn unplaced_unmapped_record_count(&self) -> (r: Option<u64>)
        ensures
            r == self.n_no_coor,
    {
        self.n_no_coor
    }

    /// Returns the indexed reference sequences.
    pub fn reference_sequences(&self) -> (r: &Vec<ReferenceSequence>)
        ensures
            r == self.reference_sequences,
    {
        &self.reference_sequences
    }

    /// Returns the chunks of every bin of the named reference sequence that
    /// the interval selects — the virtual-position ranges that can hold a
    /// record overlapping it — sorted by start and merged so that none
    /// reaches its successor.
    #[verifier::loop_isolation(false)]
    pub fn query(&self, reference_sequence_id: usize, interval: Interval) -> (r: Result<
        Vec<Chunk>,
        QueryError,
    >)
        requires
            self.wf(),
            interval_valid(interval),
        ensures
            ({
                let max = pow2((self.min_shift + 3 * self.depth) as nat) - 1;
                let s = spec_resolved_start(interval);
                let e = spec_resolved_end(interval, self.min_shift as int, self.depth as int);
                if reference_sequence_id >= self.reference_sequences@.len() {
                    r == Result::<Vec<Chunk>, QueryError>::Err(
                        QueryError::InvalidReferenceSequenceId,
                    )
                } else if s > max {
                    r == Result::<Vec<Chunk>, QueryError>::Err(QueryError::InvalidStartBound)
                } else if e > max {
                    r == Result::<Vec<Chunk>, QueryError>::Err(QueryError::InvalidEndBound)
                } else if s > e {
                    r == Result::<Vec<Chunk>, QueryError>::Err(QueryError::InvalidInterval)
                } else {
                    r is Ok && ({
                        let raw = chunks_of_bins(
                            candidate_bins(
                                self.reference_sequences@[reference_sequence_id as int].bins@,
                                self.min_shift as int,
                                self.depth as int,
                                s - 1,
                                e - 1,
                            ),
                        );
                        &&& chunks_sorted_disjoint(r->Ok_0@)
                        &&& forall|v: u64| covered_by_chunks(r->Ok_0@, v) <==> covered_by_chunks(
                            raw,
                            v,
                        )
                    })
                }
            }),
    {
        if reference_sequence_id >= self.reference_sequences.len() {
            return Err(QueryError::InvalidReferenceSequenceId);
        }
        let reference_sequence = &self.reference_sequences[reference_sequence_id];
        let query_bins = match reference_sequence.query(self.min_shift, self.depth, interval) {
            Ok(bins) => bins,
            Err(e) => {
                return Err(e);
            },
        };
        let ghost begi = spec_resolved_start(interval) - 1;
        let ghost endi = spec_resolved_end(interval, self.min_shift as int, self.depth as int) - 1;
        proof {
            lemma_bins_like_same_chunks(
                query_bins@,
                candidate_bins(
                    reference_sequence.bins@,
                    self.min_shift as int,
                    self.depth as int,
                    begi,
                    endi,
                ),
            );
        }
        let mut chunks: Vec<Chunk> = Vec::new();
        let mut i: usize = 0;
        proof {
            assert(query_bins@.take(0) =~= Seq::<crate::csi::bin::Bin>::empty());
        }
        while i < query_bins.len()
            invariant
                i <= query_bins@.len(),
                chunks@ == chunks_of_bins(query_bins@.take(i as int)),
            decreases query_bins@.len() - i,
        {
            let b = &query_bins[i];
            let mut ci: usize = 0;
            let ghost chunk_base = chunks@;
            while ci < b.chunks.len()
                invariant
                    ci <= b.chunks@.len(),
                    chunks@ == chunk_base + b.chunks@.take(ci as int),
                    0 <= i < query_bins@.len(),
                    b == &query_bins@[i as int],
                decreases b.chunks@.len() - ci,
            {
                chunks.push(b.chunks[ci]);
                proof {
                    assert(b.chunks@.take(ci + 1) =~= b.chunks@.take(ci as int).push(
                        b.chunks@[ci as int],
                    ));
                    assert(chunks@ =~= chunk_base + b.chunks@.take(ci + 1));
                }
                ci = ci + 1;
            }
            proof {
                assert(b.chunks@.take(b.chunks@.len() as int) =~= b.chunks@);
                assert(query_bins@.take(i + 1).drop_last() =~= query_bins@.take(i as int));
                assert(query_bins@.take(i + 1).last() == query_bins@[i as int]);
                assert(chunks@ =~= chunks_of_bins(query_bins@.take(i + 1)));
            }
            i = i + 1;
        }
        proof {
            assert(query_bins@.take(query_bins@.len() as int) =~= query_bins@);
        }
        let ghost raw = chunks@;
        let sorted = sort_chunks(chunks);
        proof {
            lemma_same_chunks_same_cover(sorted@, raw);
        }
        let merged = merge_chunks(sorted);
        Ok(merged)
    }
}

impl Default for Index {
    /// An index over a 14-bit leaf window and five levels, with no reference
    /// sequences.
    fn default() -> (r: Index)
        ensures
            r.min_shift == 14 && r.depth == 5 && r.aux@.len() == 0
                && r.reference_sequences@.len() == 0 && r.n_no_coor is None,
    {
        Index::builder().build()
    }
}

} // verus!
