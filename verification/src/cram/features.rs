//! Per-record features and the walk that assigns each one its reference and
//! read positions.

use vstd::prelude::*;

use crate::position::Position;

verus! {

/// A read feature, relative to the slice's alignment start: what differs from
/// the reference at a read position.
#[derive(Clone, Debug)]
pub enum Feature {
    /// A stretch of read bases.
    Bases(Position, Vec<u8>),
    /// A stretch of quality scores; consumes nothing.
    Scores(Position, Vec<u8>),
    /// One read base with its score.
    ReadBase(Position, u8, u8),
    /// One substituted base, by substitution code.
    Substitution(Position, u8),
    /// Bases inserted into the read.
    Insertion(Position, Vec<u8>),
    /// A deletion from the reference, by length.
    Deletion(Position, usize),
    /// One inserted base.
    InsertBase(Position, u8),
    /// One quality score; consumes nothing.
    QualityScore(Position, u8),
    /// A skipped reference region, by length.
    ReferenceSkip(Position, usize),
    /// Soft-clipped read bases.
    SoftClip(Position, Vec<u8>),
    /// Padding, by length.
    Padding(Position, usize),
    /// A hard clip, by length.
    HardClip(Position, usize),
}

/// The 1-based read position a feature names.
pub open spec fn feature_position(f: Feature) -> int {
    match f {
        Feature::Bases(p, ..) => p.value as int,
        Feature::Scores(p, ..) => p.value as int,
        Feature::ReadBase(p, ..) => p.value as int,
        Feature::Substitution(p, ..) => p.value as int,
        Feature::Insertion(p, ..) => p.value as int,
        Feature::Deletion(p, ..) => p.value as int,
        Feature::InsertBase(p, ..) => p.value as int,
        Feature::QualityScore(p, ..) => p.value as int,
        Feature::ReferenceSkip(p, ..) => p.value as int,
        Feature::SoftClip(p, ..) => p.value as int,
        Feature::Padding(p, ..) => p.value as int,
        Feature::HardClip(p, ..) => p.value as int,
    }
}

/// Whether the walk passes a feature over: score-only features consume
/// neither reference nor read.
pub open spec fn is_score_only(f: Feature) -> bool {
    match f {
        Feature::Scores(..) => true,
        Feature::QualityScore(..) => true,
        _ => false,
    }
}

/// How many reference positions a feature consumes.
pub open spec fn reference_delta(f: Feature) -> int {
    match f {
        Feature::Bases(_, bases) => bases@.len() as int,
        Feature::Scores(..) => 0,
        Feature::ReadBase(..) => 1,
        Feature::Substitution(..) => 1,
        Feature::Insertion(..) => 0,
        Feature::Deletion(_, len) => len as int,
        Feature::InsertBase(..) => 0,
        Feature::QualityScore(..) => 0,
        Feature::ReferenceSkip(_, len) => len as int,
        Feature::SoftClip(..) => 0,
        Feature::Padding(..) => 0,
        Feature::HardClip(..) => 0,
    }
}

/// How many read positions a feature consumes.
pub open spec fn read_delta(f: Feature) -> int {
    match f {
        Feature::Bases(_, bases) => bases@.len() as int,
        Feature::Scores(..) => 0,
        Feature::ReadBase(..) => 1,
        Feature::Substitution(..) => 1,
        Feature::Insertion(_, bases) => bases@.len() as int,
        Feature::Deletion(..) => 0,
        Feature::InsertBase(..) => 1,
        Feature::QualityScore(..) => 0,
        Feature::ReferenceSkip(..) => 0,
        Feature::SoftClip(_, bases) => bases@.len() as int,
        Feature::Padding(..) => 0,
        Feature::HardClip(..) => 0,
    }
}

/// What one step of the walk yields from index `i` with the given positions:
/// the consuming feature's index, the positions reported with it, and the
/// positions after it; or nothing when only score features remain.
pub open spec fn spec_next(features: Seq<Feature>, i: int, refp: int, readp: int) -> Option<
    (int, int, int, int, int),
>
    decreases features.len() - i,
{
    if i < 0 || i >= features.len() {
        None
    } else if is_score_only(features[i]) {
        spec_next(features, i + 1, refp, readp)
    } else {
        let f = features[i];
        let ml = feature_position(f) - readp;
        Some(
            (
                i,
                refp + ml,
                feature_position(f),
                refp + ml + reference_delta(f),
                feature_position(f) + read_delta(f),
            ),
        )
    }
}

/// Whether the whole walk from index `i` stays in bounds: every consuming
/// feature sits at or past the read position reached before it, and no
/// position leaves the machine range.
pub open spec fn steps_ok(features: Seq<Feature>, i: int, refp: int, readp: int) -> bool
    decreases features.len() - i,
{
    if i < 0 || i >= features.len() {
        true
    } else if is_score_only(features[i]) {
        steps_ok(features, i + 1, refp, readp)
    } else {
        let f = features[i];
        let ml = feature_position(f) - readp;
        &&& feature_position(f) >= readp
        &&& refp + ml + reference_delta(f) <= usize::MAX
        &&& feature_position(f) + read_delta(f) <= usize::MAX
        &&& steps_ok(
            features,
            i + 1,
            refp + ml + reference_delta(f),
            feature_position(f) + read_delta(f),
        )
    }
}

impl Feature {
    /// Returns the 1-based read position the feature names.
    pub fn position(&self) -> (p: Position)
        ensures
            p.value as int == feature_position(*self),
    {
        match self {
            Feature::Bases(p, ..) => *p,
            Feature::Scores(p, ..) => *p,
            Feature::ReadBase(p, ..) => *p,
            Feature::Substitution(p, ..) => *p,
            Feature::Insertion(p, ..) => *p,
            Feature::Deletion(p, ..) => *p,
            Feature::InsertBase(p, ..) => *p,
            Feature::QualityScore(p, ..) => *p,
            Feature::ReferenceSkip(p, ..) => *p,
            Feature::SoftClip(p, ..) => *p,
            Feature::Padding(p, ..) => *p,
            Feature::HardClip(p, ..) => *p,
        }
    }
}

/// Walks features in order, assigning each consuming feature the 1-based
/// reference and read positions where it applies.
pub struct WithPositions<'a> {
    /// The features being walked.
    pub features: &'a Vec<Feature>,
    /// The index of the next feature to consider.
    pub index: usize,
    /// The 1-based reference position reached so far.
    pub reference_position: Position,
    /// The 1-based read position reached so far.
    pub read_position: Position,
}

impl<'a> WithPositions<'a> {
    /// Starts a walk at the slice's alignment start.
    pub fn new(features: &'a Vec<Feature>, alignment_start: Position) -> (r: WithPositions<'a>)
        ensures
            r.features == features,
            r.index == 0,
            r.reference_position == alignment_start,
            r.read_position.value == 1,
    {
        WithPositions {
            features,
            index: 0,
            reference_position: alignment_start,
            read_position: Position::min(),
        }
    }

    /// Returns the current reference and read positions, both 1-based.
    pub fn positions(&self) -> (r: (Position, Position))
        ensures
            r.0 == self.reference_position && r.1 == self.read_position,
    {
        (self.reference_position, self.read_position)
    }

    /// Yields the next consuming feature with the positions where it applies:
    /// score-only features are passed over, a gap before the feature is
    /// walked as matches, and the positions advance by what the feature
    /// consumes.
    #[verifier::loop_isolation(false)]
    pub fn next(&mut self) -> (r: Option<((Position, Position), &'a Feature)>)
        requires
            steps_ok(
                old(self).features@,
                old(self).index as int,
                old(self).reference_position.value as int,
                old(self).read_position.value as int,
            ),
        ensures
            final(self).features == old(self).features,
            ({
                let step = spec_next(
                    old(self).features@,
                    old(self).index as int,
                    old(self).reference_position.value as int,
                    old(self).read_position.value as int,
                );
                match step {
                    None => r is None && final(self).index >= old(self).features@.len()
                        && final(self).reference_position == old(self).reference_position
                        && final(self).read_position == old(self).read_position,
                    Some((idx, rp, dp, refp_after, readp_after)) => r is Some && ({
                        let ((p, q), f) = r->0;
                        &&& p.value == rp
                        &&& q.value == dp
                        &&& f == &old(self).features@[idx]
                        &&& final(self).index == idx + 1
                        &&& final(self).reference_position.value == refp_after
                        &&& final(self).read_position.value == readp_after
                    }),
                }
            }),
            steps_ok(
                final(self).features@,
                final(self).index as int,
                final(self).reference_position.value as int,
                final(self).read_position.value as int,
            ),
    {
        let features = self.features;
        let n = features.len();
        while self.index < n
            invariant
                self.features == old(self).features,
                self.reference_position == old(self).reference_position,
                self.read_position == old(self).read_position,
                spec_next(
                    features@,
                    self.index as int,
                    self.reference_position.value as int,
                    self.read_position.value as int,
                ) == spec_next(
                    old(self).features@,
                    old(self).index as int,
                    old(self).reference_position.value as int,
                    old(self).read_position.value as int,
                ),
                steps_ok(
                    features@,
                    self.index as int,
                    self.reference_position.value as int,
                    self.read_position.value as int,
                ),
            decreases n - self.index,
        {
            let f = &features[self.index];
            let skip = match f {
                Feature::Scores(..) => true,
                Feature::QualityScore(..) => true,
                _ => false,
            };
            if skip {
                self.index = self.index + 1;
            } else {
                let fp = f.position().get();
                let match_len = fp - self.read_position.get();
                let rp = self.reference_position.get() + match_len;
                let delta_ref: usize = match f {
                    Feature::Bases(_, bases) => bases.len(),
                    Feature::ReadBase(..) => 1,
                    Feature::Substitution(..) => 1,
                    Feature::Deletion(_, len) => *len,
                    Feature::ReferenceSkip(_, len) => *len,
                    _ => 0,
                };
                let delta_read: usize = match f {
                    Feature::Bases(_, bases) => bases.len(),
                    Feature::ReadBase(..) => 1,
                    Feature::Substitution(..) => 1,
                    Feature::Insertion(_, bases) => bases.len(),
                    Feature::InsertBase(..) => 1,
                    Feature::SoftClip(_, bases) => bases.len(),
                    _ => 0,
                };
                let reported = (Position { value: rp }, Position { value: fp });
                self.reference_position = Position { value: rp + delta_ref };
                self.read_position = Position { value: fp + delta_read };
                self.index = self.index + 1;
                return Some((reported, f));
            }
        }
        None
    }
}

} // verus!
