//! The binning index: bin arithmetic, the candidate-bin computation, and the
//! chunk query.

use hts::csi::bin::{Bin, Chunk, Metadata};
use hts::csi::index::{Index, Interval, QueryError};
use hts::csi::reference_sequence::{reg2bins, ReferenceSequence};
use hts::position::Position;
use hts::vpos::VirtualPosition;

const MIN_SHIFT: u8 = 14;
const DEPTH: u8 = 5;

fn pos(value: usize) -> Position {
    Position::new(value).unwrap()
}

#[test]
fn test_max_position() {
    let actual = ReferenceSequence::max_position(MIN_SHIFT, DEPTH);
    assert_eq!(actual.get(), 536870911);
}

#[test]
fn test_query() {
    let reference_sequence = ReferenceSequence::new(Vec::new(), None);
    let end = pos(i32::MAX as usize);

    assert_eq!(
        reference_sequence
            .query(MIN_SHIFT, DEPTH, Interval::new(None, Some(end)))
            .unwrap_err(),
        QueryError::InvalidEndBound,
    );
}

#[test]
fn test_reg2bins() {
    const MIN_SHIFT: u8 = 4;
    const DEPTH: u8 = 2;

    fn t(start: usize, end: usize, expected_bin_ids: &[u32]) {
        let max_bin_id = Bin::max_id(DEPTH);

        let mut actual = bit_vec::BitVec::from_elem(max_bin_id as usize, false);
        reg2bins(pos(start), pos(end), MIN_SHIFT, DEPTH, &mut actual);

        let mut expected = bit_vec::BitVec::from_elem(max_bin_id as usize, false);
        for &bin_id in expected_bin_ids {
            expected.set(bin_id as usize, true);
        }

        assert_eq!(actual, expected);
    }

    t(1, 16, &[0, 1, 9]);
    t(9, 13, &[0, 1, 9]);
    t(36, 67, &[0, 1, 11, 12, 13]);
    t(49, 143, &[0, 1, 2, 12, 13, 14, 15, 16, 17]);
}

#[test]
fn test_bin_counts() {
    assert_eq!(Bin::max_id(5), 37449);
    assert_eq!(Bin::metadata_id(5), 37450);
    assert_eq!(Bin::max_id(2), 73);
}

#[test]
fn test_index_query_collects_candidate_chunks() {
    // two bins: the root (always a candidate) and a leaf far away
    let root_chunk = Chunk::new(VirtualPosition::from(8), VirtualPosition::from(13));
    let far_chunk = Chunk::new(VirtualPosition::from(21), VirtualPosition::from(34));
    let bins = vec![
        Bin::new(0, VirtualPosition::from(0), vec![root_chunk]),
        // the last leaf-level bin: positions 512 * 16 .. (not near 1..=16)
        Bin::new(9 + 40, VirtualPosition::from(0), vec![far_chunk]),
    ];
    let reference_sequence = ReferenceSequence::new(bins, None);
    let index = Index::builder()
        .set_min_shift(4)
        .set_depth(2)
        .set_reference_sequences(vec![reference_sequence])
        .build();

    let chunks = index
        .query(0, Interval::new(Some(pos(1)), Some(pos(16))))
        .unwrap();
    assert_eq!(chunks, vec![root_chunk]);

    // a query over everything picks both bins up
    let all = index.query(0, Interval::new(None, None)).unwrap();
    assert_eq!(all, vec![root_chunk, far_chunk]);
}

#[test]
fn test_index_query_errors() {
    let index = Index::builder()
        .set_min_shift(4)
        .set_depth(2)
        .set_reference_sequences(vec![ReferenceSequence::new(Vec::new(), None)])
        .build();

    assert_eq!(
        index.query(1, Interval::new(None, None)).unwrap_err(),
        QueryError::InvalidReferenceSequenceId,
    );
    assert_eq!(
        index
            .query(0, Interval::new(Some(pos(2000)), None))
            .unwrap_err(),
        QueryError::InvalidStartBound,
    );
    assert_eq!(
        index
            .query(0, Interval::new(Some(pos(8)), Some(pos(2000))))
            .unwrap_err(),
        QueryError::InvalidEndBound,
    );
    assert_eq!(
        index
            .query(0, Interval::new(Some(pos(13)), Some(pos(8))))
            .unwrap_err(),
        QueryError::InvalidInterval,
    );
}

#[test]
fn test_index_query_sorts_and_merges_chunks() {
    // chunks arrive out of order and touching: the query returns one ordered,
    // non-overlapping chunk covering the same positions
    let bins = vec![
        Bin::new(9, VirtualPosition::from(0), vec![Chunk::new(
            VirtualPosition::from(8),
            VirtualPosition::from(13),
        )]),
        Bin::new(0, VirtualPosition::from(0), vec![
            Chunk::new(VirtualPosition::from(13), VirtualPosition::from(21)),
            Chunk::new(VirtualPosition::from(34), VirtualPosition::from(55)),
        ]),
        Bin::new(10, VirtualPosition::from(0), vec![Chunk::new(
            VirtualPosition::from(21),
            VirtualPosition::from(34),
        )]),
    ];
    let index = Index::builder()
        .set_min_shift(4)
        .set_depth(2)
        .set_reference_sequences(vec![ReferenceSequence::new(bins, None)])
        .build();

    let chunks = index.query(0, Interval::new(None, None)).unwrap();
    assert_eq!(
        chunks,
        vec![Chunk::new(VirtualPosition::from(8), VirtualPosition::from(55))],
    );
}

#[test]
fn test_index_defaults_and_fields() {
    let index = Index::default();
    assert_eq!(index.min_shift(), 14);
    assert_eq!(index.depth(), 5);
    assert!(index.aux().is_empty());
    assert!(index.unmapped_read_count().is_none());
    assert!(index.unplaced_unmapped_record_count().is_none());
    assert!(index.reference_sequences().is_empty());

    let index = Index::builder()
        .set_aux(vec![1, 2, 3])
        .set_unplaced_unmapped_record_count(55)
        .build();
    assert_eq!(index.aux(), &vec![1, 2, 3]);
    assert_eq!(index.unplaced_unmapped_record_count(), Some(55));
}

#[test]
fn test_reference_sequence_accessors() {
    let metadata = Metadata::new(
        VirtualPosition::from(610),
        VirtualPosition::from(1597),
        55,
        0,
    );
    let reference_sequence = ReferenceSequence::new(Vec::new(), Some(metadata));
    assert!(reference_sequence.metadata().is_some());
    assert!(reference_sequence
        .first_record_in_last_linear_bin_start_position()
        .is_none());

    let bins = vec![
        Bin::new(0, VirtualPosition::from(8), Vec::new()),
        Bin::new(1, VirtualPosition::from(13), Vec::new()),
    ];
    let reference_sequence = ReferenceSequence::new(bins, None);
    assert_eq!(
        reference_sequence.first_record_in_last_linear_bin_start_position(),
        Some(VirtualPosition::from(13)),
    );
    assert_eq!(metadata.mapped_record_count(), 55);
    assert_eq!(metadata.unmapped_record_count(), 0);
    assert_eq!(metadata.start_position(), VirtualPosition::from(610));
    assert_eq!(metadata.end_position(), VirtualPosition::from(1597));
}

#[test]
fn test_virtual_position_parts() {
    let v = VirtualPosition::try_from_parts(3741, 17).unwrap();
    assert_eq!(v.compressed(), 3741);
    assert_eq!(v.uncompressed(), 17);
    assert_eq!(v.value, (3741 << 16) | 17);

    assert!(VirtualPosition::try_from_parts(1 << 48, 0).is_none());

    // ordering is lexicographic on (compressed, uncompressed)
    let a = VirtualPosition::try_from_parts(1, 0xffff).unwrap();
    let b = VirtualPosition::try_from_parts(2, 0).unwrap();
    assert!(a.value < b.value);
}
