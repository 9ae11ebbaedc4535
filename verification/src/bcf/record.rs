//! The site layout of a binary variant-call record: two length fields, the
//! shared site data, and the raw per-sample genotype block.

use vstd::prelude::*;

use crate::bam::codec::{le32_value, lemma_le32_of_i32, lemma_le32_of_u32, lemma_le32_subrange};
use crate::bcf::typed::{
    decode_typed_value, lemma_typed_value_round_trip, typed_value_bytes, typed_value_wf,
    write_typed_value, TypedValue, TypedValueView,
};
use crate::binary::{i32_le_bytes, put_bytes, put_i32_le, put_u32_le, u32_le_bytes};

verus! {

/// A variant-call record: the shared site fields, and the raw genotype block.
///
/// The identifier, allele, filter and info fields hold typed values as the
/// layout stores them; resolving them against the header's string maps is the
/// caller's concern. The quality score is carried as its bit pattern.
#[derive(Clone, Debug)]
pub struct Record {
    /// The contig id, an index into the header's contig map.
    pub chrom_id: i32,
    /// The 0-based start position.
    pub pos: i32,
    /// The length of the record on the reference.
    pub rlen: i32,
    /// The quality score's bit pattern.
    pub qual_bits: u32,
    /// How many samples the genotype block describes.
    pub n_sample: u32,
    /// How many genotype fields each sample carries.
    pub n_fmt: u8,
    /// The record identifiers, as a typed string.
    pub ids: TypedValue,
    /// The reference allele then each alternate allele, as typed strings.
    pub alleles: Vec<TypedValue>,
    /// The filter ids, as a typed integer vector.
    pub filters: TypedValue,
    /// The info fields: a typed integer key then a typed value, repeated.
    pub info: Vec<(TypedValue, TypedValue)>,
    /// The raw genotype block.
    pub genotypes: Vec<u8>,
}

/// A record as mathematical values.
pub struct RecordView {
    /// The contig id.
    pub chrom_id: i32,
    /// The 0-based start position.
    pub pos: i32,
    /// The length on the reference.
    pub rlen: i32,
    /// The quality score's bit pattern.
    pub qual_bits: u32,
    /// How many samples the genotype block describes.
    pub n_sample: u32,
    /// How many genotype fields each sample carries.
    pub n_fmt: u8,
    /// The record identifiers.
    pub ids: TypedValueView,
    /// The alleles.
    pub alleles: Seq<TypedValueView>,
    /// The filter ids.
    pub filters: TypedValueView,
    /// The info fields.
    pub info: Seq<(TypedValueView, TypedValueView)>,
    /// The raw genotype block.
    pub genotypes: Seq<u8>,
}

/// The typed values held by a run of them.
pub open spec fn views_of_typed(xs: Seq<TypedValue>) -> Seq<TypedValueView> {
    Seq::new(xs.len(), |i: int| xs[i]@)
}

/// The typed-value pairs held by a run of them.
pub open spec fn views_of_pairs(xs: Seq<(TypedValue, TypedValue)>) -> Seq<
    (TypedValueView, TypedValueView),
> {
    Seq::new(xs.len(), |i: int| (xs[i].0@, xs[i].1@))
}

impl Record {
    /// The mathematical value of a record.
    pub open spec fn view(&self) -> RecordView {
        RecordView {
            chrom_id: self.chrom_id,
            pos: self.pos,
            rlen: self.rlen,
            qual_bits: self.qual_bits,
            n_sample: self.n_sample,
            n_fmt: self.n_fmt,
            ids: self.ids@,
            alleles: views_of_typed(self.alleles@),
            filters: self.filters@,
            info: views_of_pairs(self.info@),
            genotypes: self.genotypes@,
        }
    }
}

/// The encodings of a run of typed values, in order.
pub open spec fn typed_values_bytes(xs: Seq<TypedValueView>) -> Seq<u8>
    decreases xs.len(),
{
    if xs.len() == 0 {
        Seq::empty()
    } else {
        typed_values_bytes(xs.drop_last()) + typed_value_bytes(xs.last())
    }
}

/// The encodings of a run of key-value pairs, in order.
pub open spec fn pairs_bytes(xs: Seq<(TypedValueView, TypedValueView)>) -> Seq<u8>
    decreases xs.len(),
{
    if xs.len() == 0 {
        Seq::empty()
    } else {
        pairs_bytes(xs.drop_last()) + typed_value_bytes(xs.last().0) + typed_value_bytes(
            xs.last().1,
        )
    }
}

/// The fixed 24 bytes that open the site data.
pub open spec fn site_prefix(v: RecordView) -> Seq<u8> {
    i32_le_bytes(v.chrom_id) + i32_le_bytes(v.pos) + i32_le_bytes(v.rlen) + u32_le_bytes(
        v.qual_bits,
    ) + u32_le_bytes((v.alleles.len() * 0x1_0000 + v.info.len()) as u32) + u32_le_bytes(
        (v.n_fmt * 0x100_0000 + v.n_sample) as u32,
    )
}

/// The shared site data of a record: the fixed 24-byte prefix, then the
/// identifiers, alleles, filters and info fields.
pub open spec fn site_bytes(v: RecordView) -> Seq<u8> {
    site_prefix(v) + typed_value_bytes(v.ids) + typed_values_bytes(v.alleles) + typed_value_bytes(
        v.filters,
    ) + pairs_bytes(v.info)
}

/// The whole encoding of a record: the two length fields, the site data, and
/// the genotype block.
pub open spec fn record_bytes(v: RecordView) -> Seq<u8> {
    u32_le_bytes((site_bytes(v).len()) as u32) + u32_le_bytes(v.genotypes.len() as u32)
        + site_bytes(v) + v.genotypes
}

/// Whether every typed value in a run can be encoded.
pub open spec fn typed_values_wf(xs: Seq<TypedValueView>) -> bool {
    forall|i: int| 0 <= i < xs.len() ==> typed_value_wf(#[trigger] xs[i])
}

/// Whether every pair in a run can be encoded.
pub open spec fn pairs_wf(xs: Seq<(TypedValueView, TypedValueView)>) -> bool {
    forall|i: int|
        0 <= i < xs.len() ==> (typed_value_wf((#[trigger] xs[i]).0) && typed_value_wf(xs[i].1))
}

/// Whether a record can be written: its counts fit their packed fields and
/// every typed value can be encoded.
pub open spec fn record_view_wf(v: RecordView) -> bool {
    &&& v.alleles.len() < 0x1_0000
    &&& v.info.len() < 0x1_0000
    &&& v.n_sample < 0x100_0000
    &&& typed_value_wf(v.ids)
    &&& typed_values_wf(v.alleles)
    &&& typed_value_wf(v.filters)
    &&& pairs_wf(v.info)
    &&& site_bytes(v).len() <= 0xffff_ffff
    &&& v.genotypes.len() <= 0xffff_ffff
}

/// Why a record cannot be written.
#[derive(Clone, Copy, Debug, PartialEq, Eq, Structural)]
pub enum RecordError {
    /// A count does not fit its packed field.
    CountOverflow,
    /// A typed value holds too many elements for its count integer.
    InvalidTypedValue,
    /// The site data or the genotype block is longer than a length field.
    RecordTooLarge,
    /// The input ends at or before the record's first byte: there is no
    /// record to read.
    EndOfInput,
    /// The input ends inside a record.
    UnexpectedEnd,
    /// The input holds a malformed typed value.
    MalformedTypedValue,
}

/// Appends the encodings of a run of typed values.
#[verifier::loop_isolation(false)]
fn write_typed_values(buf: &mut Vec<u8>, xs: &Vec<TypedValue>) -> (result: Result<
    (),
    RecordError,
>)
    requires
        typed_values_wf(views_of_typed(xs@)),
    ensures
        result is Ok,
        final(buf)@ == old(buf)@ + typed_values_bytes(views_of_typed(xs@)),
{
    let mut i: usize = 0;
    proof {
        assert(buf@ =~= old(buf)@ + typed_values_bytes(views_of_typed(xs@).take(0)));
    }
    while i < xs.len()
        invariant
            i <= xs@.len(),
            buf@ == old(buf)@ + typed_values_bytes(views_of_typed(xs@).take(i as int)),
        decreases xs@.len() - i,
    {
        proof {
            assert(views_of_typed(xs@)[i as int] == xs@[i as int]@);
        }
        match write_typed_value(buf, &xs[i]) {
            Ok(()) => {},
            Err(_) => {
                proof {
                    assert(false);
                }
                return Err(RecordError::InvalidTypedValue);
            },
        }
        proof {
            let vs = views_of_typed(xs@);
            assert(vs.take(i + 1).drop_last() =~= vs.take(i as int));
            assert(vs.take(i + 1).last() == vs[i as int]);
            assert(buf@ =~= old(buf)@ + typed_values_bytes(vs.take(i + 1)));
        }
        i = i + 1;
    }
    proof {
        assert(views_of_typed(xs@).take(xs@.len() as int) =~= views_of_typed(xs@));
    }
    Ok(())
}

/// Appends the encodings of a run of key-value pairs.
#[verifier::loop_isolation(false)]
fn write_pairs(buf: &mut Vec<u8>, xs: &Vec<(TypedValue, TypedValue)>) -> (result: Result<
    (),
    RecordError,
>)
    requires
        pairs_wf(views_of_pairs(xs@)),
    ensures
        result is Ok,
        final(buf)@ == old(buf)@ + pairs_bytes(views_of_pairs(xs@)),
{
    let mut i: usize = 0;
    proof {
        assert(buf@ =~= old(buf)@ + pairs_bytes(views_of_pairs(xs@).take(0)));
    }
    while i < xs.len()
        invariant
            i <= xs@.len(),
            buf@ == old(buf)@ + pairs_bytes(views_of_pairs(xs@).take(i as int)),
        decreases xs@.len() - i,
    {
        proof {
            assert(views_of_pairs(xs@)[i as int] == (xs@[i as int].0@, xs@[i as int].1@));
            assert(typed_value_wf(views_of_pairs(xs@)[i as int].0));
            assert(typed_value_wf(views_of_pairs(xs@)[i as int].1));
        }
        match write_typed_value(buf, &xs[i].0) {
            Ok(()) => {},
            Err(_) => {
                proof {
                    assert(false);
                }
                return Err(RecordError::InvalidTypedValue);
            },
        }
        match write_typed_value(buf, &xs[i].1) {
            Ok(()) => {},
            Err(_) => {
                proof {
                    assert(false);
                }
                return Err(RecordError::InvalidTypedValue);
            },
        }
        proof {
            let vs = views_of_pairs(xs@);
            assert(vs.take(i + 1).drop_last() =~= vs.take(i as int));
            assert(vs.take(i + 1).last() == vs[i as int]);
            assert(buf@ =~= old(buf)@ + pairs_bytes(vs.take(i + 1)));
        }
        i = i + 1;
    }
    proof {
        assert(views_of_pairs(xs@).take(xs@.len() as int) =~= views_of_pairs(xs@));
    }
    Ok(())
}

/// Whether every typed value held by a record is well formed, checked before
/// writing.
fn check_typed_values(record: &Record) -> (ok: bool)
    ensures
        ok <==> (typed_value_wf(record.ids@) && typed_values_wf(views_of_typed(record.alleles@))
            && typed_value_wf(record.filters@) && pairs_wf(views_of_pairs(record.info@))),
{
    if !typed_value_ok(&record.ids) {
        return false;
    }
    if !typed_value_ok(&record.filters) {
        return false;
    }
    let mut i: usize = 0;
    while i < record.alleles.len()
        invariant
            i <= record.alleles@.len(),
            forall|j: int| 0 <= j < i ==> typed_value_wf(#[trigger] views_of_typed(
                record.alleles@,
            )[j]),
            typed_value_wf(record.ids@),
            typed_value_wf(record.filters@),
        decreases record.alleles@.len() - i,
    {
        if !typed_value_ok(&record.alleles[i]) {
            proof {
                assert(views_of_typed(record.alleles@)[i as int] == record.alleles@[i as int]@);
            }
            return false;
        }
        proof {
            assert(views_of_typed(record.alleles@)[i as int] == record.alleles@[i as int]@);
        }
        i = i + 1;
    }
    let mut i: usize = 0;
    while i < record.info.len()
        invariant
            i <= record.info@.len(),
            forall|j: int| 0 <= j < i ==> (typed_value_wf(
                (#[trigger] views_of_pairs(record.info@)[j]).0,
            ) && typed_value_wf(views_of_pairs(record.info@)[j].1)),
            typed_value_wf(record.ids@),
            typed_value_wf(record.filters@),
            typed_values_wf(views_of_typed(record.alleles@)),
        decreases record.info@.len() - i,
    {
        proof {
            assert(views_of_pairs(record.info@)[i as int] == (
                record.info@[i as int].0@,
                record.info@[i as int].1@,
            ));
            assert(views_of_pairs(record.info@)[i as int].0 == record.info@[i as int].0@);
            assert(views_of_pairs(record.info@)[i as int].1 == record.info@[i as int].1@);
        }
        if !typed_value_ok(&record.info[i].0) {
            return false;
        }
        if !typed_value_ok(&record.info[i].1) {
            return false;
        }
        i = i + 1;
    }
    true
}

/// Whether one typed value is well formed.
fn typed_value_ok(value: &TypedValue) -> (ok: bool)
    ensures
        ok <==> typed_value_wf(value@),
{
    match value {
        TypedValue::Missing => true,
        TypedValue::Int8(xs) => xs.len() < 0x8000_0000,
        TypedValue::Int16(xs) => xs.len() < 0x8000_0000,
        TypedValue::Int32(xs) => xs.len() < 0x8000_0000,
        TypedValue::Float(xs) => xs.len() < 0x8000_0000,
        TypedValue::Text(xs) => xs.len() < 0x8000_0000,
    }
}

/// Appends the encoding of a record: the site length, the genotype length,
/// the site data, and the raw genotype block. A record whose counts or typed
/// values do not fit the layout is refused with the buffer unchanged.
pub fn write_record(buf: &mut Vec<u8>, record: &Record) -> (result: Result<(), RecordError>)
    ensures
        result is Ok <==> record_view_wf(record@),
        result is Ok ==> final(buf)@ == old(buf)@ + record_bytes(record@),
        result is Err ==> final(buf)@ == old(buf)@,
{
    if record.alleles.len() >= 0x1_0000 || record.info.len() >= 0x1_0000 || record.n_sample
        >= 0x100_0000 {
        return Err(RecordError::CountOverflow);
    }
    if !check_typed_values(record) {
        return Err(RecordError::InvalidTypedValue);
    }
    let mut site: Vec<u8> = Vec::new();
    put_i32_le(&mut site, record.chrom_id);
    put_i32_le(&mut site, record.pos);
    put_i32_le(&mut site, record.rlen);
    put_u32_le(&mut site, record.qual_bits);
    put_u32_le(&mut site, (record.alleles.len() as u32) * 0x1_0000 + record.info.len() as u32);
    put_u32_le(&mut site, (record.n_fmt as u32) * 0x100_0000 + record.n_sample);
    match write_typed_value(&mut site, &record.ids) {
        Ok(()) => {},
        Err(_) => {
            proof {
                assert(false);
            }
            return Err(RecordError::InvalidTypedValue);
        },
    }
    match write_typed_values(&mut site, &record.alleles) {
        Ok(()) => {},
        Err(_) => {
            proof {
                assert(false);
            }
            return Err(RecordError::InvalidTypedValue);
        },
    }
    match write_typed_value(&mut site, &record.filters) {
        Ok(()) => {},
        Err(_) => {
            proof {
                assert(false);
            }
            return Err(RecordError::InvalidTypedValue);
        },
    }
    match write_pairs(&mut site, &record.info) {
        Ok(()) => {},
        Err(_) => {
            proof {
                assert(false);
            }
            return Err(RecordError::InvalidTypedValue);
        },
    }
    proof {
        assert(site@ =~= site_bytes(record@));
    }
    if site.len() > 0xffff_ffffusize || record.genotypes.len() > 0xffff_ffffusize {
        return Err(RecordError::RecordTooLarge);
    }
    put_u32_le(buf, site.len() as u32);
    put_u32_le(buf, record.genotypes.len() as u32);
    put_bytes(buf, &site);
    put_bytes(buf, &record.genotypes);
    proof {
        assert(final(buf)@ =~= old(buf)@ + record_bytes(record@));
    }
    Ok(())
}


/// The typed values at `off`, `n` of them, with the offset just past them.
pub open spec fn decode_typed_values(s: Seq<u8>, off: int, n: int) -> Option<
    (Seq<TypedValueView>, int),
>
    decreases n,
{
    if n <= 0 {
        Some((Seq::empty(), off))
    } else {
        match decode_typed_value(s, off) {
            None => None,
            Some((v, o2)) => match decode_typed_values(s, o2, n - 1) {
                None => None,
                Some((rest, o3)) => Some((seq![v] + rest, o3)),
            },
        }
    }
}

/// The key-value pairs at `off`, `n` of them, with the offset just past them.
pub open spec fn decode_pairs(s: Seq<u8>, off: int, n: int) -> Option<
    (Seq<(TypedValueView, TypedValueView)>, int),
>
    decreases n,
{
    if n <= 0 {
        Some((Seq::empty(), off))
    } else {
        match decode_typed_value(s, off) {
            None => None,
            Some((k, o2)) => match decode_typed_value(s, o2) {
                None => None,
                Some((v, o3)) => match decode_pairs(s, o3, n - 1) {
                    None => None,
                    Some((rest, o4)) => Some((seq![(k, v)] + rest, o4)),
                },
            },
        }
    }
}

/// The record at `off`, with the offset just past it: the inverse of the byte
/// layout, or nothing when the bytes do not knit together.
pub open spec fn decode_record(s: Seq<u8>, off: int) -> Option<(RecordView, int)> {
    if off < 0 || off + 8 > s.len() {
        None
    } else {
        let l_shared = le32_value(s, off);
        let l_indiv = le32_value(s, off + 4);
        let site_end = off + 8 + l_shared;
        let total_end = site_end + l_indiv;
        if total_end > s.len() || l_shared < 24 {
            None
        } else {
            let counts = le32_value(s, off + 24);
            let fmt_word = le32_value(s, off + 28);
            match decode_typed_value(s, off + 32) {
                None => None,
                Some((ids, o1)) => match decode_typed_values(s, o1, counts / 0x1_0000) {
                    None => None,
                    Some((alleles, o2)) => match decode_typed_value(s, o2) {
                        None => None,
                        Some((filters, o3)) => match decode_pairs(s, o3, counts % 0x1_0000) {
                            None => None,
                            Some((info, o4)) => if o4 == site_end {
                                Some(
                                    (
                                        RecordView {
                                            chrom_id: crate::bam::codec::le32_signed(
                                                s,
                                                off + 8,
                                            ) as i32,
                                            pos: crate::bam::codec::le32_signed(s, off + 12) as i32,
                                            rlen: crate::bam::codec::le32_signed(
                                                s,
                                                off + 16,
                                            ) as i32,
                                            qual_bits: le32_value(s, off + 20) as u32,
                                            n_sample: (fmt_word % 0x100_0000) as u32,
                                            n_fmt: (fmt_word / 0x100_0000) as u8,
                                            ids,
                                            alleles,
                                            filters,
                                            info,
                                            genotypes: s.subrange(site_end, total_end),
                                        },
                                        total_end,
                                    ),
                                )
                            } else {
                                None
                            },
                        },
                    },
                },
            }
        }
    }
}

/// A run's encoding unfolds at the front: the first value's bytes, then the
/// rest's.
proof fn lemma_typed_values_bytes_front(xs: Seq<TypedValueView>)
    requires
        xs.len() > 0,
    ensures
        typed_values_bytes(xs) == typed_value_bytes(xs[0]) + typed_values_bytes(xs.drop_first()),
    decreases xs.len(),
{
    if xs.len() == 1 {
        assert(xs.drop_last() =~= Seq::<TypedValueView>::empty());
        assert(xs.drop_first() =~= Seq::<TypedValueView>::empty());
        assert(typed_values_bytes(xs) =~= typed_value_bytes(xs[0]) + typed_values_bytes(
            xs.drop_first(),
        ));
    } else {
        lemma_typed_values_bytes_front(xs.drop_last());
        assert(xs.drop_last()[0] == xs[0]);
        assert(xs.drop_last().drop_first() =~= xs.drop_first().drop_last());
        assert(xs.drop_first().last() == xs.last());
        assert(typed_values_bytes(xs) =~= typed_value_bytes(xs[0]) + typed_values_bytes(
            xs.drop_first(),
        ));
    }
}

/// A pair run's encoding unfolds at the front.
proof fn lemma_pairs_bytes_front(xs: Seq<(TypedValueView, TypedValueView)>)
    requires
        xs.len() > 0,
    ensures
        pairs_bytes(xs) == typed_value_bytes(xs[0].0) + typed_value_bytes(xs[0].1) + pairs_bytes(
            xs.drop_first(),
        ),
    decreases xs.len(),
{
    if xs.len() == 1 {
        assert(xs.drop_last() =~= Seq::<(TypedValueView, TypedValueView)>::empty());
        assert(xs.drop_first() =~= Seq::<(TypedValueView, TypedValueView)>::empty());
        assert(pairs_bytes(xs) =~= typed_value_bytes(xs[0].0) + typed_value_bytes(xs[0].1)
            + pairs_bytes(xs.drop_first()));
    } else {
        lemma_pairs_bytes_front(xs.drop_last());
        assert(xs.drop_last()[0] == xs[0]);
        assert(xs.drop_last().drop_first() =~= xs.drop_first().drop_last());
        assert(xs.drop_first().last() == xs.last());
        assert(pairs_bytes(xs) =~= typed_value_bytes(xs[0].0) + typed_value_bytes(xs[0].1)
            + pairs_bytes(xs.drop_first()));
    }
}

/// Wherever a run of typed values sits in a byte run, decoding its count of
/// values at its first byte gives the run back.
proof fn lemma_typed_values_round_trip(s: Seq<u8>, off: int, xs: Seq<TypedValueView>)
    requires
        typed_values_wf(xs),
        0 <= off,
        off + typed_values_bytes(xs).len() <= s.len(),
        s.subrange(off, off + typed_values_bytes(xs).len() as int) == typed_values_bytes(xs),
    ensures
        decode_typed_values(s, off, xs.len() as int) == Some(
            (xs, off + typed_values_bytes(xs).len() as int),
        ),
    decreases xs.len(),
{
    if xs.len() == 0 {
        assert(xs =~= Seq::<TypedValueView>::empty());
    } else {
        lemma_typed_values_bytes_front(xs);
        let b = typed_values_bytes(xs);
        let first = typed_value_bytes(xs[0]);
        crate::bcf::typed::lemma_subrange_chain(s, off, b, 0, first.len() as int);
        assert(b.subrange(0, first.len() as int) =~= first);
        assert(typed_value_wf(xs[0]));
        lemma_typed_value_round_trip(s, off, xs[0]);
        let o2 = off + first.len() as int;
        let rest = typed_values_bytes(xs.drop_first());
        crate::bcf::typed::lemma_subrange_chain(s, off, b, first.len() as int, b.len() as int);
        assert(b.subrange(first.len() as int, b.len() as int) =~= rest);
        assert(typed_values_wf(xs.drop_first())) by {
            assert forall|i: int| 0 <= i < xs.drop_first().len() implies typed_value_wf(
                #[trigger] xs.drop_first()[i],
            ) by {
                assert(xs.drop_first()[i] == xs[i + 1]);
            }
        }
        lemma_typed_values_round_trip(s, o2, xs.drop_first());
        assert(seq![xs[0]] + xs.drop_first() =~= xs);
    }
}

/// Wherever a run of key-value pairs sits in a byte run, decoding its count of
/// pairs at its first byte gives the run back.
proof fn lemma_pairs_round_trip(s: Seq<u8>, off: int, xs: Seq<(TypedValueView, TypedValueView)>)
    requires
        pairs_wf(xs),
        0 <= off,
        off + pairs_bytes(xs).len() <= s.len(),
        s.subrange(off, off + pairs_bytes(xs).len() as int) == pairs_bytes(xs),
    ensures
        decode_pairs(s, off, xs.len() as int) == Some((xs, off + pairs_bytes(xs).len() as int)),
    decreases xs.len(),
{
    if xs.len() == 0 {
        assert(xs =~= Seq::<(TypedValueView, TypedValueView)>::empty());
    } else {
        lemma_pairs_bytes_front(xs);
        let b = pairs_bytes(xs);
        let kb = typed_value_bytes(xs[0].0);
        let vb = typed_value_bytes(xs[0].1);
        crate::bcf::typed::lemma_subrange_chain(s, off, b, 0, kb.len() as int);
        assert(b.subrange(0, kb.len() as int) =~= kb);
        assert(typed_value_wf(xs[0].0) && typed_value_wf(xs[0].1));
        lemma_typed_value_round_trip(s, off, xs[0].0);
        let o2 = off + kb.len() as int;
        crate::bcf::typed::lemma_subrange_chain(s, off, b, kb.len() as int, (kb.len()
            + vb.len()) as int);
        assert(b.subrange(kb.len() as int, (kb.len() + vb.len()) as int) =~= vb);
        lemma_typed_value_round_trip(s, o2, xs[0].1);
        let o3 = o2 + vb.len() as int;
        let rest = pairs_bytes(xs.drop_first());
        crate::bcf::typed::lemma_subrange_chain(s, off, b, (kb.len() + vb.len()) as int, b.len() as int);
        assert(b.subrange((kb.len() + vb.len()) as int, b.len() as int) =~= rest);
        assert(pairs_wf(xs.drop_first())) by {
            assert forall|i: int| 0 <= i < xs.drop_first().len() implies (typed_value_wf(
                (#[trigger] xs.drop_first()[i]).0,
            ) && typed_value_wf(xs.drop_first()[i].1)) by {
                assert(xs.drop_first()[i] == xs[i + 1]);
            }
        }
        lemma_pairs_round_trip(s, o3, xs.drop_first());
        assert(seq![xs[0]] + xs.drop_first() =~= xs);
    }
}

/// The site data's subranges, piece by piece.
proof fn lemma_site_layout(v: RecordView)
    ensures
        ({
            let site = site_bytes(v);
            let p0 = 24int;
            let p1 = p0 + typed_value_bytes(v.ids).len() as int;
            let p2 = p1 + typed_values_bytes(v.alleles).len() as int;
            let p3 = p2 + typed_value_bytes(v.filters).len() as int;
            let p4 = p3 + pairs_bytes(v.info).len() as int;
            &&& site.len() == p4
            &&& site.subrange(0, 24) == site_prefix(v)
            &&& site.subrange(p0, p1) == typed_value_bytes(v.ids)
            &&& site.subrange(p1, p2) == typed_values_bytes(v.alleles)
            &&& site.subrange(p2, p3) == typed_value_bytes(v.filters)
            &&& site.subrange(p3, p4) == pairs_bytes(v.info)
        }),
{
    let site = site_bytes(v);
    let p0 = 24int;
    let p1 = p0 + typed_value_bytes(v.ids).len() as int;
    let p2 = p1 + typed_values_bytes(v.alleles).len() as int;
    let p3 = p2 + typed_value_bytes(v.filters).len() as int;
    let p4 = p3 + pairs_bytes(v.info).len() as int;
    assert(site.subrange(0, 24) =~= site_prefix(v));
    assert(site.subrange(p0, p1) =~= typed_value_bytes(v.ids));
    assert(site.subrange(p1, p2) =~= typed_values_bytes(v.alleles));
    assert(site.subrange(p2, p3) =~= typed_value_bytes(v.filters));
    assert(site.subrange(p3, p4) =~= pairs_bytes(v.info));
}

/// The fixed site prefix's subranges, field by field.
proof fn lemma_site_prefix_layout(v: RecordView)
    ensures
        ({
            let p = site_prefix(v);
            &&& p.len() == 24
            &&& p.subrange(0, 4) == i32_le_bytes(v.chrom_id)
            &&& p.subrange(4, 8) == i32_le_bytes(v.pos)
            &&& p.subrange(8, 12) == i32_le_bytes(v.rlen)
            &&& p.subrange(12, 16) == u32_le_bytes(v.qual_bits)
            &&& p.subrange(16, 20) == u32_le_bytes(
                (v.alleles.len() * 0x1_0000 + v.info.len()) as u32,
            )
            &&& p.subrange(20, 24) == u32_le_bytes((v.n_fmt * 0x100_0000 + v.n_sample) as u32)
        }),
{
    let p = site_prefix(v);
    assert(p.subrange(0, 4) =~= i32_le_bytes(v.chrom_id));
    assert(p.subrange(4, 8) =~= i32_le_bytes(v.pos));
    assert(p.subrange(8, 12) =~= i32_le_bytes(v.rlen));
    assert(p.subrange(12, 16) =~= u32_le_bytes(v.qual_bits));
    assert(p.subrange(16, 20) =~= u32_le_bytes((v.alleles.len() * 0x1_0000 + v.info.len()) as u32));
    assert(p.subrange(20, 24) =~= u32_le_bytes((v.n_fmt * 0x100_0000 + v.n_sample) as u32));
}

/// A 32-bit field of the site prefix, read through the whole record: the
/// word at `k` of the prefix equals the bytes written there.
proof fn lemma_site_word(s: Seq<u8>, v: RecordView, k: int, w: Seq<u8>)
    requires
        s.subrange(8, 8 + site_bytes(v).len() as int) == site_bytes(v),
        8 + site_bytes(v).len() <= s.len(),
        site_bytes(v).len() >= 24,
        0 <= k <= 20,
        k % 4 == 0,
        site_prefix(v).len() == 24,
        site_prefix(v).subrange(k, k + 4) == w,
        site_bytes(v).subrange(0, 24) == site_prefix(v),
        w.len() == 4,
    ensures
        le32_value(s, 8 + k) == le32_value(w, 0),
{
    crate::bcf::typed::lemma_subrange_chain(s, 8, site_bytes(v), 0, 24);
    crate::bcf::typed::lemma_subrange_chain(s, 8, site_prefix(v), k, k + 4);
    lemma_le32_subrange(s, 8 + k);
}

/// LAW OF THE RECORD ROUND TRIP. Decoding the encoding of any writable record
/// gives the record back, and consumes exactly its bytes.
#[verifier::rlimit(100)]
pub proof fn lemma_record_round_trip(v: RecordView)
    requires
        record_view_wf(v),
    ensures
        decode_record(record_bytes(v), 0) == Some((v, record_bytes(v).len() as int)),
{
    let s = record_bytes(v);
    let site = site_bytes(v);
    let ls = site.len() as int;
    let li = v.genotypes.len() as int;
    lemma_site_layout(v);
    lemma_site_prefix_layout(v);
    assert(s.len() == 8 + ls + li);
    // the two length fields
    assert(s.subrange(0, 4) =~= u32_le_bytes(ls as u32));
    assert(s.subrange(4, 8) =~= u32_le_bytes(li as u32));
    lemma_le32_subrange(s, 0);
    lemma_le32_subrange(s, 4);
    lemma_le32_of_u32(ls as u32);
    lemma_le32_of_u32(li as u32);
    assert(le32_value(s, 0) == ls);
    assert(le32_value(s, 4) == li);
    // the site bytes sit at offset 8
    assert(s.subrange(8, 8 + ls) =~= site);
    // the fixed site prefix, word by word
    let counts_word = (v.alleles.len() * 0x1_0000 + v.info.len()) as u32;
    let fmt_word = (v.n_fmt * 0x100_0000 + v.n_sample) as u32;
    lemma_site_word(s, v, 0, i32_le_bytes(v.chrom_id));
    lemma_site_word(s, v, 4, i32_le_bytes(v.pos));
    lemma_site_word(s, v, 8, i32_le_bytes(v.rlen));
    lemma_site_word(s, v, 12, u32_le_bytes(v.qual_bits));
    lemma_site_word(s, v, 16, u32_le_bytes(counts_word));
    lemma_site_word(s, v, 20, u32_le_bytes(fmt_word));
    lemma_le32_of_i32(v.chrom_id);
    lemma_le32_of_i32(v.pos);
    lemma_le32_of_i32(v.rlen);
    lemma_le32_of_u32(v.qual_bits);
    lemma_le32_of_u32(counts_word);
    lemma_le32_of_u32(fmt_word);
    assert(le32_value(s, 24) == counts_word);
    assert(le32_value(s, 28) == fmt_word);
    // the packed counts come apart
    let na = v.alleles.len() as int;
    let ni = v.info.len() as int;
    assert(counts_word == na * 0x1_0000 + ni);
    assert(counts_word as int / 0x1_0000 == na && counts_word as int % 0x1_0000 == ni)
        by (nonlinear_arith)
        requires
            counts_word == na * 0x1_0000 + ni && 0 <= na < 0x1_0000 && 0 <= ni < 0x1_0000,
    ;
    let nf = v.n_fmt as int;
    let ns = v.n_sample as int;
    assert(fmt_word == nf * 0x100_0000 + ns);
    assert(fmt_word as int / 0x100_0000 == nf && fmt_word as int % 0x100_0000 == ns)
        by (nonlinear_arith)
        requires
            fmt_word == nf * 0x100_0000 + ns && 0 <= nf < 0x100 && 0 <= ns < 0x100_0000,
    ;
    // the typed fields, in layout order
    let p0 = 24int;
    let p1 = p0 + typed_value_bytes(v.ids).len() as int;
    let p2 = p1 + typed_values_bytes(v.alleles).len() as int;
    let p3 = p2 + typed_value_bytes(v.filters).len() as int;
    let p4 = p3 + pairs_bytes(v.info).len() as int;
    crate::bcf::typed::lemma_subrange_chain(s, 8, site, p0, p1);
    crate::bcf::typed::lemma_subrange_chain(s, 8, site, p1, p2);
    crate::bcf::typed::lemma_subrange_chain(s, 8, site, p2, p3);
    crate::bcf::typed::lemma_subrange_chain(s, 8, site, p3, p4);
    lemma_typed_value_round_trip(s, 8 + p0, v.ids);
    lemma_typed_values_round_trip(s, 8 + p1, v.alleles);
    lemma_typed_value_round_trip(s, 8 + p2, v.filters);
    lemma_pairs_round_trip(s, 8 + p3, v.info);
    // the genotype block
    assert(s.subrange(8 + ls, 8 + ls + li) =~= v.genotypes);
    let decoded = (decode_record(s, 0)->0).0;
    assert(decoded.ids == v.ids && decoded.alleles == v.alleles && decoded.filters == v.filters
        && decoded.info == v.info && decoded.genotypes == v.genotypes);
    assert(decoded == v);
}


/// Reads `n` typed values starting at `off`.
#[verifier::loop_isolation(false)]
fn read_typed_values(src: &[u8], off: usize, n: usize) -> (r: Result<
    (Vec<TypedValue>, usize),
    RecordError,
>)
    requires
        off <= src@.len(),
    ensures
        r is Ok ==> ({
            let (values, end) = r->Ok_0;
            decode_typed_values(src@, off as int, n as int) == Some(
                (views_of_typed(values@), end as int),
            ) && end <= src@.len()
        }),
        r is Err ==> decode_typed_values(src@, off as int, n as int) is None,
{
    let mut values: Vec<TypedValue> = Vec::new();
    let mut cur: usize = off;
    let mut i: usize = 0;
    proof {
        assert(views_of_typed(values@) =~= Seq::<TypedValueView>::empty());
    }
    while i < n
        invariant
            i <= n,
            cur <= src@.len(),
            views_of_typed(values@).len() == i,
            ({
                match decode_typed_values(src@, cur as int, n - i) {
                    None => decode_typed_values(src@, off as int, n as int) is None,
                    Some((rest, e)) => decode_typed_values(src@, off as int, n as int) == Some(
                        (views_of_typed(values@) + rest, e),
                    ),
                }
            }),
        decreases n - i,
    {
        let ghost pre_views = views_of_typed(values@);
        let (value, end) = match crate::bcf::typed::read_typed_value(src, cur) {
            Ok(t) => t,
            Err(_) => {
                return Err(RecordError::MalformedTypedValue);
            },
        };
        values.push(value);
        proof {
            assert(views_of_typed(values@) =~= pre_views.push(value@));
            if decode_typed_values(src@, end as int, n - i - 1) is Some {
                let (rest2, e2) = decode_typed_values(src@, end as int, n - i - 1)->0;
                assert(decode_typed_values(src@, cur as int, n - i) == Some(
                    (seq![value@] + rest2, e2),
                ));
                assert(pre_views + (seq![value@] + rest2) =~= views_of_typed(values@) + rest2);
            }
        }
        cur = end;
        i = i + 1;
    }
    proof {
        assert(decode_typed_values(src@, cur as int, 0) == Some(
            (Seq::<TypedValueView>::empty(), cur as int),
        ));
        assert(views_of_typed(values@) + Seq::<TypedValueView>::empty() =~= views_of_typed(
            values@,
        ));
    }
    Ok((values, cur))
}

/// Reads `n` key-value pairs starting at `off`.
#[verifier::loop_isolation(false)]
fn read_pairs(src: &[u8], off: usize, n: usize) -> (r: Result<
    (Vec<(TypedValue, TypedValue)>, usize),
    RecordError,
>)
    requires
        off <= src@.len(),
    ensures
        r is Ok ==> ({
            let (pairs, end) = r->Ok_0;
            decode_pairs(src@, off as int, n as int) == Some(
                (views_of_pairs(pairs@), end as int),
            ) && end <= src@.len()
        }),
        r is Err ==> decode_pairs(src@, off as int, n as int) is None,
{
    let mut pairs: Vec<(TypedValue, TypedValue)> = Vec::new();
    let mut cur: usize = off;
    let mut i: usize = 0;
    proof {
        assert(views_of_pairs(pairs@) =~= Seq::<(TypedValueView, TypedValueView)>::empty());
    }
    while i < n
        invariant
            i <= n,
            cur <= src@.len(),
            views_of_pairs(pairs@).len() == i,
            ({
                match decode_pairs(src@, cur as int, n - i) {
                    None => decode_pairs(src@, off as int, n as int) is None,
                    Some((rest, e)) => decode_pairs(src@, off as int, n as int) == Some(
                        (views_of_pairs(pairs@) + rest, e),
                    ),
                }
            }),
        decreases n - i,
    {
        let ghost pre_views = views_of_pairs(pairs@);
        let (key, kend) = match crate::bcf::typed::read_typed_value(src, cur) {
            Ok(t) => t,
            Err(_) => {
                return Err(RecordError::MalformedTypedValue);
            },
        };
        let (value, vend) = match crate::bcf::typed::read_typed_value(src, kend) {
            Ok(t) => t,
            Err(_) => {
                return Err(RecordError::MalformedTypedValue);
            },
        };
        pairs.push((key, value));
        proof {
            assert(views_of_pairs(pairs@) =~= pre_views.push((key@, value@)));
            if decode_pairs(src@, vend as int, n - i - 1) is Some {
                let (rest2, e2) = decode_pairs(src@, vend as int, n - i - 1)->0;
                assert(decode_pairs(src@, cur as int, n - i) == Some(
                    (seq![(key@, value@)] + rest2, e2),
                ));
                assert(pre_views + (seq![(key@, value@)] + rest2) =~= views_of_pairs(pairs@)
                    + rest2);
            }
        }
        cur = vend;
        i = i + 1;
    }
    proof {
        assert(decode_pairs(src@, cur as int, 0) == Some(
            (Seq::<(TypedValueView, TypedValueView)>::empty(), cur as int),
        ));
        assert(views_of_pairs(pairs@) + Seq::<(TypedValueView, TypedValueView)>::empty()
            =~= views_of_pairs(pairs@));
    }
    Ok((pairs, cur))
}

/// Reads the record at `off`: its lengths, site fields, typed fields and raw
/// genotype block, with the offset just past it.
#[verifier::loop_isolation(false)]
pub fn read_record(src: &[u8], off: usize) -> (r: Result<(Record, usize), RecordError>)
    ensures
        r is Ok ==> decode_record(src@, off as int) == Some(
            ((r->Ok_0).0@, (r->Ok_0).1 as int),
        ),
        r is Err ==> decode_record(src@, off as int) is None,
        r is Err ==> (r->Err_0 == RecordError::EndOfInput <==> off >= src@.len()),
{
    if off >= src.len() {
        return Err(RecordError::EndOfInput);
    }
    if (off as u128) + 8 > src.len() as u128 {
        return Err(RecordError::UnexpectedEnd);
    }
    let l_shared = crate::binary::get_u32_le(src, off);
    let l_indiv = crate::binary::get_u32_le(src, off + 4);
    proof {
        lemma_le32_subrange(src@, off as int);
        lemma_le32_subrange(src@, off as int + 4);
        lemma_le32_of_u32(l_shared);
        lemma_le32_of_u32(l_indiv);
    }
    let site_end_wide: u128 = off as u128 + 8 + l_shared as u128;
    let total_end_wide: u128 = site_end_wide + l_indiv as u128;
    if total_end_wide > src.len() as u128 || l_shared < 24 {
        return Err(RecordError::UnexpectedEnd);
    }
    let site_end: usize = off + 8 + l_shared as usize;
    let total_end: usize = site_end + l_indiv as usize;
    let chrom_id = crate::binary::get_i32_le(src, off + 8);
    let pos = crate::binary::get_i32_le(src, off + 12);
    let rlen = crate::binary::get_i32_le(src, off + 16);
    let qual_bits = crate::binary::get_u32_le(src, off + 20);
    let counts = crate::binary::get_u32_le(src, off + 24);
    let fmt_word = crate::binary::get_u32_le(src, off + 28);
    proof {
        lemma_le32_subrange(src@, off as int + 8);
        lemma_le32_subrange(src@, off as int + 12);
        lemma_le32_subrange(src@, off as int + 16);
        lemma_le32_subrange(src@, off as int + 20);
        lemma_le32_subrange(src@, off as int + 24);
        lemma_le32_subrange(src@, off as int + 28);
        lemma_i32_read_back(src@, off as int + 8, chrom_id);
        lemma_i32_read_back(src@, off as int + 12, pos);
        lemma_i32_read_back(src@, off as int + 16, rlen);
        lemma_le32_of_u32(qual_bits);
        lemma_le32_of_u32(counts);
        lemma_le32_of_u32(fmt_word);
    }
    let n_allele = counts / 0x1_0000;
    let n_info = counts % 0x1_0000;
    let n_sample = fmt_word % 0x100_0000;
    let n_fmt = (fmt_word / 0x100_0000) as u8;
    let (ids, o1) = match crate::bcf::typed::read_typed_value(src, off + 32) {
        Ok(t) => t,
        Err(_) => {
            return Err(RecordError::MalformedTypedValue);
        },
    };
    let (alleles, o2) = match read_typed_values(src, o1, n_allele as usize) {
        Ok(t) => t,
        Err(_) => {
            return Err(RecordError::MalformedTypedValue);
        },
    };
    let (filters, o3) = match crate::bcf::typed::read_typed_value(src, o2) {
        Ok(t) => t,
        Err(_) => {
            return Err(RecordError::MalformedTypedValue);
        },
    };
    let (info, o4) = match read_pairs(src, o3, n_info as usize) {
        Ok(t) => t,
        Err(_) => {
            return Err(RecordError::MalformedTypedValue);
        },
    };
    if o4 != site_end {
        return Err(RecordError::MalformedTypedValue);
    }
    let mut genotypes: Vec<u8> = Vec::new();
    let ghost gen = src@.subrange(site_end as int, total_end as int);
    let mut g: usize = site_end;
    proof {
        assert(genotypes@ =~= gen.take(0));
    }
    while g < total_end
        invariant
            site_end <= g <= total_end,
            genotypes@ == gen.take(g - site_end),
        decreases total_end - g,
    {
        genotypes.push(src[g]);
        proof {
            assert(gen.take(g + 1 - site_end) =~= gen.take(g - site_end).push(
                gen[g - site_end],
            ));
        }
        g = g + 1;
    }
    proof {
        assert(gen.take(total_end - site_end) =~= gen);
    }
    let record = Record {
        chrom_id,
        pos,
        rlen,
        qual_bits,
        n_sample,
        n_fmt,
        ids,
        alleles,
        filters,
        info,
        genotypes,
    };
    proof {
        assert(decode_record(src@, off as int) == Some((record@, total_end as int)));
    }
    Ok((record, total_end))
}

/// An `i32` read from four little-endian bytes is the value those bytes
/// store, through two's complement.
proof fn lemma_i32_read_back(s: Seq<u8>, off: int, n: i32)
    requires
        0 <= off,
        off + 4 <= s.len(),
        crate::binary::i32_le_bytes(n) == s.subrange(off, off + 4),
    ensures
        crate::bam::codec::le32_signed(s, off) == n,
{
    lemma_le32_subrange(s, off);
    lemma_le32_of_i32(n);
}

} // verus!
