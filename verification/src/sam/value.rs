//! Typed auxiliary-field values of a textual alignment record.

use vstd::prelude::*;

use crate::text::int_bytes;

verus! {

/// A typed auxiliary-field value.
///
/// Single-precision values carry their decimal text, rendered by the caller:
/// the verified writer emits the text unchanged.
#[derive(Clone, Debug)]
pub enum Value {
    /// A printable character (`A`).
    Char(u8),
    /// A signed 8-bit integer (`c`).
    Int8(i8),
    /// An unsigned 8-bit integer (`C`).
    UInt8(u8),
    /// A signed 16-bit integer (`s`).
    Int16(i16),
    /// An unsigned 16-bit integer (`S`).
    UInt16(u16),
    /// A signed 32-bit integer (`i`).
    Int32(i32),
    /// An unsigned 32-bit integer (`I`).
    UInt32(u32),
    /// A single-precision value (`f`), as its rendered text.
    Float(Vec<u8>),
    /// A string (`Z`).
    String(Vec<u8>),
    /// A hex string (`H`).
    Hex(Vec<u8>),
    /// An array of signed 8-bit integers (`B:c`).
    Int8Array(Vec<i8>),
    /// An array of unsigned 8-bit integers (`B:C`).
    UInt8Array(Vec<u8>),
    /// An array of signed 16-bit integers (`B:s`).
    Int16Array(Vec<i16>),
    /// An array of unsigned 16-bit integers (`B:S`).
    UInt16Array(Vec<u16>),
    /// An array of signed 32-bit integers (`B:i`).
    Int32Array(Vec<i32>),
    /// An array of unsigned 32-bit integers (`B:I`).
    UInt32Array(Vec<u32>),
    /// An array of single-precision values (`B:f`), each as its rendered text.
    FloatArray(Vec<Vec<u8>>),
}

/// The mathematical values of a sequence of signed 8-bit integers.
pub open spec fn ints_of_i8(s: Seq<i8>) -> Seq<int> {
    Seq::new(s.len(), |j: int| s[j] as int)
}

/// The mathematical values of a sequence of unsigned 8-bit integers.
pub open spec fn ints_of_u8(s: Seq<u8>) -> Seq<int> {
    Seq::new(s.len(), |j: int| s[j] as int)
}

/// The mathematical values of a sequence of signed 16-bit integers.
pub open spec fn ints_of_i16(s: Seq<i16>) -> Seq<int> {
    Seq::new(s.len(), |j: int| s[j] as int)
}

/// The mathematical values of a sequence of unsigned 16-bit integers.
pub open spec fn ints_of_u16(s: Seq<u16>) -> Seq<int> {
    Seq::new(s.len(), |j: int| s[j] as int)
}

/// The mathematical values of a sequence of signed 32-bit integers.
pub open spec fn ints_of_i32(s: Seq<i32>) -> Seq<int> {
    Seq::new(s.len(), |j: int| s[j] as int)
}

/// The mathematical values of a sequence of unsigned 32-bit integers.
pub open spec fn ints_of_u32(s: Seq<u32>) -> Seq<int> {
    Seq::new(s.len(), |j: int| s[j] as int)
}

/// The byte sequences held by a sequence of byte vectors.
pub open spec fn views_of(s: Seq<Vec<u8>>) -> Seq<Seq<u8>> {
    Seq::new(s.len(), |j: int| s[j]@)
}

/// The text of integer array elements: a comma before each.
pub open spec fn int_elems_bytes(elems: Seq<int>) -> Seq<u8>
    decreases elems.len(),
{
    if elems.len() == 0 {
        Seq::empty()
    } else {
        int_elems_bytes(elems.drop_last()) + seq![0x2cu8] + int_bytes(elems.last())
    }
}

/// The text of rendered array elements: a comma before each.
pub open spec fn raw_elems_bytes(elems: Seq<Seq<u8>>) -> Seq<u8>
    decreases elems.len(),
{
    if elems.len() == 0 {
        Seq::empty()
    } else {
        raw_elems_bytes(elems.drop_last()) + seq![0x2cu8] + elems.last()
    }
}

/// The text of a value: the form the textual format writes in an
/// auxiliary-field column.
pub open spec fn value_bytes(value: Value) -> Seq<u8> {
    match value {
        Value::Char(c) => seq![c],
        Value::Int8(n) => int_bytes(n as int),
        Value::UInt8(n) => int_bytes(n as int),
        Value::Int16(n) => int_bytes(n as int),
        Value::UInt16(n) => int_bytes(n as int),
        Value::Int32(n) => int_bytes(n as int),
        Value::UInt32(n) => int_bytes(n as int),
        Value::Float(text) => text@,
        Value::String(s) => s@,
        Value::Hex(s) => s@,
        Value::Int8Array(vs) => seq![0x63u8] + int_elems_bytes(ints_of_i8(vs@)),
        Value::UInt8Array(vs) => seq![0x43u8] + int_elems_bytes(ints_of_u8(vs@)),
        Value::Int16Array(vs) => seq![0x73u8] + int_elems_bytes(ints_of_i16(vs@)),
        Value::UInt16Array(vs) => seq![0x53u8] + int_elems_bytes(ints_of_u16(vs@)),
        Value::Int32Array(vs) => seq![0x69u8] + int_elems_bytes(ints_of_i32(vs@)),
        Value::UInt32Array(vs) => seq![0x49u8] + int_elems_bytes(ints_of_u32(vs@)),
        Value::FloatArray(vs) => seq![0x66u8] + raw_elems_bytes(views_of(vs@)),
    }
}

/// Appends one comma-prefixed integer element.
fn push_int_elem(buf: &mut Vec<u8>, n: i64)
    ensures
        final(buf)@ == old(buf)@ + seq![0x2cu8] + int_bytes(n as int),
{
    buf.push(0x2c);
    crate::text::push_i64_dec(buf, n);
}

/// Appends the text of a value, as the textual format writes it.
pub fn write_value(buf: &mut Vec<u8>, value: &Value)
    ensures
        final(buf)@ == old(buf)@ + value_bytes(*value),
{
    let ghost pre = buf@;
    match value {
        Value::Char(c) => {
            buf.push(*c);
        },
        Value::Int8(n) => {
            crate::text::push_i64_dec(buf, *n as i64);
        },
        Value::UInt8(n) => {
            crate::text::push_i64_dec(buf, *n as i64);
        },
        Value::Int16(n) => {
            crate::text::push_i64_dec(buf, *n as i64);
        },
        Value::UInt16(n) => {
            crate::text::push_i64_dec(buf, *n as i64);
        },
        Value::Int32(n) => {
            crate::text::push_i64_dec(buf, *n as i64);
        },
        Value::UInt32(n) => {
            crate::text::push_i64_dec(buf, *n as i64);
        },
        Value::Float(text) => {
            crate::binary::put_bytes(buf, text);
        },
        Value::String(s) => {
            crate::binary::put_bytes(buf, s);
        },
        Value::Hex(s) => {
            crate::binary::put_bytes(buf, s);
        },
        Value::Int8Array(vs) => {
            buf.push(0x63);
            let mut i: usize = 0;
            proof {
                assert(buf@ =~= pre + seq![0x63u8] + int_elems_bytes(ints_of_i8(vs@.take(0))));
            }
            while i < vs.len()
                invariant
                    i <= vs@.len(),
                    buf@ == pre + seq![0x63u8] + int_elems_bytes(ints_of_i8(vs@.take(i as int))),
                decreases vs@.len() - i,
            {
                push_int_elem(buf, vs[i] as i64);
                proof {
                    lemma_int_elems_step(ints_of_i8(vs@), i as int);
                    assert(ints_of_i8(vs@)[i as int] == vs@[i as int] as int);
                    assert(ints_of_i8(vs@.take(i + 1)) =~= ints_of_i8(vs@).take(i + 1));
                    assert(ints_of_i8(vs@.take(i as int)) =~= ints_of_i8(vs@).take(i as int));
                    assert(buf@ =~= pre + seq![0x63u8] + int_elems_bytes(
                        ints_of_i8(vs@.take(i + 1)),
                    ));
                }
                i = i + 1;
            }
            proof {
                assert(vs@.take(vs@.len() as int) =~= vs@);
            }
        },
        Value::UInt8Array(vs) => {
            buf.push(0x43);
            let mut i: usize = 0;
            proof {
                assert(buf@ =~= pre + seq![0x43u8] + int_elems_bytes(ints_of_u8(vs@.take(0))));
            }
            while i < vs.len()
                invariant
                    i <= vs@.len(),
                    buf@ == pre + seq![0x43u8] + int_elems_bytes(ints_of_u8(vs@.take(i as int))),
                decreases vs@.len() - i,
            {
                push_int_elem(buf, vs[i] as i64);
                proof {
                    lemma_int_elems_step(ints_of_u8(vs@), i as int);
                    assert(ints_of_u8(vs@)[i as int] == vs@[i as int] as int);
                    assert(ints_of_u8(vs@.take(i + 1)) =~= ints_of_u8(vs@).take(i + 1));
                    assert(ints_of_u8(vs@.take(i as int)) =~= ints_of_u8(vs@).take(i as int));
                    assert(buf@ =~= pre + seq![0x43u8] + int_elems_bytes(
                        ints_of_u8(vs@.take(i + 1)),
                    ));
                }
                i = i + 1;
            }
            proof {
                assert(vs@.take(vs@.len() as int) =~= vs@);
            }
        },
        Value::Int16Array(vs) => {
            buf.push(0x73);
            let mut i: usize = 0;
            proof {
                assert(buf@ =~= pre + seq![0x73u8] + int_elems_bytes(ints_of_i16(vs@.take(0))));
            }
            while i < vs.len()
                invariant
                    i <= vs@.len(),
                    buf@ == pre + seq![0x73u8] + int_elems_bytes(ints_of_i16(vs@.take(i as int))),
                decreases vs@.len() - i,
            {
                push_int_elem(buf, vs[i] as i64);
                proof {
                    lemma_int_elems_step(ints_of_i16(vs@), i as int);
                    assert(ints_of_i16(vs@)[i as int] == vs@[i as int] as int);
                    assert(ints_of_i16(vs@.take(i + 1)) =~= ints_of_i16(vs@).take(i + 1));
                    assert(ints_of_i16(vs@.take(i as int)) =~= ints_of_i16(vs@).take(i as int));
                    assert(buf@ =~= pre + seq![0x73u8] + int_elems_bytes(
                        ints_of_i16(vs@.take(i + 1)),
                    ));
                }
                i = i + 1;
            }
            proof {
                assert(vs@.take(vs@.len() as int) =~= vs@);
            }
        },
        Value::UInt16Array(vs) => {
            buf.push(0x53);
            let mut i: usize = 0;
            proof {
                assert(buf@ =~= pre + seq![0x53u8] + int_elems_bytes(ints_of_u16(vs@.take(0))));
            }
            while i < vs.len()
                invariant
                    i <= vs@.len(),
                    buf@ == pre + seq![0x53u8] + int_elems_bytes(ints_of_u16(vs@.take(i as int))),
                decreases vs@.len() - i,
            {
                push_int_elem(buf, vs[i] as i64);
                proof {
                    lemma_int_elems_step(ints_of_u16(vs@), i as int);
                    assert(ints_of_u16(vs@)[i as int] == vs@[i as int] as int);
                    assert(ints_of_u16(vs@.take(i + 1)) =~= ints_of_u16(vs@).take(i + 1));
                    assert(ints_of_u16(vs@.take(i as int)) =~= ints_of_u16(vs@).take(i as int));
                    assert(buf@ =~= pre + seq![0x53u8] + int_elems_bytes(
                        ints_of_u16(vs@.take(i + 1)),
                    ));
                }
                i = i + 1;
            }
            proof {
                assert(vs@.take(vs@.len() as int) =~= vs@);
            }
        },
        Value::Int32Array(vs) => {
            buf.push(0x69);
            let mut i: usize = 0;
            proof {
                assert(buf@ =~= pre + seq![0x69u8] + int_elems_bytes(ints_of_i32(vs@.take(0))));
            }
            while i < vs.len()
                invariant
                    i <= vs@.len(),
                    buf@ == pre + seq![0x69u8] + int_elems_bytes(ints_of_i32(vs@.take(i as int))),
                decreases vs@.len() - i,
            {
                push_int_elem(buf, vs[i] as i64);
                proof {
                    lemma_int_elems_step(ints_of_i32(vs@), i as int);
                    assert(ints_of_i32(vs@)[i as int] == vs@[i as int] as int);
                    assert(ints_of_i32(vs@.take(i + 1)) =~= ints_of_i32(vs@).take(i + 1));
                    assert(ints_of_i32(vs@.take(i as int)) =~= ints_of_i32(vs@).take(i as int));
                    assert(buf@ =~= pre + seq![0x69u8] + int_elems_bytes(
                        ints_of_i32(vs@.take(i + 1)),
                    ));
                }
                i = i + 1;
            }
            proof {
                assert(vs@.take(vs@.len() as int) =~= vs@);
            }
        },
        Value::UInt32Array(vs) => {
            buf.push(0x49);
            let mut i: usize = 0;
            proof {
                assert(buf@ =~= pre + seq![0x49u8] + int_elems_bytes(ints_of_u32(vs@.take(0))));
            }
            while i < vs.len()
                invariant
                    i <= vs@.len(),
                    buf@ == pre + seq![0x49u8] + int_elems_bytes(ints_of_u32(vs@.take(i as int))),
                decreases vs@.len() - i,
            {
                push_int_elem(buf, vs[i] as i64);
                proof {
                    lemma_int_elems_step(ints_of_u32(vs@), i as int);
                    assert(ints_of_u32(vs@)[i as int] == vs@[i as int] as int);
                    assert(ints_of_u32(vs@.take(i + 1)) =~= ints_of_u32(vs@).take(i + 1));
                    assert(ints_of_u32(vs@.take(i as int)) =~= ints_of_u32(vs@).take(i as int));
                    assert(buf@ =~= pre + seq![0x49u8] + int_elems_bytes(
                        ints_of_u32(vs@.take(i + 1)),
                    ));
                }
                i = i + 1;
            }
            proof {
                assert(vs@.take(vs@.len() as int) =~= vs@);
            }
        },
        Value::FloatArray(vs) => {
            buf.push(0x66);
            let mut i: usize = 0;
            proof {
                assert(buf@ =~= pre + seq![0x66u8] + raw_elems_bytes(views_of(vs@.take(0))));
            }
            while i < vs.len()
                invariant
                    i <= vs@.len(),
                    buf@ == pre + seq![0x66u8] + raw_elems_bytes(views_of(vs@.take(i as int))),
                decreases vs@.len() - i,
            {
                buf.push(0x2c);
                crate::binary::put_bytes(buf, &vs[i]);
                proof {
                    lemma_raw_elems_step(views_of(vs@), i as int);
                    assert(views_of(vs@)[i as int] == vs@[i as int]@);
                    assert(views_of(vs@.take(i + 1)) =~= views_of(vs@).take(i + 1));
                    assert(views_of(vs@.take(i as int)) =~= views_of(vs@).take(i as int));
                    assert(buf@ =~= pre + seq![0x66u8] + raw_elems_bytes(
                        views_of(vs@.take(i + 1)),
                    ));
                }
                i = i + 1;
            }
            proof {
                assert(vs@.take(vs@.len() as int) =~= vs@);
            }
        },
    }
    proof {
        assert(final(buf)@ =~= old(buf)@ + value_bytes(*value));
    }
}

proof fn lemma_int_elems_step(elems: Seq<int>, i: int)
    requires
        0 <= i < elems.len(),
    ensures
        int_elems_bytes(elems.take(i + 1)) == int_elems_bytes(elems.take(i)) + seq![0x2cu8]
            + int_bytes(elems[i]),
{
    assert(elems.take(i + 1).drop_last() =~= elems.take(i));
    assert(elems.take(i + 1).last() == elems[i]);
}

proof fn lemma_raw_elems_step(elems: Seq<Seq<u8>>, i: int)
    requires
        0 <= i < elems.len(),
    ensures
        raw_elems_bytes(elems.take(i + 1)) == raw_elems_bytes(elems.take(i)) + seq![0x2cu8]
            + elems[i],
{
    assert(elems.take(i + 1).drop_last() =~= elems.take(i));
    assert(elems.take(i + 1).last() == elems[i]);
}


/// Whether a text field stays on its line and in its column: no tab, no line
/// break.
pub open spec fn text_clean(s: Seq<u8>) -> bool {
    forall|i: int| 0 <= i < s.len() ==> (#[trigger] s[i] != 0x09 && s[i] != 0x0a)
}

/// Whether a value is fit for an auxiliary-field column: a printable
/// character, and rendered or raw texts free of tabs and line breaks.
pub open spec fn value_wf(value: Value) -> bool {
    match value {
        Value::Char(c) => 0x21 <= c <= 0x7e,
        Value::Float(text) => text_clean(text@),
        Value::String(s) => text_clean(s@),
        Value::Hex(s) => text_clean(s@),
        Value::FloatArray(vs) => forall|i: int|
            0 <= i < vs@.len() ==> text_clean((#[trigger] vs@[i])@),
        _ => true,
    }
}

/// Rendered integer elements hold only commas, signs and digits.
proof fn lemma_int_elems_bytes_clean(elems: Seq<int>)
    ensures
        text_clean(int_elems_bytes(elems)),
    decreases elems.len(),
{
    if elems.len() > 0 {
        lemma_int_elems_bytes_clean(elems.drop_last());
        crate::text::lemma_int_bytes_are_sign_or_digits(elems.last());
        assert forall|i: int| 0 <= i < int_elems_bytes(elems).len() implies (
        #[trigger] int_elems_bytes(elems)[i] != 0x09 && int_elems_bytes(elems)[i] != 0x0a) by {
            let prefix = int_elems_bytes(elems.drop_last());
            if i < prefix.len() {
                assert(int_elems_bytes(elems)[i] == prefix[i]);
            } else if i > prefix.len() {
                assert(int_elems_bytes(elems)[i] == int_bytes(elems.last())[i - prefix.len() - 1]);
            }
        }
    }
}

/// Clean rendered elements stay clean behind their commas.
proof fn lemma_raw_elems_bytes_clean(elems: Seq<Seq<u8>>)
    requires
        forall|i: int| 0 <= i < elems.len() ==> text_clean(#[trigger] elems[i]),
    ensures
        text_clean(raw_elems_bytes(elems)),
    decreases elems.len(),
{
    if elems.len() > 0 {
        lemma_raw_elems_bytes_clean(elems.drop_last());
        assert(text_clean(elems.last()));
        assert forall|i: int| 0 <= i < raw_elems_bytes(elems).len() implies (
        #[trigger] raw_elems_bytes(elems)[i] != 0x09 && raw_elems_bytes(elems)[i] != 0x0a) by {
            let prefix = raw_elems_bytes(elems.drop_last());
            if i < prefix.len() {
                assert(raw_elems_bytes(elems)[i] == prefix[i]);
            } else if i > prefix.len() {
                assert(raw_elems_bytes(elems)[i] == elems.last()[i - prefix.len() - 1]);
            }
        }
    }
}

/// LAW OF THE COLUMN SEPARATOR. The text of a well-formed value never holds a
/// tab or a line break: it cannot spill into the next column or the next
/// record line.
pub proof fn lemma_value_text_clean(value: Value)
    requires
        value_wf(value),
    ensures
        text_clean(value_bytes(value)),
{
    match value {
        Value::Char(..) => {},
        Value::Int8(n) => {
            crate::text::lemma_int_bytes_are_sign_or_digits(n as int);
        },
        Value::UInt8(n) => {
            crate::text::lemma_int_bytes_are_sign_or_digits(n as int);
        },
        Value::Int16(n) => {
            crate::text::lemma_int_bytes_are_sign_or_digits(n as int);
        },
        Value::UInt16(n) => {
            crate::text::lemma_int_bytes_are_sign_or_digits(n as int);
        },
        Value::Int32(n) => {
            crate::text::lemma_int_bytes_are_sign_or_digits(n as int);
        },
        Value::UInt32(n) => {
            crate::text::lemma_int_bytes_are_sign_or_digits(n as int);
        },
        Value::Float(..) => {},
        Value::String(..) => {},
        Value::Hex(..) => {},
        Value::Int8Array(vs) => {
            lemma_int_elems_bytes_clean(ints_of_i8(vs@));
        },
        Value::UInt8Array(vs) => {
            lemma_int_elems_bytes_clean(ints_of_u8(vs@));
        },
        Value::Int16Array(vs) => {
            lemma_int_elems_bytes_clean(ints_of_i16(vs@));
        },
        Value::UInt16Array(vs) => {
            lemma_int_elems_bytes_clean(ints_of_u16(vs@));
        },
        Value::Int32Array(vs) => {
            lemma_int_elems_bytes_clean(ints_of_i32(vs@));
        },
        Value::UInt32Array(vs) => {
            lemma_int_elems_bytes_clean(ints_of_u32(vs@));
        },
        Value::FloatArray(vs) => {
            assert forall|i: int| 0 <= i < views_of(vs@).len() implies text_clean(
                #[trigger] views_of(vs@)[i],
            ) by {
                assert(views_of(vs@)[i] == vs@[i]@);
            }
            lemma_raw_elems_bytes_clean(views_of(vs@));
        },
    }
}

} // verus!
