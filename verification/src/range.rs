//! Archived forms for half-open and inclusive ranges: the worked example of
//! a hand-written, non-generated implementation of the archive capability.
//!
//! An archived range is a two-field record of its bounds, laid out start
//! first, end second.  With copy-safe eight-byte bounds the whole range is
//! itself copy-safe: phase one writes nothing, and phase two places the two
//! bounds at offsets zero and eight of the range's own position.

use vstd::prelude::*;
use vstd::std_specs::cmp::PartialOrdSpec;
use core::cmp::Ordering;
use crate::encode::{Value, arch, arch_fields, conforms, encode};
use crate::layout::{Shape, spec_size, spec_fields_size};
use crate::sink::{ByteSink, SinkError};
use crate::tag::{
    spec_le_bytes, spec_le_value, pow256, le_bytes, le_value_at, lemma_le_bytes_len,
    lemma_le_value_bound,
};

verus! {

/// An archived half-open range: `start` inclusive, `end` exclusive.
#[derive(Clone, Default, PartialEq, Eq, Hash, Debug)]
pub struct ArchivedRange<T> {
    /// The lower bound of the range (inclusive).
    pub start: T,
    /// The upper bound of the range (exclusive).
    pub end: T,
}

impl<T: PartialOrd<T>> ArchivedRange<T> {
    /// Returns `true` if `item` is contained in the range: not below
    /// `start`, strictly below `end`.
    pub fn contains(&self, item: &T) -> (r: bool)
        ensures
            T::obeys_partial_cmp_spec() ==> (r <==> (self.start.partial_cmp_spec(item)
                matches Some(Ordering::Less | Ordering::Equal) && item.partial_cmp_spec(&self.end)
                matches Some(Ordering::Less))),
    {
        self.start.le(item) && item.lt(&self.end)
    }

    /// Returns `true` if the range contains no items: the bounds are equal,
    /// out of order, or not comparable.
    pub fn is_empty(&self) -> (r: bool)
        ensures
            T::obeys_partial_cmp_spec() ==> (r <==> !(self.start.partial_cmp_spec(&self.end)
                matches Some(Ordering::Less))),
    {
        match self.start.partial_cmp(&self.end) {
            None => true,
            Some(Ordering::Greater) => true,
            Some(Ordering::Equal) => true,
            Some(Ordering::Less) => false,
        }
    }
}

/// An archived inclusive range: both bounds inclusive.
#[derive(Clone, Default, PartialEq, Eq, Hash, Debug)]
pub struct ArchivedRangeInclusive<T> {
    /// The lower bound of the range (inclusive).
    pub start: T,
    /// The upper bound of the range (inclusive).
    pub end: T,
}

impl<T: PartialOrd<T>> ArchivedRangeInclusive<T> {
    /// Returns `true` if `item` is contained in the range: not below
    /// `start`, not above `end`.
    pub fn contains(&self, item: &T) -> (r: bool)
        ensures
            T::obeys_partial_cmp_spec() ==> (r <==> (self.start.partial_cmp_spec(item)
                matches Some(Ordering::Less | Ordering::Equal) && item.partial_cmp_spec(&self.end)
                matches Some(Ordering::Less | Ordering::Equal))),
    {
        self.start.le(item) && item.le(&self.end)
    }

    /// Returns `true` if the range contains no items: the bounds are out of
    /// order or not comparable.  Unlike the half-open range, equal bounds
    /// still hold one item.
    pub fn is_empty(&self) -> (r: bool)
        ensures
            T::obeys_partial_cmp_spec() ==> (r <==> !(self.start.partial_cmp_spec(&self.end)
                matches Some(Ordering::Less | Ordering::Equal))),
    {
        match self.start.partial_cmp(&self.end) {
            None => true,
            Some(Ordering::Greater) => true,
            Some(Ordering::Equal) => false,
            Some(Ordering::Less) => false,
        }
    }
}

/// The shape of an archived range with eight-byte copy-safe bounds: a record
/// of the two bounds, start at offset zero, end at offset eight.
pub fn range_shape() -> (s: Shape)
    ensures
        s matches Shape::Record { fields } && fields@.len() == 2 && fields@[0] == (Shape::Leaf {
            size: 8,
        }) && fields@[1] == (Shape::Leaf { size: 8 }),
        spec_size(s) == 16,
{
    let mut fields: Vec<Shape> = Vec::new();
    fields.push(Shape::Leaf { size: 8 });
    fields.push(Shape::Leaf { size: 8 });
    let s = Shape::Record { fields };
    proof {
        let fs = s->Record_fields@;
        assert(fs.drop_first() =~= seq![Shape::Leaf { size: 8 }]);
        assert(fs.drop_first().drop_first() =~= Seq::<Shape>::empty());
        assert(spec_fields_size(fs.drop_first().drop_first()) == 0);
        assert(spec_size(Shape::Leaf { size: 8 }) == 8);
        assert(fs.drop_first()[0] == (Shape::Leaf { size: 8 }));
        assert(spec_fields_size(fs.drop_first()) == 8);
        assert(spec_fields_size(fs) == 16);
    }
    s
}

/// The value of a range with the given bounds, ready for the encode
/// protocol: two copy-safe leaves carrying the bounds' little-endian bytes.
pub fn range_value(start: u64, end: u64) -> (v: Value)
    ensures
        v matches Value::Record { fields } && fields@.len() == 2 && (fields@[0]
            matches Value::Leaf { bytes: b0 } && b0@ == spec_le_bytes(start as nat, 8)) && (
        fields@[1] matches Value::Leaf { bytes: b1 } && b1@ == spec_le_bytes(end as nat, 8)),
{
    proof {
        reveal_with_fuel(pow256, 9);
    }
    let b0 = le_bytes(start, 8);
    let b1 = le_bytes(end, 8);
    let mut fields: Vec<Value> = Vec::new();
    fields.push(Value::Leaf { bytes: b0 });
    fields.push(Value::Leaf { bytes: b1 });
    Value::Record { fields }
}

/// Archives a half-open range with the given bounds: serializes (the bounds
/// are copy-safe, so nothing is written out of line) and resolves the two
/// bounds at offsets zero and eight of the final position.  Returns that
/// position; fails exactly when the sixteen archived bytes do not fit.
pub fn archive_range(start: u64, end: u64, sink: &mut ByteSink) -> (r: Result<usize, SinkError>)
    requires
        old(sink).wf(),
        old(sink).contents().len() + 16 <= usize::MAX,
    ensures
        final(sink).wf(),
        final(sink).capacity() == old(sink).capacity(),
        r matches Ok(p) ==> p == old(sink).contents().len() && final(sink).contents() == old(
            sink,
        ).contents() + spec_le_bytes(start as nat, 8) + spec_le_bytes(end as nat, 8),
        r is Ok <==> old(sink).contents().len() + 16 <= old(sink).capacity(),
        r is Err ==> final(sink).contents() == old(sink).contents(),
{
    let s = range_shape();
    let v = range_value(start, end);
    proof {
        lemma_le_bytes_len(start as nat, 8);
        lemma_le_bytes_len(end as nat, 8);
        let fs = s->Record_fields@;
        let vf = v->Record_fields@;
        assert(conforms(v, s)) by {
            assert(forall|i: int| 0 <= i < 2 ==> conforms(#[trigger] vf[i], fs[i]));
        }
        assert(vf.drop_first() =~= seq![vf[1]]);
        assert(fs.drop_first() =~= seq![fs[1]]);
        assert(vf.drop_first().drop_first() =~= Seq::<Value>::empty());
        assert(fs.drop_first().drop_first() =~= Seq::<Shape>::empty());
        assert(arch_fields(vf.drop_first().drop_first(), fs.drop_first().drop_first())
            == Seq::<u8>::empty());
        assert(arch_fields(vf.drop_first(), fs.drop_first()) == arch(vf[1], fs[1])
            + Seq::<u8>::empty());
        assert(arch(vf[1], fs[1]) == spec_le_bytes(end as nat, 8));
        assert(arch(vf[0], fs[0]) == spec_le_bytes(start as nat, 8));
        assert(arch_fields(vf, fs) == arch(vf[0], fs[0]) + (spec_le_bytes(end as nat, 8)
            + Seq::<u8>::empty()));
        assert(arch(v, s) =~= spec_le_bytes(start as nat, 8) + spec_le_bytes(end as nat, 8));
    }
    encode(&v, &s, sink)
}

/// Archives an inclusive range with the given bounds: the archived form
/// stores the two inclusive bounds at the same offsets as the half-open
/// form.
pub fn archive_range_inclusive(start: u64, end: u64, sink: &mut ByteSink) -> (r: Result<
    usize,
    SinkError,
>)
    requires
        old(sink).wf(),
        old(sink).contents().len() + 16 <= usize::MAX,
    ensures
        final(sink).wf(),
        final(sink).capacity() == old(sink).capacity(),
        r matches Ok(p) ==> p == old(sink).contents().len() && final(sink).contents() == old(
            sink,
        ).contents() + spec_le_bytes(start as nat, 8) + spec_le_bytes(end as nat, 8),
        r is Ok <==> old(sink).contents().len() + 16 <= old(sink).capacity(),
        r is Err ==> final(sink).contents() == old(sink).contents(),
{
    archive_range(start, end, sink)
}

/// Interprets sixteen bytes at `pos` as an archived half-open range with
/// eight-byte bounds.
pub fn read_range(buf: &Vec<u8>, pos: usize) -> (r: ArchivedRange<u64>)
    requires
        pos + 16 <= buf@.len(),
    ensures
        r.start == spec_le_value(buf@.subrange(pos as int, pos + 8)),
        r.end == spec_le_value(buf@.subrange(pos + 8, pos + 16)),
{
    proof {
        reveal_with_fuel(pow256, 9);
        lemma_le_value_bound(buf@.subrange(pos as int, pos + 8));
        lemma_le_value_bound(buf@.subrange(pos + 8, pos + 16));
        assert(buf.len() == buf@.len());
    }
    let start = le_value_at(buf, pos, pos + 8);
    let end = le_value_at(buf, pos + 8, pos + 16);
    ArchivedRange { start, end }
}

/// Interprets sixteen bytes at `pos` as an archived inclusive range with
/// eight-byte bounds.
pub fn read_range_inclusive(buf: &Vec<u8>, pos: usize) -> (r: ArchivedRangeInclusive<u64>)
    requires
        pos + 16 <= buf@.len(),
    ensures
        r.start == spec_le_value(buf@.subrange(pos as int, pos + 8)),
        r.end == spec_le_value(buf@.subrange(pos + 8, pos + 16)),
{
    proof {
        reveal_with_fuel(pow256, 9);
        lemma_le_value_bound(buf@.subrange(pos as int, pos + 8));
        lemma_le_value_bound(buf@.subrange(pos + 8, pos + 16));
        assert(buf.len() == buf@.len());
    }
    let start = le_value_at(buf, pos, pos + 8);
    let end = le_value_at(buf, pos + 8, pos + 16);
    ArchivedRangeInclusive { start, end }
}

} // verus!
