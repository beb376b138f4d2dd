//! Shapes and byte layouts of archived aggregates.
//!
//! A [`Shape`] describes the archived form of a value type: a copy-safe leaf
//! of a fixed byte size, a record of fields laid out one after the other, or
//! a tagged-variant type whose layout begins with a discriminant and holds
//! the payload of whichever variant is active.  Every field of an aggregate
//! has a statically known byte offset within the aggregate, so a child's
//! final position is always the parent's position plus that offset.

use vstd::prelude::*;
use crate::tag::spec_tag_width;

verus! {

/// The archived layout of a value type.
#[derive(PartialEq, Eq, Debug)]
pub enum Shape {
    /// A copy-safe leaf occupying `size` bytes; its bytes are already its
    /// archived form.
    Leaf { size: usize },
    /// A record; fields are laid out in declaration order.
    Record { fields: Vec<Shape> },
    /// A tagged-variant type; the discriminant shared by all variants sits
    /// at offset zero, followed by the active variant's payload fields.
    Variants { variants: Vec<VariantFields> },
}

/// The payload field shapes of one variant, in declaration order.
#[derive(PartialEq, Eq, Debug)]
pub struct VariantFields {
    pub fields: Vec<Shape>,
}

/// The number of bytes the archived form of `s` occupies.  A variant type
/// occupies its discriminant plus the payload of its widest variant, so that
/// its size does not depend on which variant is active.
pub open spec fn spec_size(s: Shape) -> nat
    decreases s,
{
    match s {
        Shape::Leaf { size } => size as nat,
        Shape::Record { fields } => spec_fields_size(fields@),
        Shape::Variants { variants } => spec_tag_width(variants@.len()) + spec_max_payload(
            variants@,
        ),
    }
}

/// The total size of a field list laid out back to back.
pub open spec fn spec_fields_size(fs: Seq<Shape>) -> nat
    decreases fs,
{
    if fs.len() == 0 {
        0
    } else {
        spec_size(fs[0]) + spec_fields_size(fs.drop_first())
    }
}

/// The size of the widest variant payload.
pub open spec fn spec_max_payload(vs: Seq<VariantFields>) -> nat
    decreases vs,
{
    if vs.len() == 0 {
        0
    } else {
        let head = spec_fields_size(vs[0].fields@);
        let rest = spec_max_payload(vs.drop_first());
        if head >= rest {
            head
        } else {
            rest
        }
    }
}

/// The byte offset of field `i` within a field list: the summed sizes of the
/// fields declared before it.
pub open spec fn spec_offset(fs: Seq<Shape>, i: int) -> nat {
    spec_fields_size(fs.subrange(0, i))
}

pub proof fn lemma_fields_size_concat(a: Seq<Shape>, b: Seq<Shape>)
    ensures
        spec_fields_size(a + b) == spec_fields_size(a) + spec_fields_size(b),
    decreases a,
{
    if a.len() == 0 {
        assert(a + b =~= b);
    } else {
        assert((a + b).drop_first() =~= a.drop_first() + b);
        lemma_fields_size_concat(a.drop_first(), b);
    }
}

pub proof fn lemma_fields_size_one(s: Shape)
    ensures
        spec_fields_size(seq![s]) == spec_size(s),
{
    assert(seq![s].len() == 1);
    assert(seq![s][0] == s);
    assert(seq![s].drop_first() =~= Seq::<Shape>::empty());
    assert(spec_fields_size(Seq::<Shape>::empty()) == 0);
}

/// Walking one field forward advances the offset by exactly that field's
/// size: the layout has no gaps.
pub proof fn lemma_offset_step(fs: Seq<Shape>, i: int)
    requires
        0 <= i < fs.len(),
    ensures
        spec_offset(fs, i + 1) == spec_offset(fs, i) + spec_size(fs[i]),
{
    assert(fs.subrange(0, i + 1) =~= fs.subrange(0, i) + seq![fs[i]]);
    lemma_fields_size_concat(fs.subrange(0, i), seq![fs[i]]);
    lemma_fields_size_one(fs[i]);
}

/// Every field lies inside its record: offset plus size never passes the
/// record's total size.
pub proof fn lemma_field_in_bounds(fs: Seq<Shape>, i: int)
    requires
        0 <= i < fs.len(),
    ensures
        spec_offset(fs, i) + spec_size(fs[i]) <= spec_fields_size(fs),
    decreases fs.len() - i,
{
    lemma_offset_step(fs, i);
    if i + 1 == fs.len() {
        assert(fs.subrange(0, i + 1) =~= fs);
    } else {
        lemma_field_in_bounds_helper(fs, i + 1);
    }
}

proof fn lemma_field_in_bounds_helper(fs: Seq<Shape>, i: int)
    requires
        0 <= i <= fs.len(),
    ensures
        spec_offset(fs, i) <= spec_fields_size(fs),
{
    assert(fs =~= fs.subrange(0, i) + fs.subrange(i, fs.len() as int));
    lemma_fields_size_concat(fs.subrange(0, i), fs.subrange(i, fs.len() as int));
}

/// No variant's payload is wider than the widest.
pub proof fn lemma_payload_le_max(vs: Seq<VariantFields>, i: int)
    requires
        0 <= i < vs.len(),
    ensures
        spec_fields_size(vs[i].fields@) <= spec_max_payload(vs),
    decreases vs,
{
    if i > 0 {
        lemma_payload_le_max(vs.drop_first(), i - 1);
    }
}

/// Computes the size of a field list; the loop accumulates field offsets, so
/// the running total is always the offset of the next field.
pub fn fields_size_of(fs: &Vec<Shape>) -> (n: usize)
    requires
        spec_fields_size(fs@) <= usize::MAX,
    ensures
        n == spec_fields_size(fs@),
    decreases fs@,
{
    let mut total: usize = 0;
    let mut i: usize = 0;
    proof {
        assert(fs@.subrange(0, 0) =~= Seq::<Shape>::empty());
    }
    while i < fs.len()
        invariant
            i <= fs@.len(),
            total == spec_offset(fs@, i as int),
            spec_fields_size(fs@) <= usize::MAX,
        decreases fs@.len() - i,
    {
        proof {
            lemma_field_in_bounds(fs@, i as int);
            lemma_offset_step(fs@, i as int);
        }
        let sz = size_of(&fs[i]);
        total = total + sz;
        i = i + 1;
    }
    proof {
        assert(fs@.subrange(0, fs@.len() as int) =~= fs@);
    }
    total
}

/// Computes the number of bytes the archived form of `s` occupies.
pub fn size_of(s: &Shape) -> (n: usize)
    requires
        spec_size(*s) <= usize::MAX,
    ensures
        n == spec_size(*s),
    decreases *s,
{
    match s {
        Shape::Leaf { size } => *size,
        Shape::Record { fields } => fields_size_of(fields),
        Shape::Variants { variants } => {
            let w = crate::tag::tag_width(variants.len());
            let mut m: usize = 0;
            let mut i: usize = 0;
            while i < variants.len()
                invariant
                    i <= variants@.len(),
                    m == spec_max_payload(variants@.subrange(0, i as int)),
                    spec_size(*s) <= usize::MAX,
                    *s == (Shape::Variants { variants: *variants }),
                decreases variants@.len() - i,
            {
                proof {
                    lemma_payload_le_max(variants@, i as int);
                    lemma_max_payload_step(variants@, i as int);
                }
                let p = fields_size_of(&variants[i].fields);
                if p > m {
                    m = p;
                }
                i = i + 1;
            }
            proof {
                assert(variants@.subrange(0, variants@.len() as int) =~= variants@);
            }
            w + m
        },
    }
}

/// Extending the prefix by one variant raises the running maximum to that
/// variant's payload size if it is wider.
proof fn lemma_max_payload_step(vs: Seq<VariantFields>, i: int)
    requires
        0 <= i < vs.len(),
    ensures
        spec_max_payload(vs.subrange(0, i + 1)) == if spec_fields_size(vs[i].fields@)
            >= spec_max_payload(vs.subrange(0, i)) {
            spec_fields_size(vs[i].fields@)
        } else {
            spec_max_payload(vs.subrange(0, i))
        },
    decreases i,
{
    if i == 0 {
        assert(vs.subrange(0, 1).drop_first() =~= Seq::<VariantFields>::empty());
        assert(vs.subrange(0, 0) =~= Seq::<VariantFields>::empty());
        assert(vs.subrange(0, 1)[0] == vs[0]);
    } else {
        assert(vs.subrange(0, i + 1).drop_first() =~= vs.drop_first().subrange(0, i));
        assert(vs.subrange(0, i).drop_first() =~= vs.drop_first().subrange(0, i - 1));
        lemma_max_payload_step(vs.drop_first(), i - 1);
        assert(vs.subrange(0, i + 1)[0] == vs[0]);
        assert(vs.subrange(0, i)[0] == vs[0]);
        assert(vs.drop_first().subrange(0, i)[i - 1] == vs[i]);
    }
}

/// The byte offset of field `i` of a field list: the offset-of primitive the
/// mirror generator and the resolve phase both rely on.
pub fn offset_of(fs: &Vec<Shape>, i: usize) -> (off: usize)
    requires
        i < fs@.len(),
        spec_fields_size(fs@) <= usize::MAX,
    ensures
        off == spec_offset(fs@, i as int),
{
    let mut total: usize = 0;
    let mut j: usize = 0;
    proof {
        assert(fs@.subrange(0, 0) =~= Seq::<Shape>::empty());
    }
    while j < i
        invariant
            j <= i < fs@.len(),
            total == spec_offset(fs@, j as int),
            spec_fields_size(fs@) <= usize::MAX,
        decreases i - j,
    {
        proof {
            lemma_field_in_bounds(fs@, j as int);
            lemma_offset_step(fs@, j as int);
        }
        let sz = size_of(&fs[j]);
        total = total + sz;
        j = j + 1;
    }
    total
}

} // verus!
