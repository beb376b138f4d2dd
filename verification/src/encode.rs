//! The two-phase encode protocol: collect, then place.
//!
//! Phase one, [`serialize`], walks a value depth-first in declaration order,
//! writes any owned out-of-line data of its fields into the sink (copy-safe
//! leaves own none, so they write nothing), and collects a [`Resolver`] that
//! mirrors the value one field per field.  Phase two, [`resolve`], is handed
//! the final byte position the archived value will occupy and materializes
//! its archived bytes by pure placement arithmetic: each child is resolved at
//! the parent's position plus the child's statically known field offset.
//!
//! A resolver must be applied to the very value it was built from.  Applying
//! a variant resolver against a value holding a different variant is a
//! programming defect, not an input error, and [`try_resolve`] refuses to
//! produce any bytes for it.

use vstd::prelude::*;
use crate::layout::{
    Shape, spec_size, spec_fields_size, spec_offset, lemma_offset_step, lemma_field_in_bounds,
    lemma_payload_le_max, size_of, fields_size_of,
};
use crate::sink::{ByteSink, SinkError};
use crate::tag::{
    spec_tag_width, pow256, spec_le_bytes, spec_le_value, tag_width, le_bytes, le_value_at,
    lemma_le_bytes_len, lemma_le_round_trip, lemma_tag_width_fits, lemma_le_value_bound,
    lemma_le_bytes_of_value,
};

verus! {

/// A value eligible for archiving: a copy-safe leaf carrying its own bytes,
/// a record of fields, or a tagged-variant value holding the payload of its
/// active variant.
#[derive(PartialEq, Eq, Debug)]
pub enum Value {
    Leaf { bytes: Vec<u8> },
    Record { fields: Vec<Value> },
    Variant { index: usize, fields: Vec<Value> },
}

/// The shadow of a value produced by phase one: one marker per copy-safe
/// leaf, one field per record field, and for a variant value the matching
/// resolver variant carrying the payload resolvers.
#[derive(PartialEq, Eq, Debug)]
pub enum Resolver {
    Leaf,
    Record { fields: Vec<Resolver> },
    Variant { index: usize, fields: Vec<Resolver> },
}

/// `v` has shape `s`: leaves carry exactly as many bytes as their shape
/// says, records carry one conforming value per field, and a variant value
/// selects an existing variant and conforms to its payload.
pub open spec fn conforms(v: Value, s: Shape) -> bool
    decreases v,
{
    match v {
        Value::Leaf { bytes } => s matches Shape::Leaf { size } && bytes@.len() == size as nat,
        Value::Record { fields } => s matches Shape::Record { fields: ss } && conforms_fields(
            fields@,
            ss@,
        ),
        Value::Variant { index, fields } => s matches Shape::Variants { variants }
            && (index as int) < variants@.len() && conforms_fields(
            fields@,
            variants@[index as int].fields@,
        ),
    }
}

pub open spec fn conforms_fields(vs: Seq<Value>, ss: Seq<Shape>) -> bool
    decreases vs,
{
    vs.len() == ss.len() && (forall|i: int|
        0 <= i < vs.len() ==> conforms(#[trigger] vs[i], ss[i]))
}

/// Structural, field-by-field equality of two values: the observable
/// equality the round trip restores.
pub open spec fn val_eq(a: Value, b: Value) -> bool
    decreases a,
{
    match a {
        Value::Leaf { bytes } => b matches Value::Leaf { bytes: b2 } && bytes@ == b2@,
        Value::Record { fields } => b matches Value::Record { fields: f2 } && vals_eq(
            fields@,
            f2@,
        ),
        Value::Variant { index, fields } => b matches Value::Variant { index: i2, fields: f2 }
            && index == i2 && vals_eq(fields@, f2@),
    }
}

pub open spec fn vals_eq(a: Seq<Value>, b: Seq<Value>) -> bool
    decreases a,
{
    a.len() == b.len() && (forall|i: int| 0 <= i < a.len() ==> val_eq(#[trigger] a[i], b[i]))
}

/// The resolver mirrors the value: same structure, and for variant values
/// the very variant the value holds.
pub open spec fn resolver_matches(r: Resolver, v: Value) -> bool
    decreases r,
{
    match r {
        Resolver::Leaf => v is Leaf,
        Resolver::Record { fields } => v matches Value::Record { fields: vf }
            && resolvers_match(fields@, vf@),
        Resolver::Variant { index, fields } => v matches Value::Variant { index: vi, fields: vf }
            && index == vi && resolvers_match(fields@, vf@),
    }
}

pub open spec fn resolvers_match(rs: Seq<Resolver>, vs: Seq<Value>) -> bool
    decreases rs,
{
    rs.len() == vs.len() && (forall|i: int|
        0 <= i < rs.len() ==> resolver_matches(#[trigger] rs[i], vs[i]))
}

/// `n` zero bytes: the padding that fills a variant's layout out to the
/// widest variant.
pub open spec fn zeros(n: nat) -> Seq<u8> {
    Seq::new(n, |i: int| 0u8)
}

/// The archived bytes of `v` under shape `s`: a leaf's own bytes verbatim; a
/// record's fields back to back in declaration order; for a variant value
/// the discriminant, the active variant's payload, then zero padding out to
/// the shared size.
pub open spec fn arch(v: Value, s: Shape) -> Seq<u8>
    decreases v,
{
    match v {
        Value::Leaf { bytes } => bytes@,
        Value::Record { fields } => match s {
            Shape::Record { fields: ss } => arch_fields(fields@, ss@),
            _ => Seq::empty(),
        },
        Value::Variant { index, fields } => match s {
            Shape::Variants { variants } => {
                let w = spec_tag_width(variants@.len());
                let payload = if (index as int) < variants@.len() {
                    arch_fields(fields@, variants@[index as int].fields@)
                } else {
                    Seq::empty()
                };
                if w + payload.len() <= spec_size(s) {
                    spec_le_bytes(index as nat, w) + payload + zeros(
                        (spec_size(s) - w - payload.len()) as nat,
                    )
                } else {
                    spec_le_bytes(index as nat, w) + payload
                }
            },
            _ => Seq::empty(),
        },
    }
}

pub open spec fn arch_fields(vs: Seq<Value>, ss: Seq<Shape>) -> Seq<u8>
    decreases vs,
{
    if vs.len() == 0 || ss.len() == 0 {
        Seq::empty()
    } else {
        arch(vs[0], ss[0]) + arch_fields(vs.drop_first(), ss.drop_first())
    }
}

/// A conforming value's archived form fills its shape's size exactly.
pub proof fn lemma_arch_len(v: Value, s: Shape)
    requires
        conforms(v, s),
    ensures
        arch(v, s).len() == spec_size(s),
    decreases v,
{
    match v {
        Value::Leaf { bytes } => {},
        Value::Record { fields } => {
            let ss = s->Record_fields;
            lemma_arch_fields_len(fields@, ss@);
        },
        Value::Variant { index, fields } => {
            let variants = s->Variants_variants;
            let w = spec_tag_width(variants@.len());
            lemma_arch_fields_len(fields@, variants@[index as int].fields@);
            lemma_payload_le_max(variants@, index as int);
            lemma_le_bytes_len(index as nat, w);
        },
    }
}

pub proof fn lemma_arch_fields_len(vs: Seq<Value>, ss: Seq<Shape>)
    requires
        conforms_fields(vs, ss),
    ensures
        arch_fields(vs, ss).len() == spec_fields_size(ss),
    decreases vs,
{
    if vs.len() > 0 {
        lemma_arch_len(vs[0], ss[0]);
        assert(conforms_fields(vs.drop_first(), ss.drop_first())) by {
            assert(forall|i: int|
                0 <= i < vs.len() - 1 ==> #[trigger] vs.drop_first()[i] == vs[i + 1]);
        }
        lemma_arch_fields_len(vs.drop_first(), ss.drop_first());
    }
}

/// Appending one more value to a field list appends exactly its archived
/// bytes.
pub proof fn lemma_arch_fields_snoc(vs: Seq<Value>, ss: Seq<Shape>, v: Value, s: Shape)
    requires
        vs.len() == ss.len(),
    ensures
        arch_fields(vs.push(v), ss.push(s)) == arch_fields(vs, ss) + arch(v, s),
    decreases vs,
{
    if vs.len() == 0 {
        assert(vs.push(v)[0] == v);
        assert(ss.push(s)[0] == s);
        assert(vs.push(v).drop_first() =~= Seq::<Value>::empty());
        assert(ss.push(s).drop_first() =~= Seq::<Shape>::empty());
        assert(arch_fields(vs, ss) == Seq::<u8>::empty());
        assert(arch_fields(vs.push(v).drop_first(), ss.push(s).drop_first())
            == Seq::<u8>::empty());
        assert(arch_fields(vs.push(v), ss.push(s)) == arch(v, s) + Seq::<u8>::empty());
        assert(arch_fields(vs.push(v), ss.push(s)) =~= arch_fields(vs, ss) + arch(v, s));
    } else {
        assert(vs.push(v)[0] == vs[0]);
        assert(ss.push(s)[0] == ss[0]);
        assert(vs.push(v).drop_first() =~= vs.drop_first().push(v));
        assert(ss.push(s).drop_first() =~= ss.drop_first().push(s));
        lemma_arch_fields_snoc(vs.drop_first(), ss.drop_first(), v, s);
        assert(arch_fields(vs.push(v), ss.push(s)) =~= arch_fields(vs, ss) + arch(v, s));
    }
}

/// Phase one: walks `v` depth-first in declaration order, writes each
/// field's owned out-of-line data into the sink (copy-safe leaves own none),
/// and collects the resolver tree.  Fails only by propagating a sink error,
/// and leaves the sink's bytes exactly as the fields wrote them.
pub fn serialize(v: &Value, sink: &mut ByteSink) -> (r: Result<Resolver, SinkError>)
    requires
        old(sink).wf(),
    ensures
        final(sink).wf(),
        final(sink).contents() == old(sink).contents(),
        final(sink).capacity() == old(sink).capacity(),
        r matches Ok(res) && resolver_matches(res, *v),
    decreases *v,
{
    match v {
        Value::Leaf { .. } => Ok(Resolver::Leaf),
        Value::Record { fields } => {
            let rs = match serialize_fields(fields, sink) {
                Ok(rr) => rr,
                Err(e) => {
                    return Err(e);
                },
            };
            Ok(Resolver::Record { fields: rs })
        },
        Value::Variant { index, fields } => {
            let rs = match serialize_fields(fields, sink) {
                Ok(rr) => rr,
                Err(e) => {
                    return Err(e);
                },
            };
            Ok(Resolver::Variant { index: *index, fields: rs })
        },
    }
}

/// Serializes a field list in declaration order, collecting one resolver
/// per field.
fn serialize_fields(fields: &Vec<Value>, sink: &mut ByteSink) -> (r: Result<
    Vec<Resolver>,
    SinkError,
>)
    requires
        old(sink).wf(),
    ensures
        final(sink).wf(),
        final(sink).contents() == old(sink).contents(),
        final(sink).capacity() == old(sink).capacity(),
        r matches Ok(rs) && resolvers_match(rs@, fields@),
    decreases fields@,
{
    let mut rs: Vec<Resolver> = Vec::new();
    let mut i: usize = 0;
    while i < fields.len()
        invariant
            i <= fields@.len(),
            rs@.len() == i,
            forall|j: int| 0 <= j < i ==> resolver_matches(#[trigger] rs@[j], fields@[j]),
            sink.wf(),
            sink.contents() == old(sink).contents(),
            sink.capacity() == old(sink).capacity(),
        decreases fields@.len() - i,
    {
        let res = match serialize(&fields[i], sink) {
            Ok(rr) => rr,
            Err(e) => {
                return Err(e);
            },
        };
        rs.push(res);
        i = i + 1;
    }
    Ok(rs)
}

/// Copies a byte buffer.
fn copy_bytes(src: &Vec<u8>) -> (out: Vec<u8>)
    ensures
        out@ == src@,
{
    let mut out: Vec<u8> = Vec::new();
    let mut i: usize = 0;
    while i < src.len()
        invariant
            i <= src@.len(),
            out@ =~= src@.subrange(0, i as int),
        decreases src@.len() - i,
    {
        out.push(src[i]);
        i = i + 1;
    }
    proof {
        assert(src@.subrange(0, src@.len() as int) =~= src@);
    }
    out
}

/// Phase two, total form: materializes the archived bytes of `v` at final
/// position `pos`, or refuses with `None` exactly when the resolver was not
/// built from this very value.  A mismatch never yields bytes: a wrong
/// variant deep inside the tree makes the whole resolve refuse.
pub fn try_resolve(r: &Resolver, pos: usize, v: &Value, s: &Shape) -> (out: Option<Vec<u8>>)
    requires
        conforms(*v, *s),
        pos + spec_size(*s) <= usize::MAX,
    ensures
        resolver_matches(*r, *v) ==> (out matches Some(b) && b@ == arch(*v, *s)),
        !resolver_matches(*r, *v) ==> out is None,
    decreases *r,
{
    match r {
        Resolver::Leaf => match v {
            Value::Leaf { bytes } => Some(copy_bytes(bytes)),
            _ => None,
        },
        Resolver::Record { fields: rf } => match v {
            Value::Record { fields: vf } => match s {
                Shape::Record { fields: sf } => try_resolve_fields(rf, pos, vf, sf),
                _ => None,
            },
            _ => None,
        },
        Resolver::Variant { index: ri, fields: rf } => match v {
            Value::Variant { index: vi, fields: vf } => match s {
                Shape::Variants { variants } => {
                    if *ri != *vi {
                        return None;
                    }
                    let w = tag_width(variants.len());
                    proof {
                        lemma_tag_width_fits(variants@.len() as nat);
                        lemma_le_bytes_len(*vi as nat, w as nat);
                        lemma_payload_le_max(variants@, *vi as int);
                    }
                    let mut out: Vec<u8> = le_bytes(*vi as u64, w);
                    let ghost tagb = spec_le_bytes(*vi as nat, w as nat);
                    let ghost sfv = variants@[*vi as int].fields@;
                    let mut payload = match try_resolve_fields(
                        rf,
                        pos + w,
                        vf,
                        &variants[*vi].fields,
                    ) {
                        Some(b) => b,
                        None => {
                            return None;
                        },
                    };
                    proof {
                        lemma_arch_fields_len(vf@, sfv);
                    }
                    out.append(&mut payload);
                    let ghost base = out@;
                    let total = size_of(s);
                    while out.len() < total
                        invariant
                            base.len() <= out@.len() <= total,
                            total == spec_size(*s),
                            out@ == base + zeros((out@.len() - base.len()) as nat),
                        decreases total - out@.len(),
                    {
                        out.push(0);
                        proof {
                            assert(out@ =~= base + zeros((out@.len() - base.len()) as nat));
                        }
                    }
                    proof {
                        assert(out@ == arch(*v, *s)) by {
                            assert(out@ =~= base + zeros((spec_size(*s) - base.len()) as nat));
                            assert(arch(*v, *s) == tagb + arch_fields(vf@, sfv) + zeros(
                                (spec_size(*s) - w - arch_fields(vf@, sfv).len()) as nat,
                            ));
                            assert(base + zeros((spec_size(*s) - base.len()) as nat) =~= tagb
                                + arch_fields(vf@, sfv) + zeros(
                                (spec_size(*s) - w - arch_fields(vf@, sfv).len()) as nat,
                            ));
                        }
                    }
                    Some(out)
                },
                _ => None,
            },
            _ => None,
        },
    }
}

/// Resolves a field list at consecutive offsets: each field is placed at
/// `pos` plus the summed sizes of the fields before it.
fn try_resolve_fields(rs: &Vec<Resolver>, pos: usize, vs: &Vec<Value>, ss: &Vec<Shape>) -> (out:
    Option<Vec<u8>>)
    requires
        conforms_fields(vs@, ss@),
        pos + spec_fields_size(ss@) <= usize::MAX,
    ensures
        resolvers_match(rs@, vs@) ==> (out matches Some(b) && b@ == arch_fields(vs@, ss@)),
        !resolvers_match(rs@, vs@) ==> out is None,
    decreases rs@,
{
    if rs.len() != vs.len() {
        return None;
    }
    let mut out: Vec<u8> = Vec::new();
    let mut i: usize = 0;
    proof {
        assert(vs@.subrange(0, 0) =~= Seq::<Value>::empty());
        assert(ss@.subrange(0, 0) =~= Seq::<Shape>::empty());
    }
    while i < rs.len()
        invariant
            i <= rs@.len(),
            rs@.len() == vs@.len(),
            conforms_fields(vs@, ss@),
            forall|j: int| 0 <= j < i ==> resolver_matches(#[trigger] rs@[j], vs@[j]),
            out@ == arch_fields(vs@.subrange(0, i as int), ss@.subrange(0, i as int)),
            out@.len() == spec_offset(ss@, i as int),
            pos + spec_fields_size(ss@) <= usize::MAX,
        decreases rs@.len() - i,
    {
        proof {
            lemma_field_in_bounds(ss@, i as int);
            lemma_offset_step(ss@, i as int);
        }
        let child = match try_resolve(&rs[i], pos + out.len(), &vs[i], &ss[i]) {
            Some(b) => b,
            None => {
                return None;
            },
        };
        proof {
            lemma_arch_len(vs@[i as int], ss@[i as int]);
            lemma_arch_fields_snoc(
                vs@.subrange(0, i as int),
                ss@.subrange(0, i as int),
                vs@[i as int],
                ss@[i as int],
            );
            assert(vs@.subrange(0, i + 1) =~= vs@.subrange(0, i as int).push(vs@[i as int]));
            assert(ss@.subrange(0, i + 1) =~= ss@.subrange(0, i as int).push(ss@[i as int]));
        }
        let mut child = child;
        out.append(&mut child);
        i = i + 1;
    }
    proof {
        assert(vs@.subrange(0, vs@.len() as int) =~= vs@);
        assert(ss@.subrange(0, ss@.len() as int) =~= ss@);
    }
    Some(out)
}

/// Phase two: materializes the archived bytes of `v` at final position
/// `pos`.  The resolver must be the one phase one built from this very
/// value.
pub fn resolve(r: &Resolver, pos: usize, v: &Value, s: &Shape) -> (out: Vec<u8>)
    requires
        conforms(*v, *s),
        resolver_matches(*r, *v),
        pos + spec_size(*s) <= usize::MAX,
    ensures
        out@ == arch(*v, *s),
        out@.len() == spec_size(*s),
{
    proof {
        lemma_arch_len(*v, *s);
    }
    let res = try_resolve(r, pos, v, s);
    res.unwrap()
}

/// One whole encode: serialize the value's out-of-line data into the sink,
/// take the position the archived form will occupy, resolve at that
/// position, and append the archived bytes.  Returns the final position on
/// success; fails exactly when the archived form does not fit in the sink's
/// remaining capacity, leaving the sink's bytes unchanged.
pub fn encode(v: &Value, s: &Shape, sink: &mut ByteSink) -> (r: Result<usize, SinkError>)
    requires
        old(sink).wf(),
        conforms(*v, *s),
        old(sink).contents().len() + spec_size(*s) <= usize::MAX,
    ensures
        final(sink).wf(),
        final(sink).capacity() == old(sink).capacity(),
        r matches Ok(p) ==> p == old(sink).contents().len() && final(sink).contents() == old(
            sink,
        ).contents() + arch(*v, *s),
        r is Ok <==> old(sink).contents().len() + spec_size(*s) <= old(sink).capacity(),
        r is Err ==> final(sink).contents() == old(sink).contents(),
{
    let res = match serialize(v, sink) {
        Ok(rr) => rr,
        Err(e) => {
            return Err(e);
        },
    };
    let pos = sink.pos();
    let out = resolve(&res, pos, v, s);
    match sink.write(&out) {
        Ok(_) => Ok(pos),
        Err(e) => Err(e),
    }
}

/// Checks that every byte of `buf[lo..hi]` is zero.
fn all_zero(buf: &Vec<u8>, lo: usize, hi: usize) -> (r: bool)
    requires
        lo <= hi <= buf@.len(),
    ensures
        r <==> (forall|k: int| lo <= k < hi ==> #[trigger] buf@[k] == 0),
{
    let mut p: usize = lo;
    while p < hi
        invariant
            lo <= p <= hi <= buf@.len(),
            forall|k: int| lo <= k < p ==> #[trigger] buf@[k] == 0,
        decreases hi - p,
    {
        if buf[p] != 0 {
            return false;
        }
        p = p + 1;
    }
    true
}

/// Reads the field list of an archived aggregate back out of a buffer, each
/// field at its own offset.  Yields `None` only when no conforming field
/// list could have produced these bytes.
fn read_fields(ss: &Vec<Shape>, buf: &Vec<u8>, pos: usize) -> (out: Option<Vec<Value>>)
    requires
        pos + spec_fields_size(ss@) <= buf@.len(),
    ensures
        out matches Some(vals) ==> conforms_fields(vals@, ss@) && arch_fields(vals@, ss@)
            == buf@.subrange(pos as int, (pos + spec_fields_size(ss@)) as int),
        out is None ==> forall|vs: Seq<Value>|
            conforms_fields(vs, ss@) ==> arch_fields(vs, ss@) != buf@.subrange(
                pos as int,
                (pos + spec_fields_size(ss@)) as int,
            ),
    decreases ss@,
{
    proof {
        assert(buf.len() == buf@.len());
    }
    let ghost seg = buf@.subrange(pos as int, (pos + spec_fields_size(ss@)) as int);
    let mut vals: Vec<Value> = Vec::new();
    let mut off: usize = 0;
    let mut i: usize = 0;
    proof {
        assert(ss@.subrange(0, 0) =~= Seq::<Shape>::empty());
        assert(buf@.subrange(pos as int, pos as int) =~= Seq::<u8>::empty());
    }
    while i < ss.len()
        invariant
            i <= ss@.len(),
            vals@.len() == i,
            off == spec_offset(ss@, i as int),
            pos + spec_fields_size(ss@) <= buf@.len(),
            seg == buf@.subrange(pos as int, (pos + spec_fields_size(ss@)) as int),
            forall|j: int| 0 <= j < i ==> conforms(#[trigger] vals@[j], ss@[j]),
            arch_fields(vals@, ss@.subrange(0, i as int)) == buf@.subrange(
                pos as int,
                (pos + off) as int,
            ),
        decreases ss@.len() - i,
    {
        proof {
            assert(buf.len() == buf@.len());
            lemma_field_in_bounds(ss@, i as int);
            lemma_offset_step(ss@, i as int);
        }
        let sz = size_of(&ss[i]);
        let child = match read_value(&ss[i], buf, pos + off) {
            Some(c) => c,
            None => {
                proof {
                    assert forall|vs: Seq<Value>| conforms_fields(vs, ss@) implies arch_fields(
                        vs,
                        ss@,
                    ) != seg by {
                        if arch_fields(vs, ss@) == seg {
                            lemma_field_offset(vs, ss@, i as int);
                            lemma_arch_fields_len(vs, ss@);
                            assert(buf@.subrange(
                                (pos + off) as int,
                                (pos + off + spec_size(ss@[i as int])) as int,
                            ) =~= seg.subrange(
                                off as int,
                                (off + spec_size(ss@[i as int])) as int,
                            ));
                            assert(buf@.subrange(
                                (pos + off) as int,
                                (pos + off + spec_size(ss@[i as int])) as int,
                            ) == arch(vs[i as int], ss@[i as int]));
                        }
                    }
                }
                return None;
            },
        };
        proof {
            lemma_arch_fields_snoc(
                vals@,
                ss@.subrange(0, i as int),
                child,
                ss@[i as int],
            );
            assert(ss@.subrange(0, i + 1) =~= ss@.subrange(0, i as int).push(ss@[i as int]));
            assert(buf@.subrange(pos as int, (pos + off) as int) + buf@.subrange(
                (pos + off) as int,
                (pos + off + spec_size(ss@[i as int])) as int,
            ) =~= buf@.subrange(pos as int, (pos + off + spec_size(ss@[i as int])) as int));
        }
        vals.push(child);
        off = off + sz;
        i = i + 1;
    }
    proof {
        assert(ss@.subrange(0, ss@.len() as int) =~= ss@);
    }
    Some(vals)
}

/// Interprets the bytes at `pos` as the archived form of shape `s` and
/// reconstructs the value they came from: the executable side of the round
/// trip.  For every value `v` whose archived bytes sit at `pos`, the result
/// is a value observably equal to `v`; `None` comes back only for bytes no
/// conforming value archives to.
pub fn read_value(s: &Shape, buf: &Vec<u8>, pos: usize) -> (out: Option<Value>)
    requires
        pos + spec_size(*s) <= buf@.len(),
    ensures
        out matches Some(rv) ==> conforms(rv, *s) && arch(rv, *s) == buf@.subrange(
            pos as int,
            (pos + spec_size(*s)) as int,
        ),
        forall|v: Value|
            conforms(v, *s) && buf@.subrange(pos as int, (pos + spec_size(*s)) as int) == arch(
                v,
                *s,
            ) ==> (out matches Some(rv2) && val_eq(rv2, v)),
    decreases *s,
{
    proof {
        assert(buf.len() == buf@.len());
    }
    let ghost seg = buf@.subrange(pos as int, (pos + spec_size(*s)) as int);
    match s {
        Shape::Leaf { size } => {
            let mut bytes: Vec<u8> = Vec::new();
            let mut i: usize = 0;
            while i < *size
                invariant
                    i <= *size,
                    pos + *size <= buf@.len(),
                    bytes@ =~= buf@.subrange(pos as int, (pos + i) as int),
                decreases *size - i,
            {
                proof {
                    assert(buf.len() == buf@.len());
                }
                bytes.push(buf[pos + i]);
                i = i + 1;
                proof {
                    assert(bytes@ =~= buf@.subrange(pos as int, (pos + i) as int));
                }
            }
            let rv = Value::Leaf { bytes };
            proof {
                assert(arch(rv, *s) == seg);
                assert forall|v: Value|
                    conforms(v, *s) && seg == arch(v, *s) implies val_eq(rv, v) by {
                    lemma_arch_injective(rv, v, *s);
                }
            }
            Some(rv)
        },
        Shape::Record { fields: sf } => {
            match read_fields(sf, buf, pos) {
                Some(vals) => {
                    let rv = Value::Record { fields: vals };
                    proof {
                        assert(arch(rv, *s) == seg);
                        assert forall|v: Value|
                            conforms(v, *s) && seg == arch(v, *s) implies val_eq(rv, v) by {
                            lemma_arch_injective(rv, v, *s);
                        }
                    }
                    Some(rv)
                },
                None => {
                    proof {
                        assert forall|v: Value|
                            conforms(v, *s) && seg == arch(v, *s) implies false by {
                            assert(conforms_fields(v->Record_fields@, sf@));
                            assert(arch_fields(v->Record_fields@, sf@) == seg);
                        }
                    }
                    None
                },
            }
        },
        Shape::Variants { variants } => {
            let w = tag_width(variants.len());
            proof {
                assert(variants.len() == variants@.len());
                lemma_tag_width_fits(variants@.len() as nat);
                lemma_le_value_bound(buf@.subrange(pos as int, (pos + w) as int));
                reveal_with_fuel(pow256, 9);
                assert(spec_le_value(buf@.subrange(pos as int, (pos + w) as int)) <= u64::MAX);
            }
            let t64 = le_value_at(buf, pos, pos + w);
            let ghost tagseg = buf@.subrange(pos as int, (pos + w) as int);
            if t64 >= variants.len() as u64 {
                proof {
                    assert forall|v: Value|
                        conforms(v, *s) && seg == arch(v, *s) implies false by {
                        lemma_variant_index_from_tag(v, *s, buf@, pos as int);
                    }
                }
                return None;
            }
            let t = t64 as usize;
            proof {
                lemma_payload_le_max(variants@, t as int);
            }
            let ghost sfv = variants@[t as int].fields@;
            match read_fields(&variants[t].fields, buf, pos + w) {
                Some(vals) => {
                    let ghost psize = spec_fields_size(sfv);
                    let sz = fields_size_of(&variants[t].fields);
                    let total = size_of(s);
                    if !all_zero(buf, pos + w + sz, pos + total) {
                        proof {
                            let ghost bad = choose|k: int|
                                pos + w + sz <= k < pos + total && buf@[k] != 0;
                            assert forall|v: Value|
                                conforms(v, *s) && seg == arch(v, *s) implies false by {
                                lemma_variant_index_from_tag(v, *s, buf@, pos as int);
                                assert(v->Variant_index == t);
                                let payload = arch_fields(v->Variant_fields@, sfv);
                                lemma_arch_fields_len(v->Variant_fields@, sfv);
                                lemma_le_bytes_len(t as nat, w as nat);
                                assert(arch(v, *s) == spec_le_bytes(t as nat, w as nat) + payload
                                    + zeros((spec_size(*s) - w - psize) as nat));
                                assert(arch(v, *s)[bad - pos] == zeros(
                                    (spec_size(*s) - w - psize) as nat,
                                )[bad - pos - w - psize]);
                                assert(seg[bad - pos] == buf@[bad]);
                            }
                        }
                        return None;
                    }
                    let rv = Value::Variant { index: t, fields: vals };
                    proof {
                        let ghost pieces = tagseg + arch_fields(vals@, sfv) + zeros(
                            (spec_size(*s) - w - psize) as nat,
                        );
                        lemma_le_round_trip(t as nat, w as nat);
                        lemma_le_bytes_of_value(tagseg);
                        assert(spec_le_bytes(t as nat, w as nat) == tagseg);
                        lemma_arch_fields_len(vals@, sfv);
                        lemma_le_bytes_len(t as nat, w as nat);
                        assert(arch(rv, *s) == pieces);
                        assert forall|k: int| 0 <= k < spec_size(*s) implies pieces[k] == seg[k] by {
                            if k < w {
                                assert(pieces[k] == tagseg[k]);
                                assert(tagseg[k] == buf@[pos + k]);
                            } else if k < w + psize {
                                assert(pieces[k] == arch_fields(vals@, sfv)[k - w]);
                                assert(arch_fields(vals@, sfv)[k - w] == buf@.subrange(
                                    (pos + w) as int,
                                    pos + w + psize,
                                )[k - w]);
                            } else {
                                assert(buf@[pos + k] == 0);
                            }
                            assert(seg[k] == buf@[pos + k]);
                        }
                        assert(arch(rv, *s) =~= seg);
                        assert forall|v: Value|
                            conforms(v, *s) && seg == arch(v, *s) implies val_eq(rv, v) by {
                            lemma_arch_injective(rv, v, *s);
                        }
                    }
                    Some(rv)
                },
                None => {
                    proof {
                        assert forall|v: Value|
                            conforms(v, *s) && seg == arch(v, *s) implies false by {
                            lemma_variant_index_from_tag(v, *s, buf@, pos as int);
                            assert(v->Variant_index == t);
                            lemma_variant_fields_in_seg(v, *s, buf@, pos as int);
                        }
                    }
                    None
                },
            }
        },
    }
}

/// The discriminant bytes at the front of an archived variant value decode
/// back to the index of the variant that was archived.
proof fn lemma_variant_index_from_tag(v: Value, s: Shape, buf: Seq<u8>, pos: int)
    requires
        conforms(v, s),
        v is Variant,
        pos >= 0,
        pos + spec_size(s) <= buf.len(),
        buf.subrange(pos, pos + spec_size(s)) == arch(v, s),
        s->Variants_variants@.len() <= u64::MAX,
    ensures
        v->Variant_index as nat == spec_le_value(
            buf.subrange(pos, pos + spec_tag_width(s->Variants_variants@.len())),
        ),
{
    let variants = s->Variants_variants;
    let w = spec_tag_width(variants@.len());
    let index = v->Variant_index;
    lemma_variant_tag_at_zero(v, s);
    lemma_arch_len(v, s);
    lemma_le_bytes_len(index as nat, w);
    assert(buf.subrange(pos, pos + w) =~= arch(v, s).subrange(0, w as int));
    lemma_tag_width_fits(variants@.len() as nat);
    lemma_le_round_trip(index as nat, w);
}

/// The payload bytes of an archived variant value sit right after its
/// discriminant.
proof fn lemma_variant_fields_in_seg(v: Value, s: Shape, buf: Seq<u8>, pos: int)
    requires
        conforms(v, s),
        v is Variant,
        pos >= 0,
        pos + spec_size(s) <= buf.len(),
        buf.subrange(pos, pos + spec_size(s)) == arch(v, s),
    ensures
        arch_fields(
            v->Variant_fields@,
            s->Variants_variants@[v->Variant_index as int].fields@,
        ) == buf.subrange(
            pos + spec_tag_width(s->Variants_variants@.len()),
            pos + spec_tag_width(s->Variants_variants@.len()) + spec_fields_size(
                s->Variants_variants@[v->Variant_index as int].fields@,
            ),
        ),
{
    let variants = s->Variants_variants;
    let w = spec_tag_width(variants@.len());
    let index = v->Variant_index;
    let sfv = variants@[index as int].fields@;
    let tagb = spec_le_bytes(index as nat, w);
    let payload = arch_fields(v->Variant_fields@, sfv);
    lemma_le_bytes_len(index as nat, w);
    lemma_arch_fields_len(v->Variant_fields@, sfv);
    lemma_payload_le_max(variants@, index as int);
    let pad = zeros((spec_size(s) - w - payload.len()) as nat);
    assert(arch(v, s) == tagb + payload + pad);
    lemma_arch_len(v, s);
    assert forall|k: int|
        0 <= k < payload.len() implies payload[k] == buf.subrange(
        pos + w,
        pos + w + payload.len(),
    )[k] by {
        assert((tagb + payload + pad)[w + k] == payload[k]);
        assert(buf.subrange(pos, pos + spec_size(s))[w + k] == buf[pos + w + k]);
    }
    assert(payload =~= buf.subrange(pos + w, pos + w + payload.len()));
}

/// The copy-safe fast path is content-identical: a leaf value's archived
/// bytes are exactly its own byte image, whatever position it is resolved
/// at — no resolver-driven transformation occurs.
pub proof fn lemma_copy_safe_identity(v: Value, s: Shape)
    requires
        v is Leaf,
    ensures
        arch(v, s) == v->Leaf_bytes@,
{
}

pub proof fn lemma_conforms_fields_drop(vs: Seq<Value>, ss: Seq<Shape>)
    requires
        conforms_fields(vs, ss),
        vs.len() > 0,
    ensures
        conforms_fields(vs.drop_first(), ss.drop_first()),
{
    assert(forall|i: int| 0 <= i < vs.len() - 1 ==> #[trigger] vs.drop_first()[i] == vs[i + 1]);
}

proof fn lemma_concat_subrange_left(a: Seq<u8>, b: Seq<u8>)
    ensures
        (a + b).subrange(0, a.len() as int) == a,
{
    assert((a + b).subrange(0, a.len() as int) =~= a);
}

proof fn lemma_concat_subrange_right(a: Seq<u8>, b: Seq<u8>, x: int, y: int)
    requires
        0 <= x <= y <= b.len(),
    ensures
        (a + b).subrange(a.len() + x, a.len() + y) == b.subrange(x, y),
{
    assert((a + b).subrange(a.len() + x, a.len() + y) =~= b.subrange(x, y));
}

/// Offset correctness for records: within an archived field list, field `i`
/// occupies exactly the bytes from its offset to its offset plus its size,
/// so a child resolved at `parent_position + offset` lands byte-exactly.
pub proof fn lemma_field_offset(vs: Seq<Value>, ss: Seq<Shape>, i: int)
    requires
        conforms_fields(vs, ss),
        0 <= i < vs.len(),
    ensures
        arch_fields(vs, ss).subrange(
            spec_offset(ss, i) as int,
            (spec_offset(ss, i) + spec_size(ss[i])) as int,
        ) == arch(vs[i], ss[i]),
    decreases i,
{
    let a0 = arch(vs[0], ss[0]);
    let rest = arch_fields(vs.drop_first(), ss.drop_first());
    lemma_arch_len(vs[0], ss[0]);
    lemma_conforms_fields_drop(vs, ss);
    lemma_arch_fields_len(vs.drop_first(), ss.drop_first());
    if i == 0 {
        assert(ss.subrange(0, 0) =~= Seq::<Shape>::empty());
        lemma_concat_subrange_left(a0, rest);
    } else {
        lemma_field_offset(vs.drop_first(), ss.drop_first(), i - 1);
        assert(ss.subrange(0, i).drop_first() =~= ss.drop_first().subrange(0, i - 1));
        assert(ss.subrange(0, i)[0] == ss[0]);
        assert(spec_offset(ss, i) == spec_size(ss[0]) + spec_offset(ss.drop_first(), i - 1));
        lemma_field_in_bounds(ss.drop_first(), i - 1);
        lemma_concat_subrange_right(
            a0,
            rest,
            spec_offset(ss.drop_first(), i - 1) as int,
            (spec_offset(ss.drop_first(), i - 1) + spec_size(ss.drop_first()[i - 1])) as int,
        );
        assert(vs.drop_first()[i - 1] == vs[i]);
        assert(ss.drop_first()[i - 1] == ss[i]);
    }
}

/// The discriminant of an archived variant value sits at byte offset zero,
/// whatever the payload shape.
pub proof fn lemma_variant_tag_at_zero(v: Value, s: Shape)
    requires
        conforms(v, s),
        v is Variant,
    ensures
        arch(v, s).subrange(
            0,
            spec_tag_width(s->Variants_variants@.len()) as int,
        ) == spec_le_bytes(
            v->Variant_index as nat,
            spec_tag_width(s->Variants_variants@.len()),
        ),
{
    let variants = s->Variants_variants;
    let w = spec_tag_width(variants@.len());
    let index = v->Variant_index;
    let fields = v->Variant_fields;
    let tagb = spec_le_bytes(index as nat, w);
    let payload = arch_fields(fields@, variants@[index as int].fields@);
    lemma_le_bytes_len(index as nat, w);
    lemma_arch_fields_len(fields@, variants@[index as int].fields@);
    lemma_payload_le_max(variants@, index as int);
    if w + payload.len() <= spec_size(s) {
        let pad = zeros((spec_size(s) - w - payload.len()) as nat);
        assert(arch(v, s) == tagb + payload + pad);
        assert((tagb + payload + pad).subrange(0, w as int) =~= tagb);
    }
}

/// Offset correctness for variants: payload field `i` of an archived
/// variant value occupies the bytes starting at the discriminant width plus
/// the field's offset within its variant's own layout.
pub proof fn lemma_variant_field_offset(v: Value, s: Shape, i: int)
    requires
        conforms(v, s),
        v is Variant,
        0 <= i < v->Variant_fields@.len(),
    ensures
        arch(v, s).subrange(
            (spec_tag_width(s->Variants_variants@.len()) + spec_offset(
                s->Variants_variants@[v->Variant_index as int].fields@,
                i,
            )) as int,
            (spec_tag_width(s->Variants_variants@.len()) + spec_offset(
                s->Variants_variants@[v->Variant_index as int].fields@,
                i,
            ) + spec_size(s->Variants_variants@[v->Variant_index as int].fields@[i])) as int,
        ) == arch(
            v->Variant_fields@[i],
            s->Variants_variants@[v->Variant_index as int].fields@[i],
        ),
{
    let variants = s->Variants_variants;
    let w = spec_tag_width(variants@.len());
    let index = v->Variant_index;
    let fields = v->Variant_fields;
    let sfv = variants@[index as int].fields@;
    let tagb = spec_le_bytes(index as nat, w);
    let payload = arch_fields(fields@, sfv);
    lemma_le_bytes_len(index as nat, w);
    lemma_arch_fields_len(fields@, sfv);
    lemma_payload_le_max(variants@, index as int);
    lemma_field_offset(fields@, sfv, i);
    lemma_field_in_bounds(sfv, i);
    let pad = zeros((spec_size(s) - w - payload.len()) as nat);
    assert(arch(v, s) == tagb + payload + pad);
    let x = spec_offset(sfv, i) as int;
    let y = (spec_offset(sfv, i) + spec_size(sfv[i])) as int;
    assert((tagb + payload + pad).subrange(w as int + x, w as int + y) =~= payload.subrange(
        x,
        y,
    ));
}

/// Round trip at the byte level: a conforming value is determined, field by
/// field and recursively, by its archived bytes.  Interpreting the bytes a
/// resolve produced can only yield the value they came from.
pub proof fn lemma_arch_injective(a: Value, b: Value, s: Shape)
    requires
        conforms(a, s),
        conforms(b, s),
        arch(a, s) == arch(b, s),
    ensures
        val_eq(a, b),
    decreases a,
{
    match a {
        Value::Leaf { bytes } => {},
        Value::Record { fields } => {
            let ss = s->Record_fields;
            let fb = b->Record_fields;
            lemma_arch_fields_injective(fields@, fb@, ss@);
        },
        Value::Variant { index, fields } => {
            let variants = s->Variants_variants;
            let w = spec_tag_width(variants@.len());
            let ib = b->Variant_index;
            let fb = b->Variant_fields;
            assert(variants.len() == variants@.len());
            lemma_tag_width_fits(variants@.len() as nat);
            lemma_variant_tag_at_zero(a, s);
            lemma_variant_tag_at_zero(b, s);
            assert(spec_le_bytes(index as nat, w) == spec_le_bytes(ib as nat, w));
            lemma_le_round_trip(index as nat, w);
            lemma_le_round_trip(ib as nat, w);
            assert(index == ib);
            let sfv = variants@[index as int].fields@;
            let pa = arch_fields(fields@, sfv);
            let pb = arch_fields(fb@, sfv);
            lemma_arch_fields_len(fields@, sfv);
            lemma_arch_fields_len(fb@, sfv);
            lemma_le_bytes_len(index as nat, w);
            lemma_payload_le_max(variants@, index as int);
            assert(pa == pb) by {
                let tagb = spec_le_bytes(index as nat, w);
                let pada = zeros((spec_size(s) - w - pa.len()) as nat);
                assert(arch(a, s) == tagb + pa + pada);
                assert(arch(b, s) == tagb + pb + pada);
                assert(pa =~= pb) by {
                    assert(forall|k: int|
                        0 <= k < pa.len() ==> pa[k] == (tagb + pa + pada)[w + k] && pb[k] == (tagb
                            + pb + pada)[w + k]);
                }
            }
            lemma_arch_fields_injective(fields@, fb@, sfv);
        },
    }
}

pub proof fn lemma_arch_fields_injective(a: Seq<Value>, b: Seq<Value>, ss: Seq<Shape>)
    requires
        conforms_fields(a, ss),
        conforms_fields(b, ss),
        arch_fields(a, ss) == arch_fields(b, ss),
    ensures
        vals_eq(a, b),
    decreases a,
{
    if a.len() > 0 {
        let ha = arch(a[0], ss[0]);
        let hb = arch(b[0], ss[0]);
        let ta = arch_fields(a.drop_first(), ss.drop_first());
        let tb = arch_fields(b.drop_first(), ss.drop_first());
        lemma_arch_len(a[0], ss[0]);
        lemma_arch_len(b[0], ss[0]);
        lemma_conforms_fields_drop(a, ss);
        lemma_conforms_fields_drop(b, ss);
        lemma_arch_fields_len(a.drop_first(), ss.drop_first());
        lemma_arch_fields_len(b.drop_first(), ss.drop_first());
        lemma_concat_subrange_left(ha, ta);
        lemma_concat_subrange_left(hb, tb);
        lemma_arch_injective(a[0], b[0], ss[0]);
        lemma_concat_subrange_right(ha, ta, 0, ta.len() as int);
        lemma_concat_subrange_right(hb, tb, 0, tb.len() as int);
        assert(ta.subrange(0, ta.len() as int) =~= ta);
        assert(tb.subrange(0, tb.len() as int) =~= tb);
        lemma_arch_fields_injective(a.drop_first(), b.drop_first(), ss.drop_first());
        assert forall|i: int| 0 <= i < a.len() implies val_eq(#[trigger] a[i], b[i]) by {
            if i > 0 {
                assert(a.drop_first()[i - 1] == a[i]);
                assert(b.drop_first()[i - 1] == b[i]);
                assert(val_eq(a.drop_first()[i - 1], b.drop_first()[i - 1]));
            }
        }
    }
}

} // verus!
