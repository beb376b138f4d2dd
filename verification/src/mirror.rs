//! The structural mirror generator.
//!
//! Given the declared shape of a value type — a record with named, unnamed
//! or no fields, or a tagged-variant type — this module synthesizes the
//! matching *resolver* and *archived* declarations: one generated field per
//! source field, in source order, referencing the resolver (respectively the
//! archived form) of the field's own type, with the archive capability
//! required of every field type.  For variant types it additionally sizes
//! the discriminant, emits the discriminant-only marker with the variants in
//! source order, and emits one independent archived-payload layout per
//! variant, each beginning with the shared discriminant.  A raw union has no
//! well-defined per-field capability to mirror and is rejected.
//!
//! Identifiers and type expressions are carried as interned symbols: the
//! generator decides only the structure of the output, never spelling.

use vstd::prelude::*;
use crate::tag::{spec_tag_width, tag_width};

verus! {

/// A named field of the source type: interned field name and type.
#[derive(Clone, Copy, PartialEq, Eq, Debug, Structural)]
pub struct NamedField {
    pub name: u64,
    pub ty: u64,
}

/// An unnamed (positional) field of the source type.
#[derive(Clone, Copy, PartialEq, Eq, Debug, Structural)]
pub struct UnnamedField {
    pub ty: u64,
}

/// The field list of a record or of one variant's payload.
#[derive(Clone, PartialEq, Eq, Debug)]
pub enum FieldList {
    Named(Vec<NamedField>),
    Unnamed(Vec<UnnamedField>),
    Unit,
}

/// One variant of a tagged-variant source type.
#[derive(Clone, PartialEq, Eq, Debug)]
pub struct VariantDef {
    pub ident: u64,
    pub fields: FieldList,
}

/// The declared shape of a source type.
#[derive(Clone, PartialEq, Eq, Debug)]
pub enum TypeData {
    Struct(FieldList),
    Enum(Vec<VariantDef>),
    Union,
}

/// A source type handed to the generator: its name, its type parameters,
/// its where-clause predicates (both opaque symbols, passed through
/// verbatim), and its shape.
#[derive(Clone, PartialEq, Eq, Debug)]
pub struct TypeDef {
    pub ident: u64,
    pub generics: Vec<u64>,
    pub predicates: Vec<u64>,
    pub data: TypeData,
}

/// A type expression appearing in a generated declaration.
#[derive(Clone, Copy, PartialEq, Eq, Debug, Structural)]
pub enum GenTy {
    /// The resolver of the source field type with this symbol.
    ResolverOf { ty: u64 },
    /// The archived form of the source field type with this symbol.
    ArchivedOf { ty: u64 },
}

/// A generated named field.
#[derive(Clone, Copy, PartialEq, Eq, Debug, Structural)]
pub struct GenNamedField {
    pub name: u64,
    pub ty: GenTy,
}

/// A generated field list, mirroring the source field list's style.
#[derive(Clone, PartialEq, Eq, Debug)]
pub enum GenFieldList {
    Named(Vec<GenNamedField>),
    Unnamed(Vec<GenTy>),
    Unit,
}

/// A generated variant of the resolver or archived enum.
#[derive(Clone, PartialEq, Eq, Debug)]
pub struct GenVariant {
    pub ident: u64,
    pub fields: GenFieldList,
}

/// One entry of a variant's dedicated archived-payload layout.
#[derive(Clone, Copy, PartialEq, Eq, Debug, Structural)]
pub enum LayoutField {
    /// The discriminant shared by every variant, always at the front.
    Tag,
    /// The archived form of a named payload field.
    Named { name: u64, ty: u64 },
    /// The archived form of an unnamed payload field.
    Unnamed { ty: u64 },
}

/// The dedicated layout of one variant: unit variants need none.
#[derive(Clone, PartialEq, Eq, Debug)]
pub enum VariantLayout {
    Absent,
    Layout { ident: u64, fields: Vec<LayoutField> },
}

/// The generated mirror of a record type.
#[derive(Clone, PartialEq, Eq, Debug)]
pub struct RecordMirror {
    /// Type parameters, copied verbatim from the source type.
    pub generics: Vec<u64>,
    /// Where-clause predicates, copied verbatim from the source type.
    pub predicates: Vec<u64>,
    /// Field types that the generated code requires the archive capability
    /// of, in declaration order.
    pub bounds: Vec<u64>,
    pub resolver_fields: GenFieldList,
    pub archived_fields: GenFieldList,
}

/// The generated mirror of a tagged-variant type.
#[derive(Clone, PartialEq, Eq, Debug)]
pub struct VariantMirror {
    pub generics: Vec<u64>,
    pub predicates: Vec<u64>,
    /// Payload field types requiring the capability, variant by variant in
    /// source order.
    pub bounds: Vec<u64>,
    pub resolver_variants: Vec<GenVariant>,
    pub archived_variants: Vec<GenVariant>,
    /// Bytes of the on-wire discriminant, smallest width that enumerates
    /// every variant.
    pub tag_width: usize,
    /// The discriminant-only marker: variant idents in source order, since
    /// the numeric tag value is positional.
    pub tag_variants: Vec<u64>,
    /// One independent archived-payload layout per variant, each beginning
    /// with the shared discriminant.
    pub variant_layouts: Vec<VariantLayout>,
}

/// Everything the generator emits for one source type.
#[derive(Clone, PartialEq, Eq, Debug)]
pub enum MirrorPlan {
    /// Record with fields: a resolver type and an archived type, one field
    /// per source field.
    Record(RecordMirror),
    /// Record without fields: the resolver is a unit marker and the archived
    /// form is the value type itself.
    UnitRecord { generics: Vec<u64>, predicates: Vec<u64> },
    /// Tagged-variant type.
    Variants(VariantMirror),
}

/// Why the generator refused a source type.
#[derive(Clone, Copy, PartialEq, Eq, Debug, Structural)]
pub enum MirrorError {
    /// Raw unions have no per-field capability to mirror.
    UnionType,
    /// A variant type may take the copy-safe fast path only after asserting
    /// that its discriminant representation is fixed and explicit.
    MissingReprAssertion,
    /// An attribute had a shape the scanner does not accept.
    UnsupportedAttrShape,
    /// An attribute could not be parsed at all.
    UnparsableAttr,
    /// Attributes must be outer attributes.
    InnerAttr,
}

impl MirrorError {
    /// The description reported alongside the rejection.
    pub open spec fn spec_message(&self) -> Seq<char> {
        match self {
            MirrorError::UnionType => "Archive cannot be derived for unions"@,
            MirrorError::MissingReprAssertion => "enum may be an invalid repr, make sure the enum has #[repr(u*)] or #[repr(i*)] then add #[archive(repr_set)]"@,
            MirrorError::UnsupportedAttrShape => "unsupported attribute type, expected path"@,
            MirrorError::UnparsableAttr => "unable to parse attribute"@,
            MirrorError::InnerAttr => "attributes must be outer"@,
        }
    }

    pub fn message(&self) -> (r: &'static str)
        ensures
            r@ == self.spec_message(),
    {
        match self {
            MirrorError::UnionType => "Archive cannot be derived for unions",
            MirrorError::MissingReprAssertion => "enum may be an invalid repr, make sure the enum has #[repr(u*)] or #[repr(i*)] then add #[archive(repr_set)]",
            MirrorError::UnsupportedAttrShape => "unsupported attribute type, expected path",
            MirrorError::UnparsableAttr => "unable to parse attribute",
            MirrorError::InnerAttr => "attributes must be outer",
        }
    }
}

/// The field types of a field list, in declaration order.
pub open spec fn field_tys(f: FieldList) -> Seq<u64> {
    match f {
        FieldList::Named(fs) => fs@.map_values(|x: NamedField| x.ty),
        FieldList::Unnamed(fs) => fs@.map_values(|x: UnnamedField| x.ty),
        FieldList::Unit => Seq::empty(),
    }
}

/// The payload field types of a variant list, variant by variant.
pub open spec fn variant_tys(vs: Seq<VariantDef>) -> Seq<u64>
    decreases vs,
{
    if vs.len() == 0 {
        Seq::empty()
    } else {
        field_tys(vs[0].fields) + variant_tys(vs.drop_first())
    }
}

/// The generated resolver field list mirrors the source field list: same
/// style, same length, same names in order, each field typed as the
/// resolver of the source field's type.
pub open spec fn resolver_mirrors(g: GenFieldList, f: FieldList) -> bool {
    match f {
        FieldList::Named(fs) => g matches GenFieldList::Named(rs) && rs@.len() == fs@.len()
            && (forall|i: int|
            0 <= i < fs@.len() ==> #[trigger] rs@[i] == (GenNamedField {
                name: fs@[i].name,
                ty: GenTy::ResolverOf { ty: fs@[i].ty },
            })),
        FieldList::Unnamed(fs) => g matches GenFieldList::Unnamed(ts) && ts@.len() == fs@.len()
            && (forall|i: int|
            0 <= i < fs@.len() ==> #[trigger] ts@[i] == (GenTy::ResolverOf { ty: fs@[i].ty })),
        FieldList::Unit => g is Unit,
    }
}

/// Likewise for the archived field list.
pub open spec fn archived_mirrors(g: GenFieldList, f: FieldList) -> bool {
    match f {
        FieldList::Named(fs) => g matches GenFieldList::Named(rs) && rs@.len() == fs@.len()
            && (forall|i: int|
            0 <= i < fs@.len() ==> #[trigger] rs@[i] == (GenNamedField {
                name: fs@[i].name,
                ty: GenTy::ArchivedOf { ty: fs@[i].ty },
            })),
        FieldList::Unnamed(fs) => g matches GenFieldList::Unnamed(ts) && ts@.len() == fs@.len()
            && (forall|i: int|
            0 <= i < fs@.len() ==> #[trigger] ts@[i] == (GenTy::ArchivedOf { ty: fs@[i].ty })),
        FieldList::Unit => g is Unit,
    }
}

/// A variant's dedicated layout starts with the shared discriminant and then
/// mirrors the payload fields, archived, in order.  Unit variants get no
/// layout of their own.
pub open spec fn layout_mirrors(l: VariantLayout, v: VariantDef) -> bool {
    match v.fields {
        FieldList::Named(fs) => l matches VariantLayout::Layout { ident, fields } && ident
            == v.ident && fields@.len() == fs@.len() + 1 && fields@[0] == LayoutField::Tag && (
        forall|i: int|
            0 <= i < fs@.len() ==> #[trigger] fields@[i + 1] == (LayoutField::Named {
                name: fs@[i].name,
                ty: fs@[i].ty,
            })),
        FieldList::Unnamed(fs) => l matches VariantLayout::Layout { ident, fields } && ident
            == v.ident && fields@.len() == fs@.len() + 1 && fields@[0] == LayoutField::Tag && (
        forall|i: int|
            0 <= i < fs@.len() ==> #[trigger] fields@[i + 1] == (LayoutField::Unnamed {
                ty: fs@[i].ty,
            })),
        FieldList::Unit => l is Absent,
    }
}

/// The full contract of the variant-type mirror.
pub open spec fn variant_plan_mirrors(m: VariantMirror, def: TypeDef, vs: Seq<VariantDef>) -> bool {
    &&& m.generics@ == def.generics@
    &&& m.predicates@ == def.predicates@
    &&& m.bounds@ == variant_tys(vs)
    &&& m.tag_width == spec_tag_width(vs.len())
    &&& m.tag_variants@ == vs.map_values(|v: VariantDef| v.ident)
    &&& m.resolver_variants@.len() == vs.len()
    &&& forall|i: int|
        0 <= i < vs.len() ==> (#[trigger] m.resolver_variants@[i]).ident == vs[i].ident
            && resolver_mirrors(m.resolver_variants@[i].fields, vs[i].fields)
    &&& m.archived_variants@.len() == vs.len()
    &&& forall|i: int|
        0 <= i < vs.len() ==> (#[trigger] m.archived_variants@[i]).ident == vs[i].ident
            && archived_mirrors(m.archived_variants@[i].fields, vs[i].fields)
    &&& m.variant_layouts@.len() == vs.len()
    &&& forall|i: int| 0 <= i < vs.len() ==> layout_mirrors(#[trigger] m.variant_layouts@[i], vs[i])
}

/// The mirroring invariant: the resolver's and the archived form's field
/// lists have the same style, count, order and field names as the source
/// type's field list, so that offset computation (by field) and resolver
/// consumption (by field) stay in lockstep.
pub proof fn lemma_mirror_lockstep(g1: GenFieldList, g2: GenFieldList, f: FieldList)
    requires
        resolver_mirrors(g1, f),
        archived_mirrors(g2, f),
    ensures
        f matches FieldList::Named(fs) ==> (g1 matches GenFieldList::Named(r1) && g2
            matches GenFieldList::Named(r2) && r1@.len() == fs@.len() && r2@.len() == fs@.len()
            && (forall|i: int|
            0 <= i < fs@.len() ==> (#[trigger] r1@[i]).name == fs@[i].name && (
            #[trigger] r2@[i]).name == fs@[i].name)),
        f matches FieldList::Unnamed(fs) ==> (g1 matches GenFieldList::Unnamed(t1) && g2
            matches GenFieldList::Unnamed(t2) && t1@.len() == fs@.len() && t2@.len() == fs@.len()),
        f is Unit ==> g1 is Unit && g2 is Unit,
{
}

/// Copies a symbol list.
pub(crate) fn copy_syms(xs: &Vec<u64>) -> (out: Vec<u64>)
    ensures
        out@ == xs@,
{
    let mut out: Vec<u64> = Vec::new();
    let mut i: usize = 0;
    while i < xs.len()
        invariant
            i <= xs@.len(),
            out@ =~= xs@.subrange(0, i as int),
        decreases xs@.len() - i,
    {
        out.push(xs[i]);
        i = i + 1;
    }
    proof {
        assert(xs@.subrange(0, xs@.len() as int) =~= xs@);
    }
    out
}

/// Generates the resolver field list for one source field list.
fn gen_resolver_fields(f: &FieldList) -> (g: GenFieldList)
    ensures
        resolver_mirrors(g, *f),
{
    match f {
        FieldList::Named(fs) => {
            let mut rs: Vec<GenNamedField> = Vec::new();
            let mut i: usize = 0;
            while i < fs.len()
                invariant
                    i <= fs@.len(),
                    rs@.len() == i,
                    forall|j: int|
                        0 <= j < i ==> #[trigger] rs@[j] == (GenNamedField {
                            name: fs@[j].name,
                            ty: GenTy::ResolverOf { ty: fs@[j].ty },
                        }),
                decreases fs@.len() - i,
            {
                rs.push(GenNamedField { name: fs[i].name, ty: GenTy::ResolverOf { ty: fs[i].ty } });
                i = i + 1;
            }
            GenFieldList::Named(rs)
        },
        FieldList::Unnamed(fs) => {
            let mut ts: Vec<GenTy> = Vec::new();
            let mut i: usize = 0;
            while i < fs.len()
                invariant
                    i <= fs@.len(),
                    ts@.len() == i,
                    forall|j: int|
                        0 <= j < i ==> #[trigger] ts@[j] == (GenTy::ResolverOf { ty: fs@[j].ty }),
                decreases fs@.len() - i,
            {
                ts.push(GenTy::ResolverOf { ty: fs[i].ty });
                i = i + 1;
            }
            GenFieldList::Unnamed(ts)
        },
        FieldList::Unit => GenFieldList::Unit,
    }
}

/// Generates the archived field list for one source field list.
fn gen_archived_fields(f: &FieldList) -> (g: GenFieldList)
    ensures
        archived_mirrors(g, *f),
{
    match f {
        FieldList::Named(fs) => {
            let mut rs: Vec<GenNamedField> = Vec::new();
            let mut i: usize = 0;
            while i < fs.len()
                invariant
                    i <= fs@.len(),
                    rs@.len() == i,
                    forall|j: int|
                        0 <= j < i ==> #[trigger] rs@[j] == (GenNamedField {
                            name: fs@[j].name,
                            ty: GenTy::ArchivedOf { ty: fs@[j].ty },
                        }),
                decreases fs@.len() - i,
            {
                rs.push(GenNamedField { name: fs[i].name, ty: GenTy::ArchivedOf { ty: fs[i].ty } });
                i = i + 1;
            }
            GenFieldList::Named(rs)
        },
        FieldList::Unnamed(fs) => {
            let mut ts: Vec<GenTy> = Vec::new();
            let mut i: usize = 0;
            while i < fs.len()
                invariant
                    i <= fs@.len(),
                    ts@.len() == i,
                    forall|j: int|
                        0 <= j < i ==> #[trigger] ts@[j] == (GenTy::ArchivedOf { ty: fs@[j].ty }),
                decreases fs@.len() - i,
            {
                ts.push(GenTy::ArchivedOf { ty: fs[i].ty });
                i = i + 1;
            }
            GenFieldList::Unnamed(ts)
        },
        FieldList::Unit => GenFieldList::Unit,
    }
}

/// Appends the field types of `f` to `bounds`.
pub(crate) fn push_field_tys(bounds: &mut Vec<u64>, f: &FieldList)
    ensures
        final(bounds)@ == old(bounds)@ + field_tys(*f),
{
    match f {
        FieldList::Named(fs) => {
            let mut i: usize = 0;
            while i < fs.len()
                invariant
                    i <= fs@.len(),
                    bounds@ =~= old(bounds)@ + fs@.subrange(0, i as int).map_values(
                        |x: NamedField| x.ty,
                    ),
                decreases fs@.len() - i,
            {
                bounds.push(fs[i].ty);
                i = i + 1;
                proof {
                    assert(bounds@ =~= old(bounds)@ + fs@.subrange(0, i as int).map_values(
                        |x: NamedField| x.ty,
                    ));
                }
            }
            proof {
                assert(fs@.subrange(0, fs@.len() as int) =~= fs@);
            }
        },
        FieldList::Unnamed(fs) => {
            let mut i: usize = 0;
            while i < fs.len()
                invariant
                    i <= fs@.len(),
                    bounds@ =~= old(bounds)@ + fs@.subrange(0, i as int).map_values(
                        |x: UnnamedField| x.ty,
                    ),
                decreases fs@.len() - i,
            {
                bounds.push(fs[i].ty);
                i = i + 1;
                proof {
                    assert(bounds@ =~= old(bounds)@ + fs@.subrange(0, i as int).map_values(
                        |x: UnnamedField| x.ty,
                    ));
                }
            }
            proof {
                assert(fs@.subrange(0, fs@.len() as int) =~= fs@);
            }
        },
        FieldList::Unit => {
            proof {
                assert(bounds@ =~= old(bounds)@ + field_tys(*f));
            }
        },
    }
}

/// Generates the dedicated archived-payload layout of one variant: the
/// shared discriminant first, then the archived payload fields.
fn gen_variant_layout(v: &VariantDef) -> (l: VariantLayout)
    ensures
        layout_mirrors(l, *v),
{
    match &v.fields {
        FieldList::Named(fs) => {
            let mut fields: Vec<LayoutField> = Vec::new();
            fields.push(LayoutField::Tag);
            let mut i: usize = 0;
            while i < fs.len()
                invariant
                    i <= fs@.len(),
                    fields@.len() == i + 1,
                    fields@[0] == LayoutField::Tag,
                    forall|j: int|
                        0 <= j < i ==> #[trigger] fields@[j + 1] == (LayoutField::Named {
                            name: fs@[j].name,
                            ty: fs@[j].ty,
                        }),
                decreases fs@.len() - i,
            {
                fields.push(LayoutField::Named { name: fs[i].name, ty: fs[i].ty });
                i = i + 1;
            }
            VariantLayout::Layout { ident: v.ident, fields }
        },
        FieldList::Unnamed(fs) => {
            let mut fields: Vec<LayoutField> = Vec::new();
            fields.push(LayoutField::Tag);
            let mut i: usize = 0;
            while i < fs.len()
                invariant
                    i <= fs@.len(),
                    fields@.len() == i + 1,
                    fields@[0] == LayoutField::Tag,
                    forall|j: int|
                        0 <= j < i ==> #[trigger] fields@[j + 1] == (LayoutField::Unnamed {
                            ty: fs@[j].ty,
                        }),
                decreases fs@.len() - i,
            {
                fields.push(LayoutField::Unnamed { ty: fs[i].ty });
                i = i + 1;
            }
            VariantLayout::Layout { ident: v.ident, fields }
        },
        FieldList::Unit => VariantLayout::Absent,
    }
}

/// `variant_tys` over one more variant appends that variant's field types.
pub(crate) proof fn lemma_variant_tys_snoc(vs: Seq<VariantDef>, v: VariantDef)
    ensures
        variant_tys(vs.push(v)) == variant_tys(vs) + field_tys(v.fields),
    decreases vs,
{
    if vs.len() == 0 {
        assert(vs.push(v)[0] == v);
        assert(vs.push(v).drop_first() =~= Seq::<VariantDef>::empty());
        assert(variant_tys(vs) == Seq::<u64>::empty());
        assert(variant_tys(vs.push(v).drop_first()) == Seq::<u64>::empty());
        assert(variant_tys(vs.push(v)) == field_tys(v.fields) + Seq::<u64>::empty());
        assert(variant_tys(vs.push(v)) =~= variant_tys(vs) + field_tys(v.fields));
    } else {
        assert(vs.push(v)[0] == vs[0]);
        assert(vs.push(v).drop_first() =~= vs.drop_first().push(v));
        lemma_variant_tys_snoc(vs.drop_first(), v);
        assert(variant_tys(vs.push(v)) =~= variant_tys(vs) + field_tys(v.fields));
    }
}

/// Synthesizes the mirror of one source type: the resolver and archived
/// declarations that implement the archive capability by recursive field
/// dispatch.  Succeeds for every record and tagged-variant type and fails
/// exactly on raw unions, which have no per-field capability to mirror.
pub fn mirror_type(def: &TypeDef) -> (r: Result<MirrorPlan, MirrorError>)
    ensures
        r is Ok <==> !(def.data is Union),
        def.data is Union ==> r == Err::<MirrorPlan, MirrorError>(MirrorError::UnionType),
        def.data matches TypeData::Struct(fl) ==> (if fl is Unit {
            r matches Ok(p) && p matches MirrorPlan::UnitRecord { generics, predicates }
                && generics@ == def.generics@ && predicates@ == def.predicates@
        } else {
            r matches Ok(p) && p matches MirrorPlan::Record(m) && m.generics@ == def.generics@
                && m.predicates@ == def.predicates@ && m.bounds@ == field_tys(fl)
                && resolver_mirrors(m.resolver_fields, fl) && archived_mirrors(
                m.archived_fields,
                fl,
            )
        }),
        def.data matches TypeData::Enum(vs) ==> (r matches Ok(p) && p matches MirrorPlan::Variants(
            m,
        ) && variant_plan_mirrors(m, *def, vs@)),
{
    match &def.data {
        TypeData::Struct(fl) => {
            match fl {
                FieldList::Unit => Ok(
                    MirrorPlan::UnitRecord {
                        generics: copy_syms(&def.generics),
                        predicates: copy_syms(&def.predicates),
                    },
                ),
                _ => {
                    let mut bounds: Vec<u64> = Vec::new();
                    push_field_tys(&mut bounds, fl);
                    let resolver_fields = gen_resolver_fields(fl);
                    let archived_fields = gen_archived_fields(fl);
                    Ok(
                        MirrorPlan::Record(
                            RecordMirror {
                                generics: copy_syms(&def.generics),
                                predicates: copy_syms(&def.predicates),
                                bounds,
                                resolver_fields,
                                archived_fields,
                            },
                        ),
                    )
                },
            }
        },
        TypeData::Enum(vs) => {
            let mut bounds: Vec<u64> = Vec::new();
            let mut resolver_variants: Vec<GenVariant> = Vec::new();
            let mut archived_variants: Vec<GenVariant> = Vec::new();
            let mut tag_variants: Vec<u64> = Vec::new();
            let mut variant_layouts: Vec<VariantLayout> = Vec::new();
            let mut i: usize = 0;
            proof {
                assert(vs@.subrange(0, 0) =~= Seq::<VariantDef>::empty());
            }
            while i < vs.len()
                invariant
                    i <= vs@.len(),
                    bounds@ == variant_tys(vs@.subrange(0, i as int)),
                    resolver_variants@.len() == i,
                    archived_variants@.len() == i,
                    tag_variants@.len() == i,
                    variant_layouts@.len() == i,
                    forall|j: int|
                        0 <= j < i ==> (#[trigger] resolver_variants@[j]).ident == vs@[j].ident
                            && resolver_mirrors(resolver_variants@[j].fields, vs@[j].fields),
                    forall|j: int|
                        0 <= j < i ==> (#[trigger] archived_variants@[j]).ident == vs@[j].ident
                            && archived_mirrors(archived_variants@[j].fields, vs@[j].fields),
                    forall|j: int| 0 <= j < i ==> #[trigger] tag_variants@[j] == vs@[j].ident,
                    forall|j: int|
                        0 <= j < i ==> layout_mirrors(#[trigger] variant_layouts@[j], vs@[j]),
                decreases vs@.len() - i,
            {
                proof {
                    lemma_variant_tys_snoc(vs@.subrange(0, i as int), vs@[i as int]);
                    assert(vs@.subrange(0, i + 1) =~= vs@.subrange(0, i as int).push(
                        vs@[i as int],
                    ));
                }
                push_field_tys(&mut bounds, &vs[i].fields);
                resolver_variants.push(
                    GenVariant { ident: vs[i].ident, fields: gen_resolver_fields(&vs[i].fields) },
                );
                archived_variants.push(
                    GenVariant { ident: vs[i].ident, fields: gen_archived_fields(&vs[i].fields) },
                );
                tag_variants.push(vs[i].ident);
                variant_layouts.push(gen_variant_layout(&vs[i]));
                i = i + 1;
            }
            proof {
                assert(vs@.subrange(0, vs@.len() as int) =~= vs@);
                assert(tag_variants@ =~= vs@.map_values(|v: VariantDef| v.ident));
            }
            let width = tag_width(vs.len());
            Ok(
                MirrorPlan::Variants(
                    VariantMirror {
                        generics: copy_syms(&def.generics),
                        predicates: copy_syms(&def.predicates),
                        bounds,
                        resolver_variants,
                        archived_variants,
                        tag_width: width,
                        tag_variants,
                        variant_layouts,
                    },
                ),
            )
        },
        TypeData::Union => Err(MirrorError::UnionType),
    }
}

} // verus!
