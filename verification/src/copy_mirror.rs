//! The copy-safe fast path of the mirror generator.
//!
//! A type whose bytes are already valid as its own archived form needs no
//! generated resolver or archived fields at all: the archived form is
//! declared to be the type itself, the resolver is the shared unit marker,
//! and phase one is a no-op.  The path is opt-in, and for a tagged-variant
//! type it additionally demands that the caller has fixed the type's
//! discriminant representation explicitly and asserted so in an attribute:
//! an implicit discriminant layout is not stable, so without the assertion
//! the generator refuses.
//!
//! Attributes arrive classified: the front end only tells the scanner
//! whether a path is the generator's own marker, never how it is spelled.

use vstd::prelude::*;
use crate::mirror::{FieldList, MirrorError, TypeData, TypeDef, VariantDef, field_tys, variant_tys};

verus! {

/// The path of an attribute, as far as the scanner cares: the generator's
/// own attribute, or any other.
#[derive(Clone, Copy, PartialEq, Eq, Debug, Structural)]
pub enum AttrPath {
    Marker,
    Other,
}

/// One item nested inside the generator's attribute list: the assertion
/// that the discriminant representation is fixed, or anything else.
#[derive(Clone, Copy, PartialEq, Eq, Debug, Structural)]
pub enum AttrItem {
    ReprAssertion,
    Other,
}

/// The parsed shape of one attribute's meta content.
#[derive(Clone, PartialEq, Eq, Debug)]
pub enum AttrMeta {
    /// A bare path, e.g. a marker without arguments.
    Path(AttrPath),
    /// A parenthesized list of nested items.
    List { path: AttrPath, items: Vec<AttrItem> },
    /// Some other parsed shape (for instance a name-value pair).
    OtherShape,
    /// An attribute whose content does not parse as meta at all.
    Unparsable,
}

/// One attribute on the source type.
#[derive(Clone, PartialEq, Eq, Debug)]
pub struct Attr {
    /// Whether this is an outer attribute; inner attributes are rejected.
    pub outer: bool,
    pub meta: AttrMeta,
}

/// The verdict of scanning the attribute list for the representation
/// assertion.
#[derive(Clone, Copy, PartialEq, Eq, Debug, Structural)]
pub enum ReprScan {
    /// The assertion was found.
    Found,
    /// No attribute settled the question.
    Absent,
    /// Some attribute was malformed; scanning stops at the first such.
    Rejected(MirrorError),
}

/// Whether the representation assertion occurs among a list's items.
pub open spec fn has_repr_assertion(items: Seq<AttrItem>) -> bool {
    exists|i: int| 0 <= i < items.len() && items[i] is ReprAssertion
}

/// What one attribute contributes to the scan: a verdict, or nothing (the
/// scan moves on).
pub open spec fn spec_attr_step(a: Attr) -> Option<ReprScan> {
    if !a.outer {
        Some(ReprScan::Rejected(MirrorError::InnerAttr))
    } else {
        match a.meta {
            AttrMeta::Unparsable => Some(ReprScan::Rejected(MirrorError::UnparsableAttr)),
            AttrMeta::List { path, items } => if path is Marker {
                if has_repr_assertion(items@) {
                    Some(ReprScan::Found)
                } else {
                    None
                }
            } else {
                None
            },
            AttrMeta::Path(_) => Some(ReprScan::Rejected(MirrorError::UnsupportedAttrShape)),
            AttrMeta::OtherShape => Some(ReprScan::Rejected(MirrorError::UnsupportedAttrShape)),
        }
    }
}

/// The verdict of the whole attribute list: the first attribute that
/// settles the question wins.
pub open spec fn spec_repr_scan(attrs: Seq<Attr>) -> ReprScan
    decreases attrs,
{
    if attrs.len() == 0 {
        ReprScan::Absent
    } else {
        match spec_attr_step(attrs[0]) {
            Some(r) => r,
            None => spec_repr_scan(attrs.drop_first()),
        }
    }
}

/// Scans the attribute list for the representation assertion.
pub fn find_repr_assertion(attrs: &Vec<Attr>) -> (r: ReprScan)
    ensures
        r == spec_repr_scan(attrs@),
{
    let mut i: usize = 0;
    proof {
        assert(attrs@.subrange(0, attrs@.len() as int) =~= attrs@);
    }
    while i < attrs.len()
        invariant
            i <= attrs@.len(),
            spec_repr_scan(attrs@) == spec_repr_scan(attrs@.subrange(i as int, attrs@.len() as int)),
        decreases attrs@.len() - i,
    {
        let ghost rest = attrs@.subrange(i as int, attrs@.len() as int);
        proof {
            assert(rest[0] == attrs@[i as int]);
            assert(rest.drop_first() =~= attrs@.subrange(i as int + 1, attrs@.len() as int));
        }
        if !attrs[i].outer {
            return ReprScan::Rejected(MirrorError::InnerAttr);
        }
        match &attrs[i].meta {
            AttrMeta::Unparsable => {
                return ReprScan::Rejected(MirrorError::UnparsableAttr);
            },
            AttrMeta::List { path, items } => {
                match path {
                    AttrPath::Marker => {
                        let mut j: usize = 0;
                        let mut found = false;
                        while j < items.len()
                            invariant
                                j <= items@.len(),
                                found <==> has_repr_assertion(items@.subrange(0, j as int)),
                            decreases items@.len() - j,
                        {
                            match items[j] {
                                AttrItem::ReprAssertion => {
                                    found = true;
                                },
                                AttrItem::Other => {},
                            }
                            j = j + 1;
                            proof {
                                assert(items@.subrange(0, j - 1) =~= items@.subrange(
                                    0,
                                    j as int,
                                ).drop_last());
                                assert(items@.subrange(0, j as int)[j - 1] == items@[j - 1]);
                                assert(forall|k: int|
                                    0 <= k < j - 1 ==> items@.subrange(0, j as int)[k]
                                        == items@.subrange(0, j - 1)[k]);
                            }
                        }
                        proof {
                            assert(items@.subrange(0, items@.len() as int) =~= items@);
                        }
                        if found {
                            return ReprScan::Found;
                        }
                    },
                    AttrPath::Other => {},
                }
            },
            AttrMeta::Path(_) => {
                return ReprScan::Rejected(MirrorError::UnsupportedAttrShape);
            },
            AttrMeta::OtherShape => {
                return ReprScan::Rejected(MirrorError::UnsupportedAttrShape);
            },
        }
        i = i + 1;
    }
    proof {
        assert(attrs@.subrange(attrs@.len() as int, attrs@.len() as int) =~= Seq::<Attr>::empty());
    }
    ReprScan::Absent
}

/// What the fast path emits: the archived form is the source type itself,
/// the resolver is the shared unit marker, and every field type must itself
/// be copy-safe.
#[derive(Clone, PartialEq, Eq, Debug)]
pub struct CopyMirror {
    /// Type parameters, copied verbatim from the source type.
    pub generics: Vec<u64>,
    /// Where-clause predicates, copied verbatim from the source type.
    pub predicates: Vec<u64>,
    /// Field types required to be copy-safe, in declaration order (for a
    /// variant type: variant by variant).
    pub bounds: Vec<u64>,
}

/// Synthesizes the copy-safe fast path for one source type.  Records
/// qualify as they stand; tagged-variant types qualify only with the
/// representation assertion among their attributes, and a malformed
/// attribute list is rejected outright; raw unions never qualify.
pub fn mirror_copy_type(def: &TypeDef, attrs: &Vec<Attr>) -> (r: Result<CopyMirror, MirrorError>)
    ensures
        def.data matches TypeData::Struct(fl) ==> (r matches Ok(m) && m.generics@ == def.generics@
            && m.predicates@ == def.predicates@ && m.bounds@ == field_tys(fl)),
        def.data matches TypeData::Enum(vs) ==> (match spec_repr_scan(attrs@) {
            ReprScan::Found => r matches Ok(m) && m.generics@ == def.generics@ && m.predicates@
                == def.predicates@ && m.bounds@ == variant_tys(vs@),
            ReprScan::Absent => r == Err::<CopyMirror, MirrorError>(
                MirrorError::MissingReprAssertion,
            ),
            ReprScan::Rejected(e) => r == Err::<CopyMirror, MirrorError>(e),
        }),
        def.data is Union ==> r == Err::<CopyMirror, MirrorError>(MirrorError::UnionType),
{
    let scan = find_repr_assertion(attrs);
    match &def.data {
        TypeData::Struct(fl) => {
            let mut bounds: Vec<u64> = Vec::new();
            crate::mirror::push_field_tys(&mut bounds, fl);
            Ok(
                CopyMirror {
                    generics: crate::mirror::copy_syms(&def.generics),
                    predicates: crate::mirror::copy_syms(&def.predicates),
                    bounds,
                },
            )
        },
        TypeData::Enum(vs) => {
            match scan {
                ReprScan::Found => {
                    let mut bounds: Vec<u64> = Vec::new();
                    let mut i: usize = 0;
                    proof {
                        assert(vs@.subrange(0, 0) =~= Seq::<VariantDef>::empty());
                    }
                    while i < vs.len()
                        invariant
                            i <= vs@.len(),
                            bounds@ == variant_tys(vs@.subrange(0, i as int)),
                        decreases vs@.len() - i,
                    {
                        proof {
                            crate::mirror::lemma_variant_tys_snoc(
                                vs@.subrange(0, i as int),
                                vs@[i as int],
                            );
                            assert(vs@.subrange(0, i + 1) =~= vs@.subrange(0, i as int).push(
                                vs@[i as int],
                            ));
                        }
                        crate::mirror::push_field_tys(&mut bounds, &vs[i].fields);
                        i = i + 1;
                    }
                    proof {
                        assert(vs@.subrange(0, vs@.len() as int) =~= vs@);
                    }
                    Ok(
                        CopyMirror {
                            generics: crate::mirror::copy_syms(&def.generics),
                            predicates: crate::mirror::copy_syms(&def.predicates),
                            bounds,
                        },
                    )
                },
                ReprScan::Absent => Err(MirrorError::MissingReprAssertion),
                ReprScan::Rejected(e) => Err(e),
            }
        },
        TypeData::Union => Err(MirrorError::UnionType),
    }
}

} // verus!
