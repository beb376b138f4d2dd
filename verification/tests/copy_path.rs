use archive_mirror::copy_mirror::{
    find_repr_assertion, mirror_copy_type, Attr, AttrItem, AttrMeta, AttrPath, ReprScan,
};
use archive_mirror::mirror::{FieldList, MirrorError, NamedField, TypeData, TypeDef, UnnamedField, VariantDef};

fn def(data: TypeData) -> TypeDef {
    TypeDef { ident: 1, generics: vec![], predicates: vec![], data }
}

fn repr_attr() -> Attr {
    Attr { outer: true, meta: AttrMeta::List { path: AttrPath::Marker, items: vec![AttrItem::ReprAssertion] } }
}

#[test]
fn copy_struct_qualifies_without_attributes() {
    let input = def(TypeData::Struct(FieldList::Named(vec![
        NamedField { name: 1, ty: 40 },
        NamedField { name: 2, ty: 41 },
    ])));
    let m = mirror_copy_type(&input, &vec![]).unwrap();
    assert_eq!(m.bounds, vec![40, 41]);
}

#[test]
fn copy_enum_needs_the_repr_assertion() {
    let variants = vec![
        VariantDef { ident: 7, fields: FieldList::Unnamed(vec![UnnamedField { ty: 50 }]) },
        VariantDef { ident: 8, fields: FieldList::Unnamed(vec![UnnamedField { ty: 51 }]) },
    ];
    let input = def(TypeData::Enum(variants));
    let err = mirror_copy_type(&input, &vec![]).unwrap_err();
    assert_eq!(err, MirrorError::MissingReprAssertion);
    assert_eq!(
        err.message(),
        "enum may be an invalid repr, make sure the enum has #[repr(u*)] or #[repr(i*)] then add #[archive(repr_set)]"
    );
    let ok = mirror_copy_type(&input, &vec![repr_attr()]).unwrap();
    assert_eq!(ok.bounds, vec![50, 51]);
}

#[test]
fn copy_union_is_rejected() {
    let err = mirror_copy_type(&def(TypeData::Union), &vec![repr_attr()]).unwrap_err();
    assert_eq!(err, MirrorError::UnionType);
    assert_eq!(err.message(), "Archive cannot be derived for unions");
}

#[test]
fn attr_scan_takes_the_first_verdict() {
    // An unrelated list is skipped; the marker list settles it.
    let attrs = vec![
        Attr { outer: true, meta: AttrMeta::List { path: AttrPath::Other, items: vec![] } },
        repr_attr(),
    ];
    assert_eq!(find_repr_assertion(&attrs), ReprScan::Found);

    // A marker list without the assertion does not settle it.
    let attrs = vec![Attr {
        outer: true,
        meta: AttrMeta::List { path: AttrPath::Marker, items: vec![AttrItem::Other] },
    }];
    assert_eq!(find_repr_assertion(&attrs), ReprScan::Absent);

    // A malformed attribute before the marker wins.
    let attrs = vec![Attr { outer: true, meta: AttrMeta::OtherShape }, repr_attr()];
    assert_eq!(
        find_repr_assertion(&attrs),
        ReprScan::Rejected(MirrorError::UnsupportedAttrShape)
    );
}

#[test]
fn attr_scan_rejects_malformed_attributes() {
    let inner = vec![Attr { outer: false, meta: AttrMeta::OtherShape }];
    assert_eq!(find_repr_assertion(&inner), ReprScan::Rejected(MirrorError::InnerAttr));

    let unparsable = vec![Attr { outer: true, meta: AttrMeta::Unparsable }];
    assert_eq!(
        find_repr_assertion(&unparsable),
        ReprScan::Rejected(MirrorError::UnparsableAttr)
    );

    let bare_path = vec![Attr { outer: true, meta: AttrMeta::Path(AttrPath::Marker) }];
    assert_eq!(
        find_repr_assertion(&bare_path),
        ReprScan::Rejected(MirrorError::UnsupportedAttrShape)
    );
}

#[test]
fn copy_enum_propagates_the_scan_rejection() {
    let variants = vec![VariantDef { ident: 7, fields: FieldList::Unit }];
    let input = def(TypeData::Enum(variants));
    let attrs = vec![Attr { outer: false, meta: AttrMeta::OtherShape }];
    let err = mirror_copy_type(&input, &attrs).unwrap_err();
    assert_eq!(err, MirrorError::InnerAttr);
    assert_eq!(err.message(), "attributes must be outer");
}
