use archive_mirror::mirror::{
    mirror_type, FieldList, GenFieldList, GenNamedField, GenTy, LayoutField, MirrorError,
    MirrorPlan, NamedField, TypeData, TypeDef, UnnamedField, VariantDef, VariantLayout,
};

fn def(data: TypeData) -> TypeDef {
    TypeDef { ident: 1, generics: vec![], predicates: vec![], data }
}

#[test]
fn named_struct_mirrors_field_for_field() {
    let input = def(TypeData::Struct(FieldList::Named(vec![
        NamedField { name: 10, ty: 20 },
        NamedField { name: 11, ty: 21 },
    ])));
    let plan = mirror_type(&input).unwrap();
    let m = match plan {
        MirrorPlan::Record(m) => m,
        _ => panic!("expected a record mirror"),
    };
    assert_eq!(m.bounds, vec![20, 21]);
    assert_eq!(
        m.resolver_fields,
        GenFieldList::Named(vec![
            GenNamedField { name: 10, ty: GenTy::ResolverOf { ty: 20 } },
            GenNamedField { name: 11, ty: GenTy::ResolverOf { ty: 21 } },
        ])
    );
    assert_eq!(
        m.archived_fields,
        GenFieldList::Named(vec![
            GenNamedField { name: 10, ty: GenTy::ArchivedOf { ty: 20 } },
            GenNamedField { name: 11, ty: GenTy::ArchivedOf { ty: 21 } },
        ])
    );
}

#[test]
fn unnamed_struct_mirrors_positionally() {
    let input = def(TypeData::Struct(FieldList::Unnamed(vec![
        UnnamedField { ty: 30 },
        UnnamedField { ty: 31 },
    ])));
    let plan = mirror_type(&input).unwrap();
    let m = match plan {
        MirrorPlan::Record(m) => m,
        _ => panic!("expected a record mirror"),
    };
    assert_eq!(m.bounds, vec![30, 31]);
    assert_eq!(
        m.resolver_fields,
        GenFieldList::Unnamed(vec![GenTy::ResolverOf { ty: 30 }, GenTy::ResolverOf { ty: 31 }])
    );
    assert_eq!(
        m.archived_fields,
        GenFieldList::Unnamed(vec![GenTy::ArchivedOf { ty: 30 }, GenTy::ArchivedOf { ty: 31 }])
    );
}

#[test]
fn unit_struct_archives_as_itself() {
    let input = def(TypeData::Struct(FieldList::Unit));
    let plan = mirror_type(&input).unwrap();
    assert!(matches!(plan, MirrorPlan::UnitRecord { .. }));
}

#[test]
fn generics_and_predicates_are_propagated() {
    let input = TypeDef {
        ident: 5,
        generics: vec![70, 71],
        predicates: vec![80],
        data: TypeData::Struct(FieldList::Named(vec![NamedField { name: 1, ty: 2 }])),
    };
    let plan = mirror_type(&input).unwrap();
    let m = match plan {
        MirrorPlan::Record(m) => m,
        _ => panic!("expected a record mirror"),
    };
    assert_eq!(m.generics, vec![70, 71]);
    assert_eq!(m.predicates, vec![80]);
}

#[test]
fn enum_mirror_keeps_variant_order_and_leads_with_the_tag() {
    let input = def(TypeData::Enum(vec![
        VariantDef { ident: 100, fields: FieldList::Named(vec![NamedField { name: 1, ty: 2 }]) },
        VariantDef { ident: 101, fields: FieldList::Unnamed(vec![UnnamedField { ty: 3 }]) },
        VariantDef { ident: 102, fields: FieldList::Unit },
    ]));
    let plan = mirror_type(&input).unwrap();
    let m = match plan {
        MirrorPlan::Variants(m) => m,
        _ => panic!("expected a variant mirror"),
    };
    assert_eq!(m.tag_width, 1);
    assert_eq!(m.tag_variants, vec![100, 101, 102]);
    assert_eq!(m.bounds, vec![2, 3]);
    assert_eq!(m.resolver_variants.len(), 3);
    assert_eq!(m.resolver_variants[0].ident, 100);
    assert_eq!(
        m.resolver_variants[0].fields,
        GenFieldList::Named(vec![GenNamedField { name: 1, ty: GenTy::ResolverOf { ty: 2 } }])
    );
    assert_eq!(
        m.archived_variants[1].fields,
        GenFieldList::Unnamed(vec![GenTy::ArchivedOf { ty: 3 }])
    );
    assert_eq!(m.resolver_variants[2].fields, GenFieldList::Unit);
    assert_eq!(
        m.variant_layouts[0],
        VariantLayout::Layout {
            ident: 100,
            fields: vec![LayoutField::Tag, LayoutField::Named { name: 1, ty: 2 }],
        }
    );
    assert_eq!(
        m.variant_layouts[1],
        VariantLayout::Layout { ident: 101, fields: vec![LayoutField::Tag, LayoutField::Unnamed { ty: 3 }] }
    );
    assert_eq!(m.variant_layouts[2], VariantLayout::Absent);
}

#[test]
fn discriminant_width_grows_with_the_variant_count() {
    for (count, width) in [(1usize, 1usize), (255, 1), (256, 2), (65535, 2), (65536, 4)] {
        let variants: Vec<VariantDef> = (0..count)
            .map(|i| VariantDef { ident: i as u64, fields: FieldList::Unit })
            .collect();
        let plan = mirror_type(&def(TypeData::Enum(variants))).unwrap();
        let m = match plan {
            MirrorPlan::Variants(m) => m,
            _ => panic!("expected a variant mirror"),
        };
        assert_eq!(m.tag_width, width, "variant count {}", count);
    }
}

#[test]
fn union_is_rejected_with_a_description() {
    let input = def(TypeData::Union);
    let err = mirror_type(&input).unwrap_err();
    assert_eq!(err, MirrorError::UnionType);
    assert_eq!(err.message(), "Archive cannot be derived for unions");
}
