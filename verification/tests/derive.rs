use cdr_encoding_size_derive::{
    add_trait_bounds, cdr_size_sum, derive_cdr_encoding_size, Data, DeriveError, DeriveInput,
    Field, Fields, GenericParam, Generics, Registration, SizeSum, Type, TypeParam,
    UnsupportedShape, CAPABILITY,
};

const BOUND: &str = "cdr_encoding_size::CdrEncodingSize";

#[test]
fn capability_is_the_path_of_the_size_trait() {
    assert_eq!(CAPABILITY, BOUND);
}

fn type_param(ident: &str, bounds: &[&str]) -> GenericParam {
    GenericParam::Type(TypeParam {
        ident: ident.to_string(),
        bounds: bounds.iter().map(|b| b.to_string()).collect(),
    })
}

fn named(ident: &str, ty: Type) -> Field {
    Field { ident: Some(ident.to_string()), ty }
}

fn positional(ty: Type) -> Field {
    Field { ident: None, ty }
}

#[test]
fn bounds_every_type_parameter() {
    let generics = Generics { params: vec![type_param("T", &[]), type_param("U", &[])] };
    let bounded = add_trait_bounds(generics);
    assert_eq!(
        bounded,
        Generics { params: vec![type_param("T", &[BOUND]), type_param("U", &[BOUND])] }
    );
}

#[test]
fn keeps_the_bounds_that_stand_and_adds_last() {
    let generics = Generics { params: vec![type_param("T", &["Clone", "Send"])] };
    let bounded = add_trait_bounds(generics);
    assert_eq!(
        bounded,
        Generics { params: vec![type_param("T", &["Clone", "Send", BOUND])] }
    );
}

#[test]
fn leaves_lifetimes_and_constants_alone() {
    let generics = Generics {
        params: vec![
            GenericParam::Lifetime("'a".to_string()),
            type_param("T", &[]),
            GenericParam::Const("N".to_string()),
        ],
    };
    let bounded = add_trait_bounds(generics);
    assert_eq!(
        bounded,
        Generics {
            params: vec![
                GenericParam::Lifetime("'a".to_string()),
                type_param("T", &[BOUND]),
                GenericParam::Const("N".to_string()),
            ],
        }
    );
}

#[test]
fn bounds_nothing_where_there_are_no_parameters() {
    assert_eq!(add_trait_bounds(Generics { params: vec![] }), Generics { params: vec![] });
}

#[test]
fn sum_of_named_members_lists_their_types_in_order() {
    let data = Data::Struct(Fields::Named(vec![
        named("x", Type::path("u64")),
        named("y", Type::path("u32")),
        named("z", Type::generic("Vec", vec![Type::path("u8")])),
    ]));
    assert_eq!(
        cdr_size_sum(&data),
        Ok(SizeSum {
            terms: vec![
                Type::path("u64"),
                Type::path("u32"),
                Type::generic("Vec", vec![Type::path("u8")]),
            ],
        })
    );
}

#[test]
fn sum_of_positional_members_lists_their_types_in_order() {
    let data = Data::Struct(Fields::Unnamed(vec![
        positional(Type::path("u16")),
        positional(Type::path("i8")),
    ]));
    assert_eq!(
        cdr_size_sum(&data),
        Ok(SizeSum { terms: vec![Type::path("u16"), Type::path("i8")] })
    );
}

#[test]
fn naming_the_members_makes_no_difference() {
    let types = [Type::path("u64"), Type::path("u32")];
    let as_named = Data::Struct(Fields::Named(vec![
        named("a", types[0].clone()),
        named("b", types[1].clone()),
    ]));
    let as_positional = Data::Struct(Fields::Unnamed(vec![
        positional(types[0].clone()),
        positional(types[1].clone()),
    ]));
    assert_eq!(cdr_size_sum(&as_named), cdr_size_sum(&as_positional));
}

#[test]
fn sum_without_members_has_no_terms() {
    let empty = Ok(SizeSum { terms: vec![] });
    assert_eq!(cdr_size_sum(&Data::Struct(Fields::Unit)), empty);
    assert_eq!(cdr_size_sum(&Data::Struct(Fields::Named(vec![]))), empty);
    assert_eq!(cdr_size_sum(&Data::Struct(Fields::Unnamed(vec![]))), empty);
}

#[test]
fn sum_refuses_tagged_unions() {
    assert_eq!(cdr_size_sum(&Data::Enum), Err(UnsupportedShape));
    assert_eq!(cdr_size_sum(&Data::Union), Err(UnsupportedShape));
}

#[test]
fn derives_a_registration_for_a_plain_structure() {
    let input = DeriveInput {
        ident: "Point".to_string(),
        generics: Generics { params: vec![] },
        data: Data::Struct(Fields::Named(vec![
            named("x", Type::path("u32")),
            named("y", Type::path("u32")),
        ])),
    };
    assert_eq!(
        derive_cdr_encoding_size(input),
        Ok(Registration {
            name: "Point".to_string(),
            generics: Generics { params: vec![] },
            sum: SizeSum { terms: vec![Type::path("u32"), Type::path("u32")] },
        })
    );
}

#[test]
fn derives_a_registration_for_a_generic_structure() {
    let input = DeriveInput {
        ident: "Pair".to_string(),
        generics: Generics {
            params: vec![
                GenericParam::Lifetime("'a".to_string()),
                type_param("A", &["Copy"]),
                type_param("B", &[]),
            ],
        },
        data: Data::Struct(Fields::Unnamed(vec![
            positional(Type::path("A")),
            positional(Type::generic("Option", vec![Type::path("B")])),
        ])),
    };
    assert_eq!(
        derive_cdr_encoding_size(input),
        Ok(Registration {
            name: "Pair".to_string(),
            generics: Generics {
                params: vec![
                    GenericParam::Lifetime("'a".to_string()),
                    type_param("A", &["Copy", BOUND]),
                    type_param("B", &[BOUND]),
                ],
            },
            sum: SizeSum {
                terms: vec![
                    Type::path("A"),
                    Type::generic("Option", vec![Type::path("B")]),
                ],
            },
        })
    );
}

#[test]
fn derives_an_empty_sum_for_a_unit_structure() {
    let input = DeriveInput {
        ident: "Marker".to_string(),
        generics: Generics { params: vec![] },
        data: Data::Struct(Fields::Unit),
    };
    assert_eq!(
        derive_cdr_encoding_size(input),
        Ok(Registration {
            name: "Marker".to_string(),
            generics: Generics { params: vec![] },
            sum: SizeSum { terms: vec![] },
        })
    );
}

#[test]
fn derive_refuses_an_enum() {
    let input = DeriveInput {
        ident: "Shape".to_string(),
        generics: Generics { params: vec![type_param("T", &[])] },
        data: Data::Enum,
    };
    assert_eq!(
        derive_cdr_encoding_size(input),
        Err(DeriveError::UnsupportedShape { name: "Shape".to_string() })
    );
}

#[test]
fn derive_refuses_a_union() {
    let input = DeriveInput {
        ident: "Raw".to_string(),
        generics: Generics { params: vec![] },
        data: Data::Union,
    };
    assert_eq!(
        derive_cdr_encoding_size(input),
        Err(DeriveError::UnsupportedShape { name: "Raw".to_string() })
    );
}

#[test]
fn type_references_are_built_from_names_and_arguments() {
    assert_eq!(Type::path("u8"), Type { name: "u8".to_string(), args: vec![] });
    assert_eq!(
        Type::generic("Map", vec![Type::path("K"), Type::path("V")]),
        Type {
            name: "Map".to_string(),
            args: vec![
                Type { name: "K".to_string(), args: vec![] },
                Type { name: "V".to_string(), args: vec![] },
            ],
        }
    );
}

#[test]
fn cloning_a_type_reference_copies_every_argument() {
    let ty = Type::generic(
        "Outer",
        vec![Type::generic("Inner", vec![Type::path("u8")]), Type::path("u16")],
    );
    assert_eq!(ty.clone(), ty);
}
