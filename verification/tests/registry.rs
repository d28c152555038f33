use cdr_encoding_size_derive::registry::{type_param_names, Registry};
use cdr_encoding_size_derive::size::CdrEncodingMaxSize::{Bytes, Unbounded};
use cdr_encoding_size_derive::{
    derive_cdr_encoding_size, Data, DeriveError, DeriveInput, Field, Fields, GenericParam,
    Generics, SizeError, Type, TypeParam,
};

fn primitives() -> Registry {
    let mut table = Registry::new();
    assert_eq!(table.register_fixed("u8", vec![], Bytes(1)), Ok(()));
    assert_eq!(table.register_fixed("u16", vec![], Bytes(2)), Ok(()));
    assert_eq!(table.register_fixed("u32", vec![], Bytes(4)), Ok(()));
    assert_eq!(table.register_fixed("u64", vec![], Bytes(8)), Ok(()));
    assert_eq!(table.register_fixed("u128", vec![], Bytes(16)), Ok(()));
    assert_eq!(table.register_fixed("String", vec![], Unbounded), Ok(()));
    assert_eq!(table.register_fixed("Vec", vec!["T".to_string()], Unbounded), Ok(()));
    table
}

fn structure(ident: &str, params: &[&str], members: &[Type]) -> DeriveInput {
    DeriveInput {
        ident: ident.to_string(),
        generics: Generics {
            params: params
                .iter()
                .map(|p| GenericParam::Type(TypeParam { ident: p.to_string(), bounds: vec![] }))
                .collect(),
        },
        data: Data::Struct(Fields::Unnamed(
            members.iter().map(|ty| Field { ident: None, ty: ty.clone() }).collect(),
        )),
    }
}

fn conflict(name: &str) -> DeriveError {
    DeriveError::Conflict { name: name.to_string() }
}

fn refused(name: &str) -> DeriveError {
    DeriveError::UnsupportedShape { name: name.to_string() }
}

fn member(name: &str, index: usize, cause: SizeError) -> DeriveError {
    DeriveError::Field { name: name.to_string(), index, cause }
}

fn overflow(name: &str) -> DeriveError {
    DeriveError::Overflow { name: name.to_string() }
}

fn tagged_union(ident: &str) -> DeriveInput {
    DeriveInput {
        ident: ident.to_string(),
        generics: Generics { params: vec![] },
        data: Data::Enum,
    }
}

fn missing(name: &str) -> SizeError {
    SizeError::MissingCapability { name: name.to_string() }
}

fn unsupported(name: &str) -> SizeError {
    SizeError::UnsupportedShape { name: name.to_string() }
}

#[test]
fn new_table_is_empty_and_knows_nothing() {
    let table = Registry::new();
    assert_eq!(table.len(), 0);
    assert_eq!(table.max_size(&Type::path("u8")), Err(missing("u8")));
}

#[test]
fn fixed_capabilities_resolve_to_their_size() {
    let table = primitives();
    assert_eq!(table.len(), 7);
    assert_eq!(table.max_size(&Type::path("u8")), Ok(Bytes(1)));
    assert_eq!(table.max_size(&Type::path("u64")), Ok(Bytes(8)));
    assert_eq!(table.max_size(&Type::path("String")), Ok(Unbounded));
    assert_eq!(table.max_size(&Type::generic("Vec", vec![Type::path("u8")])), Ok(Unbounded));
}

#[test]
fn fixed_capability_under_a_taken_name_is_a_conflict() {
    let mut table = primitives();
    assert_eq!(table.register_fixed("u8", vec![], Bytes(9)), Err(conflict("u8")));
    assert_eq!(table.len(), 7);
    assert_eq!(table.max_size(&Type::path("u8")), Ok(Bytes(1)));
}

#[test]
fn structure_without_members_takes_no_bytes() {
    let mut table = primitives();
    let unit = DeriveInput {
        ident: "Unit".to_string(),
        generics: Generics { params: vec![] },
        data: Data::Struct(Fields::Unit),
    };
    assert_eq!(table.define(unit), Ok(Bytes(0)));
    assert_eq!(table.define(structure("Tuple", &[], &[])), Ok(Bytes(0)));
    let braces = DeriveInput {
        ident: "Braces".to_string(),
        generics: Generics { params: vec![] },
        data: Data::Struct(Fields::Named(vec![])),
    };
    assert_eq!(table.define(braces), Ok(Bytes(0)));
    assert_eq!(table.max_size(&Type::path("Unit")), Ok(Bytes(0)));
    assert_eq!(table.max_size(&Type::path("Tuple")), Ok(Bytes(0)));
    assert_eq!(table.max_size(&Type::path("Braces")), Ok(Bytes(0)));
}

#[test]
fn structure_without_members_takes_no_bytes_in_an_empty_table() {
    let mut table = Registry::new();
    assert_eq!(table.define(structure("Nothing", &[], &[])), Ok(Bytes(0)));
    assert_eq!(table.len(), 1);
}

#[test]
fn eight_and_four_bytes_make_twelve() {
    let mut table = primitives();
    let input = structure("Header", &[], &[Type::path("u64"), Type::path("u32")]);
    assert_eq!(table.define(input), Ok(Bytes(12)));
    assert_eq!(table.max_size(&Type::path("Header")), Ok(Bytes(12)));
}

#[test]
fn one_two_and_four_bytes_make_seven() {
    let mut table = primitives();
    let input =
        structure("Triple", &[], &[Type::path("u8"), Type::path("u16"), Type::path("u32")]);
    assert_eq!(table.define(input), Ok(Bytes(7)));
    assert_eq!(table.max_size(&Type::path("Triple")), Ok(Bytes(7)));
}

#[test]
fn named_members_sum_like_positional_ones() {
    let mut table = primitives();
    let input = DeriveInput {
        ident: "Named".to_string(),
        generics: Generics { params: vec![] },
        data: Data::Struct(Fields::Named(vec![
            Field { ident: Some("id".to_string()), ty: Type::path("u64") },
            Field { ident: Some("kind".to_string()), ty: Type::path("u32") },
        ])),
    };
    assert_eq!(table.define(input), Ok(Bytes(12)));
}

#[test]
fn order_of_two_members_does_not_matter() {
    let mut table = primitives();
    let a = structure("A", &[], &[Type::path("u64"), Type::path("u16")]);
    let b = structure("B", &[], &[Type::path("u16"), Type::path("u64")]);
    assert_eq!(table.define(a), Ok(Bytes(10)));
    assert_eq!(table.define(b), Ok(Bytes(10)));
    assert_eq!(table.max_size(&Type::path("A")), table.max_size(&Type::path("B")));
}

#[test]
fn every_order_of_three_members_gives_the_same_size() {
    let members = [Type::path("u8"), Type::path("u64"), Type::path("u128")];
    let orders = [[0, 1, 2], [0, 2, 1], [1, 0, 2], [1, 2, 0], [2, 0, 1], [2, 1, 0]];
    for order in orders {
        let mut table = primitives();
        let permuted: Vec<Type> = order.iter().map(|&i| members[i].clone()).collect();
        assert_eq!(table.define(structure("S", &[], &permuted)), Ok(Bytes(25)));
    }
}

#[test]
fn structures_nest() {
    let mut table = primitives();
    assert_eq!(
        table.define(structure("Inner", &[], &[Type::path("u64"), Type::path("u32")])),
        Ok(Bytes(12))
    );
    assert_eq!(
        table.define(structure(
            "Outer",
            &[],
            &[Type::path("Inner"), Type::path("u8"), Type::path("Inner")]
        )),
        Ok(Bytes(25))
    );
    assert_eq!(table.max_size(&Type::path("Outer")), Ok(Bytes(25)));
}

#[test]
fn unbounded_member_makes_the_structure_unbounded() {
    let mut table = primitives();
    let input = structure("Message", &[], &[Type::path("u32"), Type::path("String")]);
    assert_eq!(table.define(input), Ok(Unbounded));
    let list = structure("List", &[], &[Type::generic("Vec", vec![Type::path("u64")])]);
    assert_eq!(table.define(list), Ok(Unbounded));
}

#[test]
fn generic_wrapper_is_as_large_as_its_argument() {
    let mut table = primitives();
    assert_eq!(table.define(structure("Wrapper", &["T"], &[Type::path("T")])), Ok(Bytes(0)));
    assert_eq!(
        table.max_size(&Type::generic("Wrapper", vec![Type::path("u128")])),
        Ok(Bytes(16))
    );
    assert_eq!(
        table.max_size(&Type::generic("Wrapper", vec![Type::path("u8")])),
        Ok(Bytes(1))
    );
    assert_eq!(
        table.max_size(&Type::generic("Wrapper", vec![Type::path("String")])),
        Ok(Unbounded)
    );
}

#[test]
fn generic_wrapper_of_a_type_without_capability_has_no_size() {
    let mut table = primitives();
    assert_eq!(table.define(structure("Wrapper", &["T"], &[Type::path("T")])), Ok(Bytes(0)));
    assert_eq!(
        table.max_size(&Type::generic("Wrapper", vec![Type::path("Opaque")])),
        Err(missing("Opaque"))
    );
}

#[test]
fn generic_structure_counts_each_use_of_a_parameter() {
    let mut table = primitives();
    let input = structure(
        "Both",
        &["A", "B"],
        &[Type::path("A"), Type::path("u32"), Type::path("B"), Type::path("A")],
    );
    assert_eq!(table.define(input), Ok(Bytes(4)));
    assert_eq!(
        table.max_size(&Type::generic("Both", vec![Type::path("u8"), Type::path("u64")])),
        Ok(Bytes(1 + 4 + 8 + 1))
    );
    assert_eq!(
        table.max_size(&Type::generic("Both", vec![Type::path("u64"), Type::path("u8")])),
        Ok(Bytes(8 + 4 + 1 + 8))
    );
}

#[test]
fn generic_structures_nest() {
    let mut table = primitives();
    assert_eq!(table.define(structure("Wrapper", &["T"], &[Type::path("T")])), Ok(Bytes(0)));
    let twice = structure(
        "Twice",
        &["T"],
        &[Type::generic("Wrapper", vec![Type::path("T")]), Type::path("T")],
    );
    assert_eq!(table.define(twice), Ok(Bytes(0)));
    let nested = Type::generic("Twice", vec![Type::generic("Wrapper", vec![Type::path("u32")])]);
    assert_eq!(table.max_size(&nested), Ok(Bytes(8)));
}

#[test]
fn wrong_number_of_arguments_is_no_capability() {
    let mut table = primitives();
    assert_eq!(table.define(structure("Wrapper", &["T"], &[Type::path("T")])), Ok(Bytes(0)));
    assert_eq!(table.max_size(&Type::path("Wrapper")), Err(missing("Wrapper")));
    assert_eq!(
        table.max_size(&Type::generic("Wrapper", vec![Type::path("u8"), Type::path("u8")])),
        Err(missing("Wrapper"))
    );
    assert_eq!(
        table.max_size(&Type::generic("u8", vec![Type::path("u8")])),
        Err(missing("u8"))
    );
}

#[test]
fn type_parameter_applied_to_arguments_is_looked_up_in_the_table() {
    let mut table = primitives();
    let input = structure("Odd", &["T"], &[Type::generic("T", vec![Type::path("u8")])]);
    assert_eq!(table.define(input), Err(member("Odd", 0, missing("T"))));
}

#[test]
fn type_parameter_hides_a_registered_name() {
    let mut table = primitives();
    assert_eq!(table.define(structure("Hide", &["u64"], &[Type::path("u64")])), Ok(Bytes(0)));
    assert_eq!(
        table.max_size(&Type::generic("Hide", vec![Type::path("u8")])),
        Ok(Bytes(1))
    );
}

#[test]
fn member_without_capability_is_reported_with_its_index() {
    let mut table = primitives();
    let input = structure(
        "Broken",
        &[],
        &[Type::path("u8"), Type::path("Opaque"), Type::path("AlsoOpaque")],
    );
    assert_eq!(table.define(input), Err(member("Broken", 1, missing("Opaque"))));
    assert_eq!(table.len(), 7);
    assert_eq!(table.max_size(&Type::path("Broken")), Err(missing("Broken")));
}

#[test]
fn argument_without_capability_is_reported_by_name() {
    let mut table = primitives();
    let input = structure(
        "Holder",
        &[],
        &[Type::path("u8"), Type::generic("Vec", vec![Type::path("Opaque")])],
    );
    assert_eq!(table.define(input), Err(member("Holder", 1, missing("Opaque"))));
}

#[test]
fn structure_cannot_hold_itself() {
    let mut table = primitives();
    let input = structure("Node", &[], &[Type::path("u8"), Type::path("Node")]);
    assert_eq!(table.define(input), Err(member("Node", 1, missing("Node"))));
}

#[test]
fn defining_a_name_twice_is_a_conflict() {
    let mut table = primitives();
    assert_eq!(table.define(structure("Point", &[], &[Type::path("u32")])), Ok(Bytes(4)));
    assert_eq!(
        table.define(structure("Point", &[], &[Type::path("u64")])),
        Err(conflict("Point"))
    );
    assert_eq!(table.define(structure("u8", &[], &[])), Err(conflict("u8")));
    assert_eq!(table.len(), 8);
    assert_eq!(table.max_size(&Type::path("Point")), Ok(Bytes(4)));
}

#[test]
fn tagged_union_is_refused() {
    let mut table = primitives();
    assert_eq!(table.define(tagged_union("Shape")), Err(refused("Shape")));
    let raw = DeriveInput {
        ident: "Raw".to_string(),
        generics: Generics { params: vec![] },
        data: Data::Union,
    };
    assert_eq!(table.define(raw), Err(refused("Raw")));
    assert_eq!(table.max_size(&Type::path("Shape")), Err(unsupported("Shape")));
    assert_eq!(table.max_size(&Type::path("Raw")), Err(unsupported("Raw")));
}

#[test]
fn tagged_union_is_refused_even_under_a_taken_name() {
    let mut table = primitives();
    assert_eq!(table.define(tagged_union("u8")), Err(refused("u8")));
    assert_eq!(table.len(), 7);
    assert_eq!(table.max_size(&Type::path("u8")), Ok(Bytes(1)));
}

#[test]
fn structure_that_holds_a_tagged_union_is_refused() {
    let mut table = primitives();
    assert_eq!(table.define(tagged_union("Shape")), Err(refused("Shape")));
    let drawing = structure("Drawing", &[], &[Type::path("u32"), Type::path("Shape")]);
    assert_eq!(table.define(drawing), Err(member("Drawing", 1, unsupported("Shape"))));
    assert_eq!(table.max_size(&Type::path("Drawing")), Err(missing("Drawing")));
    let only = structure("Only", &[], &[Type::path("Shape")]);
    assert_eq!(table.define(only), Err(member("Only", 0, unsupported("Shape"))));
}

#[test]
fn generic_structure_applied_to_a_tagged_union_has_no_size() {
    let mut table = primitives();
    assert_eq!(table.define(tagged_union("Shape")), Err(refused("Shape")));
    assert_eq!(table.define(structure("Wrapper", &["T"], &[Type::path("T")])), Ok(Bytes(0)));
    assert_eq!(
        table.max_size(&Type::generic("Wrapper", vec![Type::path("Shape")])),
        Err(unsupported("Shape"))
    );
}

#[test]
fn members_too_large_to_count_overflow() {
    let mut table = Registry::new();
    assert_eq!(table.register_fixed("Huge", vec![], Bytes(usize::MAX)), Ok(()));
    assert_eq!(table.register_fixed("u8", vec![], Bytes(1)), Ok(()));
    assert_eq!(table.register_fixed("String", vec![], Unbounded), Ok(()));
    assert_eq!(
        table.define(structure("Fits", &[], &[Type::path("Huge")])),
        Ok(Bytes(usize::MAX))
    );
    assert_eq!(
        table.define(structure("TooMuch", &[], &[Type::path("Huge"), Type::path("u8")])),
        Err(overflow("TooMuch"))
    );
    assert_eq!(
        table.define(structure("TooMuchToo", &[], &[Type::path("u8"), Type::path("Huge")])),
        Err(overflow("TooMuchToo"))
    );
    assert_eq!(
        table.define(structure(
            "NoBound",
            &[],
            &[Type::path("Huge"), Type::path("u8"), Type::path("String")]
        )),
        Ok(Unbounded)
    );
    assert_eq!(table.len(), 5);
}

#[test]
fn instantiation_too_large_to_count_overflows() {
    let mut table = Registry::new();
    assert_eq!(table.register_fixed("Huge", vec![], Bytes(usize::MAX)), Ok(()));
    assert_eq!(table.register_fixed("u8", vec![], Bytes(1)), Ok(()));
    assert_eq!(
        table.define(structure("Two", &["T"], &[Type::path("T"), Type::path("T")])),
        Ok(Bytes(0))
    );
    assert_eq!(table.max_size(&Type::generic("Two", vec![Type::path("u8")])), Ok(Bytes(2)));
    assert_eq!(
        table.max_size(&Type::generic("Two", vec![Type::path("Huge")])),
        Err(SizeError::Overflow { name: "Two".to_string() })
    );
}

#[test]
fn missing_member_is_reported_before_overflow() {
    let mut table = Registry::new();
    assert_eq!(table.register_fixed("Huge", vec![], Bytes(usize::MAX)), Ok(()));
    let input = structure(
        "Mixed",
        &[],
        &[Type::path("Huge"), Type::path("Huge"), Type::path("Opaque")],
    );
    assert_eq!(table.define(input), Err(member("Mixed", 2, missing("Opaque"))));
}

#[test]
fn registering_checks_like_defining() {
    let mut table = primitives();
    let point = derive_cdr_encoding_size(structure(
        "Point",
        &[],
        &[Type::path("u32"), Type::path("u32")],
    ));
    assert_eq!(table.register(point.clone().unwrap()), Ok(Bytes(8)));
    assert_eq!(table.register(point.unwrap()), Err(conflict("Point")));
    let broken = derive_cdr_encoding_size(structure("Broken", &[], &[Type::path("Opaque")]));
    assert_eq!(table.register(broken.unwrap()), Err(member("Broken", 0, missing("Opaque"))));
    assert_eq!(table.len(), 8);
    assert_eq!(table.max_size(&Type::path("Point")), Ok(Bytes(8)));
}

#[test]
fn later_entries_change_no_earlier_size() {
    let mut table = primitives();
    assert_eq!(
        table.define(structure("First", &[], &[Type::path("u64"), Type::path("u8")])),
        Ok(Bytes(9))
    );
    let before = table.max_size(&Type::path("First"));
    assert_eq!(table.define(structure("Second", &[], &[Type::path("First")])), Ok(Bytes(9)));
    assert_eq!(table.register_fixed("Third", vec![], Bytes(3)), Ok(()));
    assert_eq!(table.max_size(&Type::path("First")), before);
    assert_eq!(table.max_size(&Type::path("u64")), Ok(Bytes(8)));
}

#[test]
fn what_a_definition_is_given_is_what_its_name_resolves_to() {
    let mut table = primitives();
    let given = table.define(structure(
        "Record",
        &[],
        &[Type::path("u128"), Type::path("u16"), Type::path("u8")],
    ));
    assert_eq!(given, Ok(Bytes(19)));
    assert_eq!(table.max_size(&Type::path("Record")).ok(), given.ok());
}

#[test]
fn type_parameter_names_skip_lifetimes_and_constants() {
    let generics = Generics {
        params: vec![
            GenericParam::Lifetime("'a".to_string()),
            GenericParam::Type(TypeParam { ident: "K".to_string(), bounds: vec![] }),
            GenericParam::Const("N".to_string()),
            GenericParam::Type(TypeParam {
                ident: "V".to_string(),
                bounds: vec!["Clone".to_string()],
            }),
        ],
    };
    assert_eq!(type_param_names(&generics), vec!["K".to_string(), "V".to_string()]);
    assert_eq!(type_param_names(&Generics { params: vec![] }), Vec::<String>::new());
}

#[test]
fn lifetimes_and_constants_bind_no_argument() {
    let mut table = primitives();
    let input = DeriveInput {
        ident: "Slice".to_string(),
        generics: Generics {
            params: vec![
                GenericParam::Lifetime("'a".to_string()),
                GenericParam::Type(TypeParam { ident: "T".to_string(), bounds: vec![] }),
                GenericParam::Const("N".to_string()),
            ],
        },
        data: Data::Struct(Fields::Named(vec![
            Field { ident: Some("head".to_string()), ty: Type::path("T") },
            Field { ident: Some("len".to_string()), ty: Type::path("u32") },
        ])),
    };
    assert_eq!(table.define(input), Ok(Bytes(4)));
    assert_eq!(
        table.max_size(&Type::generic("Slice", vec![Type::path("u64")])),
        Ok(Bytes(12))
    );
}

#[test]
fn fixed_capability_with_parameters_wants_its_arguments() {
    let table = primitives();
    assert_eq!(table.max_size(&Type::path("Vec")), Err(missing("Vec")));
    assert_eq!(
        table.max_size(&Type::generic("Vec", vec![Type::path("Opaque")])),
        Err(missing("Opaque"))
    );
    assert_eq!(
        table.max_size(&Type::generic(
            "Vec",
            vec![Type::generic("Vec", vec![Type::path("u16")])]
        )),
        Ok(Unbounded)
    );
}

#[test]
fn copy_of_a_table_resolves_alike() {
    let mut table = primitives();
    assert_eq!(table.define(structure("Point", &[], &[Type::path("u32")])), Ok(Bytes(4)));
    let copy = table.clone();
    assert_eq!(copy, table);
    assert_eq!(copy.max_size(&Type::path("Point")), Ok(Bytes(4)));
}
