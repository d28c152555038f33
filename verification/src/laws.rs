//! What holds of sizes, whatever the table and the definitions are.

use crate::bounded_generics;
use crate::capability_bound;
use crate::derived;
use crate::error::{DeriveFault, SizeFault};
use crate::input::{
    DataModel, DeriveInputModel, FieldModel, FieldsModel, GenericParamModel, GenericsModel,
};
use crate::registry::{
    arguments_of, defined, entry_of, find_name, lemma_find_name, lemma_sizes_of_ok, names,
    lemma_free_name_stays_unique, size_of, sizes_of, summed, table_after, type_params,
    unique_names, unsupported_entry, zeros, CapabilityModel, EntryModel,
};
use crate::size::MaxSize;
use crate::size_sum;
use crate::types::TypeRef;
use vstd::prelude::*;

verus! {

// Structures without members.

/// A structure without members takes zero bytes, whatever the table holds
/// and whatever its type parameters stand for.
pub proof fn lemma_no_members(
    table: Seq<EntryModel>,
    limit: nat,
    params: Seq<Seq<char>>,
    sizes: Seq<MaxSize>,
    name: Seq<char>,
)
    ensures
        sizes_of(table, limit, params, sizes, Seq::empty()) == Ok::<
            Seq<MaxSize>,
            (nat, SizeFault),
        >(Seq::empty()),
        summed(name, Seq::empty()) == Ok::<MaxSize, SizeFault>(MaxSize::zero()),
{
}

/// A definition of a structure without members is given zero bytes, unless
/// its name is taken.
pub proof fn lemma_no_members_defined(
    table: Seq<EntryModel>,
    input: DeriveInputModel,
    members: FieldsModel,
)
    requires
        input.data == DataModel::Struct(members),
        members.members().len() == 0,
        find_name(names(table), input.ident, table.len()) is None,
    ensures
        defined(table, input) == Ok::<MaxSize, DeriveFault>(MaxSize::zero()),
{
    assert(members.types() =~= Seq::empty());
}

// The size of a structure is the total of the sizes of its members.

/// The sizes that the members of a definition have one by one, against a
/// table, with each type parameter counted as zero bytes.
pub open spec fn member_sizes(
    table: Seq<EntryModel>,
    input: DeriveInputModel,
    members: FieldsModel,
) -> Seq<Result<MaxSize, SizeFault>> {
    Seq::new(
        members.types().len(),
        |i: int|
            size_of(
                table,
                table.len(),
                type_params(input.generics.params),
                zeros(type_params(input.generics.params).len()),
                members.types()[i],
            ),
    )
}

/// A structure that is given a size has members that all have sizes, and is
/// given their total.
pub proof fn lemma_size_is_total_of_members(
    table: Seq<EntryModel>,
    input: DeriveInputModel,
    members: FieldsModel,
    size: MaxSize,
)
    requires
        input.data == DataModel::Struct(members),
        defined(table, input) == Ok::<MaxSize, DeriveFault>(size),
    ensures
        forall|i: int|
            0 <= i < members.types().len() ==> (#[trigger] member_sizes(
                table,
                input,
                members,
            )[i]) is Ok,
        size == MaxSize::total(
            member_sizes(table, input, members).map_values(
                |r: Result<MaxSize, SizeFault>| r->Ok_0,
            ),
        ),
{
    lemma_bounded_type_params(input.generics);
    let params = type_params(input.generics.params);
    lemma_sizes_of_ok(table, table.len(), params, zeros(params.len()), members.types());
    let resolved = sizes_of(table, table.len(), params, zeros(params.len()), members.types())->Ok_0;
    assert(resolved =~= member_sizes(table, input, members).map_values(
        |r: Result<MaxSize, SizeFault>| r->Ok_0,
    ));
}

// The order and the naming of members.

/// The total of the sizes that `size` gives the members of `types`.
spec fn total_by(types: Seq<TypeRef>, size: spec_fn(TypeRef) -> MaxSize) -> MaxSize {
    types.fold_left(MaxSize::zero(), |acc: MaxSize, ty: TypeRef| acc.plus(size(ty)))
}

/// Summing the sizes of a list of types is summing the list of their sizes.
proof fn lemma_total_by(types: Seq<TypeRef>, size: spec_fn(TypeRef) -> MaxSize)
    ensures
        MaxSize::total(types.map_values(size)) == total_by(types, size),
    decreases types.len(),
{
    if types.len() > 0 {
        assert(types.map_values(size).drop_last() =~= types.drop_last().map_values(size));
        lemma_total_by(types.drop_last(), size);
    }
}

/// The order of the members does not matter: where every type of `a` has a
/// size, a list `b` of the same types in another order has sizes too, and
/// the same total.
pub proof fn lemma_member_order(
    table: Seq<EntryModel>,
    limit: nat,
    params: Seq<Seq<char>>,
    sizes: Seq<MaxSize>,
    a: Seq<TypeRef>,
    b: Seq<TypeRef>,
)
    requires
        a.to_multiset() == b.to_multiset(),
        sizes_of(table, limit, params, sizes, a) is Ok,
    ensures
        sizes_of(table, limit, params, sizes, b) is Ok,
        MaxSize::total(sizes_of(table, limit, params, sizes, b)->Ok_0) == MaxSize::total(
            sizes_of(table, limit, params, sizes, a)->Ok_0,
        ),
{
    broadcast use vstd::seq_lib::group_to_multiset_ensures;

    let size = |ty: TypeRef| size_of(table, limit, params, sizes, ty)->Ok_0;
    lemma_sizes_of_ok(table, limit, params, sizes, a);
    lemma_sizes_of_ok(table, limit, params, sizes, b);
    assert forall|j: int| 0 <= j < b.len() implies #[trigger] size_of(
        table,
        limit,
        params,
        sizes,
        b[j],
    ) is Ok by {
        assert(b.contains(b[j]));
        assert(b.to_multiset().count(b[j]) > 0);
        assert(a.contains(b[j]));
        let i = choose|i: int| 0 <= i < a.len() && a[i] == b[j];
        assert(size_of(table, limit, params, sizes, a[i]) is Ok);
    }
    let sizes_a = sizes_of(table, limit, params, sizes, a)->Ok_0;
    let sizes_b = sizes_of(table, limit, params, sizes, b)->Ok_0;
    assert(sizes_a =~= a.map_values(size));
    assert(sizes_b =~= b.map_values(size));
    lemma_total_by(a, size);
    lemma_total_by(b, size);
    vstd::seq_lib::lemma_fold_left_permutation(
        a,
        b,
        |acc: MaxSize, ty: TypeRef| acc.plus(size(ty)),
        MaxSize::zero(),
    );
}

/// The size of a structure does not depend on the order in which its
/// members are declared: where a structure `a` is given a size, a structure
/// `b` under a free name, with the same type parameters and the same members
/// in another order, is given the same size against the same table.
pub proof fn lemma_declaration_order(
    table: Seq<EntryModel>,
    a: DeriveInputModel,
    b: DeriveInputModel,
    members_a: FieldsModel,
    members_b: FieldsModel,
)
    requires
        a.data == DataModel::Struct(members_a),
        b.data == DataModel::Struct(members_b),
        type_params(a.generics.params) == type_params(b.generics.params),
        members_a.types().to_multiset() == members_b.types().to_multiset(),
        find_name(names(table), b.ident, table.len()) is None,
        defined(table, a) is Ok,
    ensures
        defined(table, b) == defined(table, a),
{
    lemma_bounded_type_params(a.generics);
    lemma_bounded_type_params(b.generics);
    let params = type_params(a.generics.params);
    lemma_member_order(
        table,
        table.len(),
        params,
        zeros(params.len()),
        members_a.types(),
        members_b.types(),
    );
}

/// Two lists that hold the same two types in opposite orders have the same
/// total.
pub proof fn lemma_two_members_swapped(
    table: Seq<EntryModel>,
    limit: nat,
    params: Seq<Seq<char>>,
    sizes: Seq<MaxSize>,
    first: TypeRef,
    second: TypeRef,
)
    requires
        sizes_of(table, limit, params, sizes, seq![first, second]) is Ok,
    ensures
        sizes_of(table, limit, params, sizes, seq![second, first]) is Ok,
        MaxSize::total(sizes_of(table, limit, params, sizes, seq![second, first])->Ok_0)
            == MaxSize::total(sizes_of(table, limit, params, sizes, seq![first, second])->Ok_0),
{
    broadcast use vstd::seq_lib::group_to_multiset_ensures;

    let a = seq![first, second];
    let b = seq![second, first];
    assert(a =~= Seq::<TypeRef>::empty().push(first).push(second));
    assert(b =~= Seq::<TypeRef>::empty().push(second).push(first));
    assert(a.to_multiset() =~= b.to_multiset());
    lemma_member_order(table, limit, params, sizes, a, b);
}

/// Two structures that hold the same two members in opposite orders have the
/// same size: where `a` is entered and given a size, `b`, defined after it
/// under another free name with the members swapped, is given the same size.
pub proof fn lemma_swapped_structures(
    table: Seq<EntryModel>,
    a: DeriveInputModel,
    b: DeriveInputModel,
    members_a: FieldsModel,
    members_b: FieldsModel,
    first: TypeRef,
    second: TypeRef,
)
    requires
        a.data == DataModel::Struct(members_a),
        b.data == DataModel::Struct(members_b),
        members_a.types() == seq![first, second],
        members_b.types() == seq![second, first],
        type_params(a.generics.params) == type_params(b.generics.params),
        a.ident != b.ident,
        find_name(names(table), b.ident, table.len()) is None,
        defined(table, a) is Ok,
    ensures
        defined(table_after(table, a), b) == defined(table, a),
{
    lemma_bounded_type_params(a.generics);
    lemma_bounded_type_params(b.generics);
    let params = type_params(a.generics.params);
    let entry = entry_of(derived(a)->Ok_0);
    let after = table.push(entry);
    lemma_entries_keep_sizes(table, entry, params, zeros(params.len()), seq![first, second]);
    lemma_two_members_swapped(after, after.len(), params, zeros(params.len()), first, second);
    assert(names(after)[table.len() as int] == a.ident);
    lemma_find_name_frame(names(table), names(after), b.ident, table.len());
}

/// Whether the members are named or positional makes no difference to the
/// sum.
pub proof fn lemma_naming_is_irrelevant(members: Seq<FieldModel>)
    ensures
        size_sum(DataModel::Struct(FieldsModel::Named(members))) == size_sum(
            DataModel::Struct(FieldsModel::Unnamed(members)),
        ),
{
}

// Faults.

/// The first member that has no size decides the outcome: a structure whose
/// name is free and whose member at `index` is the first without a size is
/// refused with that member's index and fault.
pub proof fn lemma_first_fault(
    table: Seq<EntryModel>,
    input: DeriveInputModel,
    members: FieldsModel,
    index: int,
    cause: SizeFault,
)
    requires
        input.data == DataModel::Struct(members),
        find_name(names(table), input.ident, table.len()) is None,
        0 <= index < members.types().len(),
        size_of(
            table,
            table.len(),
            type_params(input.generics.params),
            zeros(type_params(input.generics.params).len()),
            members.types()[index],
        ) == Err::<MaxSize, SizeFault>(cause),
        forall|i: int|
            0 <= i < index ==> #[trigger] size_of(
                table,
                table.len(),
                type_params(input.generics.params),
                zeros(type_params(input.generics.params).len()),
                members.types()[i],
            ) is Ok,
    ensures
        defined(table, input) == Err::<MaxSize, DeriveFault>(
            DeriveFault::Field { name: input.ident, index: index as nat, cause },
        ),
        table_after(table, input) == table,
{
    lemma_bounded_type_params(input.generics);
    let params = type_params(input.generics.params);
    lemma_sizes_of_ok(table, table.len(), params, zeros(params.len()), members.types());
    match sizes_of(table, table.len(), params, zeros(params.len()), members.types()) {
        Ok(resolved) => {
            assert(size_of(
                table,
                table.len(),
                params,
                zeros(params.len()),
                members.types()[index],
            ) is Ok);
        },
        Err((first, fault)) => {
            if first < index {
                assert(size_of(
                    table,
                    table.len(),
                    params,
                    zeros(params.len()),
                    members.types()[first as int],
                ) is Ok);
            } else if first > index {
                assert(size_of(
                    table,
                    table.len(),
                    params,
                    zeros(params.len()),
                    members.types()[index],
                ) is Ok);
            }
        },
    }
}

/// A type that the table knows as a tagged union has no size, whatever it is
/// applied to.
pub proof fn lemma_tagged_union_has_no_size(
    table: Seq<EntryModel>,
    limit: nat,
    params: Seq<Seq<char>>,
    sizes: Seq<MaxSize>,
    ty: TypeRef,
    index: nat,
)
    requires
        find_name(names(table), ty.name, limit) == Some(index),
        table[index as int].capability is Unsupported,
        !(ty.args.len() == 0 && find_name(params, ty.name, params.len()) is Some),
    ensures
        size_of(table, limit, params, sizes, ty) == Err::<MaxSize, SizeFault>(
            SizeFault::UnsupportedShape { name: ty.name },
        ),
{
}

/// A tagged union is refused, whatever the table holds, and the table then
/// knows its name: a reference to it is refused as unsupported.
pub proof fn lemma_tagged_union_refused(
    table: Seq<EntryModel>,
    input: DeriveInputModel,
    args: Seq<TypeRef>,
)
    requires
        input.data is Enum || input.data is Union,
        find_name(names(table), input.ident, table.len()) is None,
    ensures
        defined(table, input) == Err::<MaxSize, DeriveFault>(
            DeriveFault::UnsupportedShape { name: input.ident },
        ),
        table_after(table, input) == table.push(unsupported_entry(input.ident)),
        size_of(
            table_after(table, input),
            table.len() + 1,
            Seq::empty(),
            Seq::empty(),
            TypeRef { name: input.ident, args },
        ) == Err::<MaxSize, SizeFault>(SizeFault::UnsupportedShape { name: input.ident }),
{
    let after = table.push(unsupported_entry(input.ident));
    assert(names(after)[table.len() as int] == input.ident);
}

// Type parameters.

/// Bounding the type parameters renames none of them.
pub proof fn lemma_bounded_type_params(generics: GenericsModel)
    ensures
        type_params(bounded_generics(generics).params) == type_params(generics.params),
    decreases generics.params.len(),
{
    let bounded = bounded_generics(generics).params;
    if generics.params.len() > 0 {
        let front = GenericsModel { params: generics.params.drop_last() };
        lemma_bounded_type_params(front);
        assert(bounded.drop_last() =~= bounded_generics(front).params);
    }
}

/// After bounding, every type parameter carries the capability bound as
/// the last of its bounds.
pub proof fn lemma_every_type_param_bounded(generics: GenericsModel, i: int)
    requires
        0 <= i < generics.params.len(),
    ensures
        bounded_generics(generics).params[i] matches GenericParamModel::Type(param)
            ==> param.bounds.len() > 0 && param.bounds.last() == capability_bound(),
{
}

/// Instantiating a generic structure: once a structure is entered, a
/// reference that applies it to as many types as it has type parameters, all
/// of which have sizes, has the total of the structure's members with the
/// parameters bound to those sizes. An argument without a size is the fault
/// of the whole.
pub proof fn lemma_instantiated(
    table: Seq<EntryModel>,
    input: DeriveInputModel,
    members: FieldsModel,
    args: Seq<TypeRef>,
)
    requires
        defined(table, input) is Ok,
        input.data == DataModel::Struct(members),
        args.len() == type_params(input.generics.params).len(),
        args.len() > 0,
    ensures
        size_of(
            table_after(table, input),
            table.len() + 1,
            Seq::empty(),
            Seq::empty(),
            TypeRef { name: input.ident, args },
        ) == match sizes_of(
            table_after(table, input),
            table.len() + 1,
            Seq::empty(),
            Seq::empty(),
            args,
        ) {
            Err((_, fault)) => Err::<MaxSize, SizeFault>(fault),
            Ok(arguments) => match sizes_of(
                table,
                table.len(),
                type_params(input.generics.params),
                arguments,
                members.types(),
            ) {
                Err((_, fault)) => Err(fault),
                Ok(resolved) => summed(input.ident, resolved),
            },
        },
{
    lemma_bounded_type_params(input.generics);
    let registration = derived(input)->Ok_0;
    let entry = entry_of(registration);
    let after = table.push(entry);
    assert(names(after)[table.len() as int] == input.ident);
    if let Ok(arguments) = sizes_of(after, table.len() + 1, Seq::empty(), Seq::empty(), args) {
        lemma_sizes_of_frame(
            table,
            after,
            table.len(),
            entry.params,
            arguments,
            registration.sum,
        );
    }
}

/// The total of one size is that size.
pub proof fn lemma_total_single(size: MaxSize)
    ensures
        MaxSize::total(seq![size]) == size,
{
    reveal_with_fuel(Seq::fold_left, 2);
    assert(seq![size].drop_last() =~= Seq::empty());
}

/// A structure that wraps one member of the type of its only parameter is
/// as large as what it is applied to, and has no size where that has none.
pub proof fn lemma_wrapper(
    table: Seq<EntryModel>,
    limit: nat,
    name: Seq<char>,
    param: Seq<char>,
    argument: TypeRef,
    index: nat,
)
    requires
        find_name(names(table), name, limit) == Some(index),
        table[index as int].params == seq![param],
        table[index as int].capability == CapabilityModel::Derived(
            seq![TypeRef { name: param, args: Seq::empty() }],
        ),
    ensures
        size_of(
            table,
            limit,
            Seq::empty(),
            Seq::empty(),
            TypeRef { name, args: seq![argument] },
        ) == match size_of(table, limit, Seq::empty(), Seq::empty(), argument) {
            Ok(size) => if size.fits() {
                Ok(size)
            } else {
                Err(SizeFault::Overflow { name })
            },
            Err(fault) => Err(fault),
        },
{
    reveal_with_fuel(sizes_of, 3);
    reveal_with_fuel(find_name, 3);
    let args = seq![argument];
    let inner = seq![TypeRef { name: param, args: Seq::empty() }];
    assert(args.drop_last() =~= Seq::empty());
    assert(inner.drop_last() =~= Seq::empty());
    lemma_find_name(names(table), name, limit);
    if let Ok(size) = size_of(table, limit, Seq::empty(), Seq::empty(), argument) {
        let arguments = Seq::<MaxSize>::empty().push(size);
        assert(sizes_of(table, limit, Seq::empty(), Seq::empty(), args) == Ok::<
            Seq<MaxSize>,
            (nat, SizeFault),
        >(arguments));
        assert(find_name(seq![param], param, 1) == Some(0nat));
        assert(size_of(table, index, seq![param], arguments, inner[0]) == Ok::<
            MaxSize,
            SizeFault,
        >(size));
        assert(sizes_of(table, index, seq![param], arguments, inner) == Ok::<
            Seq<MaxSize>,
            (nat, SizeFault),
        >(arguments));
        assert(arguments =~= seq![size]);
        lemma_total_single(size);
    }
}

/// Whether a type has a size does not depend on what the type parameters
/// stand for, short of an overflow: where it has a size under the sizes `a`,
/// then under any other sizes `b` it has a size too, unless the bytes can no
/// longer be counted.
pub proof fn lemma_parameters_do_not_decide(
    table: Seq<EntryModel>,
    limit: nat,
    params: Seq<Seq<char>>,
    a: Seq<MaxSize>,
    b: Seq<MaxSize>,
    ty: TypeRef,
)
    requires
        size_of(table, limit, params, a, ty) is Ok,
    ensures
        size_of(table, limit, params, b, ty) is Ok || size_of(table, limit, params, b, ty)
            matches Err(SizeFault::Overflow { .. }),
    decreases limit, ty, 1nat,
{
    if !(ty.args.len() == 0 && find_name(params, ty.name, params.len()) is Some) {
        lemma_find_name(names(table), ty.name, limit);
        let index = find_name(names(table), ty.name, limit)->Some_0;
        let found = table[index as int];
        lemma_parameters_do_not_decide_list(table, limit, params, a, b, ty.args);
        if let CapabilityModel::Derived(terms) = found.capability {
            if let Ok(under_b) = sizes_of(table, limit, params, b, ty.args) {
                let under_a = sizes_of(table, limit, params, a, ty.args)->Ok_0;
                lemma_parameters_do_not_decide_list(
                    table,
                    index,
                    found.params,
                    under_a,
                    under_b,
                    terms,
                );
            }
        }
    }
}

/// Whether every type of a list has a size does not depend on what the type
/// parameters stand for, short of an overflow.
pub proof fn lemma_parameters_do_not_decide_list(
    table: Seq<EntryModel>,
    limit: nat,
    params: Seq<Seq<char>>,
    a: Seq<MaxSize>,
    b: Seq<MaxSize>,
    types: Seq<TypeRef>,
)
    requires
        sizes_of(table, limit, params, a, types) is Ok,
    ensures
        sizes_of(table, limit, params, b, types) is Ok || sizes_of(table, limit, params, b, types)
            matches Err((_, SizeFault::Overflow { .. })),
    decreases limit, types, 0nat,
{
    if types.len() > 0 {
        lemma_parameters_do_not_decide_list(table, limit, params, a, b, types.drop_last());
        lemma_parameters_do_not_decide(table, limit, params, a, b, types.last());
    }
}

/// A structure that was admitted can be instantiated: applied to as many
/// types as it has type parameters, all of which have sizes, it has a size,
/// unless the bytes can no longer be counted. No capability is found missing
/// after the definition was taken.
pub proof fn lemma_admitted_instantiates(
    table: Seq<EntryModel>,
    input: DeriveInputModel,
    members: FieldsModel,
    args: Seq<TypeRef>,
)
    requires
        defined(table, input) is Ok,
        input.data == DataModel::Struct(members),
        args.len() == type_params(input.generics.params).len(),
        args.len() > 0,
        sizes_of(table_after(table, input), table.len() + 1, Seq::empty(), Seq::empty(), args)
            is Ok,
    ensures
        ({
            let size = size_of(
                table_after(table, input),
                table.len() + 1,
                Seq::empty(),
                Seq::empty(),
                TypeRef { name: input.ident, args },
            );
            size is Ok || size matches Err(SizeFault::Overflow { .. })
        }),
{
    lemma_bounded_type_params(input.generics);
    lemma_instantiated(table, input, members, args);
    let params = type_params(input.generics.params);
    let arguments = sizes_of(
        table_after(table, input),
        table.len() + 1,
        Seq::empty(),
        Seq::empty(),
        args,
    )->Ok_0;
    lemma_parameters_do_not_decide_list(
        table,
        table.len(),
        params,
        zeros(params.len()),
        arguments,
        members.types(),
    );
}

// The table as it grows.

/// Looking a name up below a limit reads nothing at or above the limit.
pub proof fn lemma_find_name_frame(
    a: Seq<Seq<char>>,
    b: Seq<Seq<char>>,
    name: Seq<char>,
    limit: nat,
)
    requires
        limit <= a.len(),
        limit <= b.len(),
        forall|i: int| 0 <= i < limit ==> a[i] == b[i],
    ensures
        find_name(a, name, limit) == find_name(b, name, limit),
    decreases limit,
{
    if limit > 0 {
        lemma_find_name_frame(a, b, name, (limit - 1) as nat);
    }
}

/// Resolving against the first `limit` entries reads nothing at or above the
/// limit: two tables that agree below it give every type the same size.
pub proof fn lemma_size_of_frame(
    a: Seq<EntryModel>,
    b: Seq<EntryModel>,
    limit: nat,
    params: Seq<Seq<char>>,
    sizes: Seq<MaxSize>,
    ty: TypeRef,
)
    requires
        limit <= a.len(),
        limit <= b.len(),
        forall|i: int| 0 <= i < limit ==> a[i] == b[i],
    ensures
        size_of(a, limit, params, sizes, ty) == size_of(b, limit, params, sizes, ty),
    decreases limit, ty, 1nat,
{
    lemma_find_name_frame(names(a), names(b), ty.name, limit);
    lemma_find_name(names(a), ty.name, limit);
    lemma_sizes_of_frame(a, b, limit, params, sizes, ty.args);
    match find_name(names(a), ty.name, limit) {
        Some(index) => {
            let entry = a[index as int];
            assert(entry == b[index as int]);
            if let CapabilityModel::Derived(terms) = entry.capability {
                if entry.params.len() == ty.args.len() {
                    if let Ok(resolved) = sizes_of(a, limit, params, sizes, ty.args) {
                        lemma_sizes_of_frame(a, b, index, entry.params, resolved, terms);
                    }
                }
            }
        },
        None => {},
    }
}

/// Resolving a list against the first `limit` entries reads nothing at or
/// above the limit.
pub proof fn lemma_sizes_of_frame(
    a: Seq<EntryModel>,
    b: Seq<EntryModel>,
    limit: nat,
    params: Seq<Seq<char>>,
    sizes: Seq<MaxSize>,
    types: Seq<TypeRef>,
)
    requires
        limit <= a.len(),
        limit <= b.len(),
        forall|i: int| 0 <= i < limit ==> a[i] == b[i],
    ensures
        sizes_of(a, limit, params, sizes, types) == sizes_of(b, limit, params, sizes, types),
    decreases limit, types, 0nat,
{
    if types.len() > 0 {
        lemma_sizes_of_frame(a, b, limit, params, sizes, types.drop_last());
        lemma_size_of_frame(a, b, limit, params, sizes, types.last());
    }
}

/// What a definition is given is what its name resolves to afterwards: once
/// a structure without type parameters is entered, a reference to it has the
/// size that its definition was given.
pub proof fn lemma_defined_then_resolved(
    table: Seq<EntryModel>,
    input: DeriveInputModel,
    size: MaxSize,
)
    requires
        defined(table, input) == Ok::<MaxSize, DeriveFault>(size),
        type_params(input.generics.params).len() == 0,
    ensures
        size_of(
            table_after(table, input),
            table.len() + 1,
            Seq::empty(),
            Seq::empty(),
            TypeRef { name: input.ident, args: Seq::empty() },
        ) == Ok::<MaxSize, SizeFault>(size),
{
    lemma_bounded_type_params(input.generics);
    let registration = derived(input)->Ok_0;
    let entry = entry_of(registration);
    let after = table.push(entry);
    let ty = TypeRef { name: input.ident, args: Seq::empty() };
    assert(names(after)[table.len() as int] == input.ident);
    assert(entry.params =~= Seq::empty());
    assert(zeros(0) =~= Seq::empty());
    assert(arguments_of(after, table.len() + 1, Seq::empty(), Seq::empty(), 0, ty) == Ok::<
        Seq<MaxSize>,
        SizeFault,
    >(Seq::empty()));
    lemma_sizes_of_frame(
        table,
        after,
        table.len(),
        Seq::empty(),
        Seq::empty(),
        registration.sum,
    );
}

/// Entering a type under a free name changes no size that was resolved
/// before.
pub proof fn lemma_entry_keeps_size(
    table: Seq<EntryModel>,
    entry: EntryModel,
    params: Seq<Seq<char>>,
    sizes: Seq<MaxSize>,
    ty: TypeRef,
)
    requires
        find_name(names(table), entry.name, table.len()) is None,
        size_of(table, table.len(), params, sizes, ty) is Ok,
    ensures
        size_of(table.push(entry), table.len() + 1, params, sizes, ty) == size_of(
            table,
            table.len(),
            params,
            sizes,
            ty,
        ),
    decreases ty, 0nat,
{
    let after = table.push(entry);
    let limit = table.len();
    if !(ty.args.len() == 0 && find_name(params, ty.name, params.len()) is Some) {
        assert(names(after)[limit as int] == entry.name);
        lemma_find_name_frame(names(table), names(after), ty.name, limit);
        lemma_find_name(names(table), ty.name, limit);
        let index = find_name(names(table), ty.name, limit)->Some_0;
        let found = table[index as int];
        assert(after[index as int] == found);
        lemma_entries_keep_sizes(table, entry, params, sizes, ty.args);
        if let CapabilityModel::Derived(terms) = found.capability {
            let arguments = sizes_of(table, limit, params, sizes, ty.args)->Ok_0;
            lemma_sizes_of_frame(table, after, index, found.params, arguments, terms);
        }
    }
}

/// Entering a type under a free name changes none of the sizes of a list
/// that was resolved before.
pub proof fn lemma_entries_keep_sizes(
    table: Seq<EntryModel>,
    entry: EntryModel,
    params: Seq<Seq<char>>,
    sizes: Seq<MaxSize>,
    types: Seq<TypeRef>,
)
    requires
        find_name(names(table), entry.name, table.len()) is None,
        sizes_of(table, table.len(), params, sizes, types) is Ok,
    ensures
        sizes_of(table.push(entry), table.len() + 1, params, sizes, types) == sizes_of(
            table,
            table.len(),
            params,
            sizes,
            types,
        ),
    decreases types, 1nat,
{
    if types.len() > 0 {
        lemma_entries_keep_sizes(table, entry, params, sizes, types.drop_last());
        lemma_entry_keeps_size(table, entry, params, sizes, types.last());
    }
}

/// Where no name stands twice, looking a name up finds the one entry of that
/// name, wherever below the limit it stands.
pub proof fn lemma_one_entry_is_found(table: Seq<EntryModel>, limit: nat, index: int)
    requires
        unique_names(table),
        0 <= index < limit <= table.len(),
    ensures
        find_name(names(table), table[index].name, limit) == Some(index as nat),
{
    lemma_find_name(names(table), table[index].name, limit);
    match find_name(names(table), table[index].name, limit) {
        Some(found) => {
            assert(names(table)[found as int] == table[found as int].name);
        },
        None => {
            assert(names(table)[index] == table[index].name);
        },
    }
}

/// One registration for each name: processing a definition never makes a
/// name stand twice.
pub proof fn lemma_names_stay_unique(table: Seq<EntryModel>, input: DeriveInputModel)
    requires
        unique_names(table),
    ensures
        unique_names(table_after(table, input)),
{
    match derived(input) {
        Err(_) => {
            if find_name(names(table), input.ident, table.len()) is None {
                lemma_free_name_stays_unique(table, unsupported_entry(input.ident));
            }
        },
        Ok(registration) => {
            if defined(table, input) is Ok {
                lemma_free_name_stays_unique(table, entry_of(registration));
            }
        },
    }
}

} // verus!
