//! The table of capabilities, and the resolution of sizes against it.
//!
//! Each entry binds a name to a way of computing a size. A type reference is
//! resolved by looking its name up and resolving its arguments; a derived
//! entry is then summed over its terms, which see only the entries that stood
//! in the table before it.

use crate::derive_cdr_encoding_size;
use crate::derived;
use crate::error::{derive_outcome, size_outcome, DeriveError, DeriveFault, SizeError, SizeFault};
use crate::input::{DeriveInput, DeriveInputModel, GenericParam, GenericParamModel, Generics};
use crate::registration::{Registration, RegistrationModel, SizeSum};
use crate::size::{size_views, CdrEncodingMaxSize, MaxSize};
use crate::types::{clone_strings, clone_types, texts, type_refs, Type, TypeRef};
use vstd::prelude::*;

verus! {

/// The mathematical form of a [`Capability`].
pub enum CapabilityModel {
    Fixed(MaxSize),
    Derived(Seq<TypeRef>),
    Unsupported,
}

/// How the size of a registered type is computed.
#[derive(Debug, PartialEq, Eq)]
pub enum Capability {
    /// The size is the same whatever the type is applied to.
    Fixed(CdrEncodingMaxSize),
    /// The size is a sum over the types of the members.
    Derived(SizeSum),
    /// The type is a tagged union: no size can be computed for it.
    Unsupported,
}

impl View for Capability {
    type V = CapabilityModel;

    open spec fn view(&self) -> CapabilityModel {
        match self {
            Capability::Fixed(size) => CapabilityModel::Fixed(size@),
            Capability::Derived(sum) => CapabilityModel::Derived(sum@),
            Capability::Unsupported => CapabilityModel::Unsupported,
        }
    }
}

/// The mathematical form of an [`Entry`].
pub struct EntryModel {
    pub name: Seq<char>,
    pub params: Seq<Seq<char>>,
    pub capability: CapabilityModel,
}

/// One line of the table: a type's name, the names of its type parameters,
/// and its capability.
#[derive(Debug, PartialEq, Eq)]
pub struct Entry {
    pub name: String,
    pub params: Vec<String>,
    pub capability: Capability,
}

impl View for Entry {
    type V = EntryModel;

    open spec fn view(&self) -> EntryModel {
        EntryModel { name: self.name@, params: texts(self.params@), capability: self.capability@ }
    }
}

impl Clone for Capability {
    fn clone(&self) -> (r: Capability)
        ensures
            r@ == self@,
    {
        match self {
            Capability::Fixed(size) => Capability::Fixed(*size),
            Capability::Derived(sum) => Capability::Derived(
                SizeSum { terms: clone_types(&sum.terms) },
            ),
            Capability::Unsupported => Capability::Unsupported,
        }
    }
}

impl Clone for Entry {
    fn clone(&self) -> (r: Entry)
        ensures
            r@ == self@,
    {
        Entry {
            name: self.name.clone(),
            params: clone_strings(&self.params),
            capability: self.capability.clone(),
        }
    }
}

/// The names of the entries of a table, in order.
pub open spec fn names(table: Seq<EntryModel>) -> Seq<Seq<char>> {
    Seq::new(table.len(), |i: int| table[i].name)
}

/// The last index below `limit` at which `name` stands in `names`.
pub open spec fn find_name(names: Seq<Seq<char>>, name: Seq<char>, limit: nat) -> Option<nat>
    decreases limit,
{
    if limit == 0 {
        None
    } else if limit <= names.len() && names[limit - 1] == name {
        Some((limit - 1) as nat)
    } else {
        find_name(names, name, (limit - 1) as nat)
    }
}

/// An index that [`find_name`] gives lies below the limit and within the
/// names, and the name stands there.
pub proof fn lemma_find_name(names: Seq<Seq<char>>, name: Seq<char>, limit: nat)
    ensures
        match find_name(names, name, limit) {
            Some(i) => i < limit && i < names.len() && names[i as int] == name,
            None => forall|i: int| 0 <= i < limit && i < names.len() ==> names[i] != name,
        },
    decreases limit,
{
    if limit > 0 {
        lemma_find_name(names, name, (limit - 1) as nat);
    }
}

/// The index of the last of `names` that equals `name`.
fn find_param(names: &Vec<String>, name: &String) -> (r: Option<usize>)
    ensures
        match r {
            Some(i) => find_name(texts(names@), name@, names@.len()) == Some(i as nat),
            None => find_name(texts(names@), name@, names@.len()) is None,
        },
{
    let mut i: usize = names.len();
    while i > 0
        invariant
            i <= names.len(),
            find_name(texts(names@), name@, names@.len()) == find_name(
                texts(names@),
                name@,
                i as nat,
            ),
        decreases i,
    {
        if names[i - 1] == *name {
            return Some(i - 1);
        }
        i -= 1;
    }
    None
}

/// The total of the sizes of the members of the type `name`, where it can be
/// counted.
pub open spec fn summed(name: Seq<char>, members: Seq<MaxSize>) -> Result<MaxSize, SizeFault> {
    if MaxSize::total(members).fits() {
        Ok(MaxSize::total(members))
    } else {
        Err(SizeFault::Overflow { name })
    }
}

/// The size of the type `ty`, resolved against the first `limit` entries of
/// `table`, with the type parameters `params` standing for the sizes `sizes`.
///
/// A name without arguments that is a type parameter has the size bound to
/// it. Any other name is looked up in the table. A name that is not there has
/// no capability, and a tagged union is refused. Otherwise the arguments are
/// resolved, see [`arguments_of`]. A fixed capability then gives its size. A
/// derived one gives the total of its terms, resolved against the entries
/// before it with its own parameters bound to the arguments' sizes.
pub open spec fn size_of(
    table: Seq<EntryModel>,
    limit: nat,
    params: Seq<Seq<char>>,
    sizes: Seq<MaxSize>,
    ty: TypeRef,
) -> Result<MaxSize, SizeFault>
    decreases limit, ty, 1nat,
{
    if ty.args.len() == 0 && find_name(params, ty.name, params.len()) is Some {
        Ok(sizes[find_name(params, ty.name, params.len())->Some_0 as int])
    } else {
        match find_name(names(table), ty.name, limit) {
            None => Err(SizeFault::MissingCapability { name: ty.name }),
            Some(index) => {
                let entry = table[index as int];
                match entry.capability {
                    CapabilityModel::Unsupported => Err(
                        SizeFault::UnsupportedShape { name: ty.name },
                    ),
                    CapabilityModel::Fixed(size) => match arguments_of(
                        table,
                        limit,
                        params,
                        sizes,
                        entry.params.len(),
                        ty,
                    ) {
                        Err(fault) => Err(fault),
                        Ok(_) => Ok(size),
                    },
                    CapabilityModel::Derived(terms) => match arguments_of(
                        table,
                        limit,
                        params,
                        sizes,
                        entry.params.len(),
                        ty,
                    ) {
                        Err(fault) => Err(fault),
                        Ok(arguments) => {
                            proof {
                                lemma_find_name(names(table), ty.name, limit);
                            }
                            match sizes_of(table, index, entry.params, arguments, terms) {
                                Err((_, fault)) => Err(fault),
                                Ok(members) => summed(ty.name, members),
                            }
                        },
                    },
                }
            },
        }
    }
}

/// The sizes of the arguments of the type `ty`, which must be `expected` in
/// number: a type applied to another number of arguments has no capability.
/// The first argument that has no size gives the fault of the whole.
pub open spec fn arguments_of(
    table: Seq<EntryModel>,
    limit: nat,
    params: Seq<Seq<char>>,
    sizes: Seq<MaxSize>,
    expected: nat,
    ty: TypeRef,
) -> Result<Seq<MaxSize>, SizeFault>
    decreases limit, ty, 0nat,
{
    if ty.args.len() != expected {
        Err(SizeFault::MissingCapability { name: ty.name })
    } else {
        match sizes_of(table, limit, params, sizes, ty.args) {
            Err((_, fault)) => Err(fault),
            Ok(arguments) => Ok(arguments),
        }
    }
}

/// The sizes of the types `types`, in order, or the index and the fault of
/// the first of them that has no size.
pub open spec fn sizes_of(
    table: Seq<EntryModel>,
    limit: nat,
    params: Seq<Seq<char>>,
    sizes: Seq<MaxSize>,
    types: Seq<TypeRef>,
) -> Result<Seq<MaxSize>, (nat, SizeFault)>
    decreases limit, types, 0nat,
{
    if types.len() == 0 {
        Ok(Seq::empty())
    } else {
        match sizes_of(table, limit, params, sizes, types.drop_last()) {
            Err(fault) => Err(fault),
            Ok(before) => match size_of(table, limit, params, sizes, types.last()) {
                Err(fault) => Err(((types.len() - 1) as nat, fault)),
                Ok(size) => Ok(before.push(size)),
            },
        }
    }
}

/// Every size that [`sizes_of`] gives stands for the type at the same index.
pub proof fn lemma_sizes_of_ok(
    table: Seq<EntryModel>,
    limit: nat,
    params: Seq<Seq<char>>,
    sizes: Seq<MaxSize>,
    types: Seq<TypeRef>,
)
    ensures
        match sizes_of(table, limit, params, sizes, types) {
            Ok(resolved) => {
                &&& resolved.len() == types.len()
                &&& forall|i: int|
                    0 <= i < types.len() ==> #[trigger] size_of(
                        table,
                        limit,
                        params,
                        sizes,
                        types[i],
                    ) == Ok::<MaxSize, SizeFault>(resolved[i])
            },
            Err((index, fault)) => {
                &&& index < types.len()
                &&& size_of(table, limit, params, sizes, types[index as int]) == Err::<
                    MaxSize,
                    SizeFault,
                >(fault)
                &&& forall|i: int|
                    0 <= i < index ==> #[trigger] size_of(
                        table,
                        limit,
                        params,
                        sizes,
                        types[i],
                    ) is Ok
            },
        },
    decreases types.len(),
{
    if types.len() > 0 {
        let front = types.drop_last();
        lemma_sizes_of_ok(table, limit, params, sizes, front);
        assert(forall|i: int| 0 <= i < front.len() ==> front[i] == types[i]);
        match sizes_of(table, limit, params, sizes, front) {
            Ok(before) => {
                match size_of(table, limit, params, sizes, types.last()) {
                    Ok(size) => {
                        let resolved = before.push(size);
                        assert forall|i: int| 0 <= i < types.len() implies #[trigger] size_of(
                            table,
                            limit,
                            params,
                            sizes,
                            types[i],
                        ) == Ok::<MaxSize, SizeFault>(resolved[i]) by {
                            if i < front.len() {
                                assert(front[i] == types[i]);
                            }
                        }
                    },
                    Err(fault) => {
                        assert forall|i: int| 0 <= i < types.len() - 1 implies #[trigger] size_of(
                            table,
                            limit,
                            params,
                            sizes,
                            types[i],
                        ) is Ok by {
                            assert(front[i] == types[i]);
                        }
                    },
                }
            },
            Err((index, fault)) => {
                assert(front[index as int] == types[index as int]);
                assert forall|i: int| 0 <= i < index implies #[trigger] size_of(
                    table,
                    limit,
                    params,
                    sizes,
                    types[i],
                ) is Ok by {
                    assert(front[i] == types[i]);
                }
            },
        }
    }
}

/// A fault among the first `k` types is the fault of the whole list.
pub proof fn lemma_sizes_of_prefix_fault(
    table: Seq<EntryModel>,
    limit: nat,
    params: Seq<Seq<char>>,
    sizes: Seq<MaxSize>,
    types: Seq<TypeRef>,
    k: int,
)
    requires
        0 <= k <= types.len(),
        sizes_of(table, limit, params, sizes, types.take(k)) is Err,
    ensures
        sizes_of(table, limit, params, sizes, types) == sizes_of(
            table,
            limit,
            params,
            sizes,
            types.take(k),
        ),
    decreases types.len(),
{
    if k == types.len() {
        assert(types.take(k) =~= types);
    } else {
        assert(types.drop_last().take(k) =~= types.take(k));
        lemma_sizes_of_prefix_fault(table, limit, params, sizes, types.drop_last(), k);
    }
}

/// The names of the type parameters among `params`, in order.
pub open spec fn type_params(params: Seq<GenericParamModel>) -> Seq<Seq<char>>
    decreases params.len(),
{
    if params.len() == 0 {
        Seq::empty()
    } else {
        let front = type_params(params.drop_last());
        match params.last() {
            GenericParamModel::Type(param) => front.push(param.ident),
            _ => front,
        }
    }
}

/// As many sizes of zero bytes as asked for.
pub open spec fn zeros(count: nat) -> Seq<MaxSize> {
    Seq::new(count, |i: int| MaxSize::zero())
}

/// The entry that a registration is entered as.
pub open spec fn entry_of(registration: RegistrationModel) -> EntryModel {
    EntryModel {
        name: registration.name,
        params: type_params(registration.generics.params),
        capability: CapabilityModel::Derived(registration.sum),
    }
}

/// Whether a table takes a registration, and the size that it then has with
/// each of its type parameters counted as zero bytes.
///
/// A name that stands in the table already is a conflict. Each term must
/// resolve against the table, whatever the type parameters stand for: the
/// first that does not is reported with its index. The total must be
/// countable.
pub open spec fn admitted(table: Seq<EntryModel>, registration: RegistrationModel) -> Result<
    MaxSize,
    DeriveFault,
> {
    let params = type_params(registration.generics.params);
    let name = registration.name;
    if find_name(names(table), name, table.len()) is Some {
        Err(DeriveFault::Conflict { name })
    } else {
        match sizes_of(table, table.len(), params, zeros(params.len()), registration.sum) {
            Err((index, cause)) => Err(DeriveFault::Field { name, index, cause }),
            Ok(members) => if MaxSize::total(members).fits() {
                Ok(MaxSize::total(members))
            } else {
                Err(DeriveFault::Overflow { name })
            },
        }
    }
}

/// The outcome of processing a definition against a table.
pub open spec fn defined(table: Seq<EntryModel>, input: DeriveInputModel) -> Result<
    MaxSize,
    DeriveFault,
> {
    match derived(input) {
        Err(fault) => Err(fault),
        Ok(registration) => admitted(table, registration),
    }
}

/// The entry of a capability that is written by hand.
pub open spec fn fixed_entry(name: Seq<char>, params: Seq<Seq<char>>, size: MaxSize) -> EntryModel {
    EntryModel { name, params, capability: CapabilityModel::Fixed(size) }
}

/// The entry by which a table remembers a tagged union.
pub open spec fn unsupported_entry(name: Seq<char>) -> EntryModel {
    EntryModel { name, params: Seq::empty(), capability: CapabilityModel::Unsupported }
}

/// The table after a definition was processed against it.
///
/// A structure that is admitted is entered. A tagged union is refused, and
/// its name is entered as unsupported unless the name is taken. Nothing else
/// changes the table.
pub open spec fn table_after(table: Seq<EntryModel>, input: DeriveInputModel) -> Seq<EntryModel> {
    match derived(input) {
        Err(_) => if find_name(names(table), input.ident, table.len()) is Some {
            table
        } else {
            table.push(unsupported_entry(input.ident))
        },
        Ok(registration) => if admitted(table, registration) is Ok {
            table.push(entry_of(registration))
        } else {
            table
        },
    }
}

/// Whether no name stands twice in a table.
pub open spec fn unique_names(table: Seq<EntryModel>) -> bool {
    forall|i: int, j: int|
        0 <= i < j < table.len() ==> (#[trigger] table[i]).name != (#[trigger] table[j]).name
}

/// An entry under a free name keeps the names unique.
pub proof fn lemma_free_name_stays_unique(table: Seq<EntryModel>, entry: EntryModel)
    requires
        unique_names(table),
        find_name(names(table), entry.name, table.len()) is None,
    ensures
        unique_names(table.push(entry)),
{
    lemma_find_name(names(table), entry.name, table.len());
    let after = table.push(entry);
    assert forall|i: int, j: int| 0 <= i < j < after.len() implies (#[trigger] after[i]).name != (
    #[trigger] after[j]).name by {
        if j == table.len() {
            assert(names(table)[i] == table[i].name);
        }
    }
}

/// The names of the type parameters of `generics`, in order.
pub fn type_param_names(generics: &Generics) -> (r: Vec<String>)
    ensures
        texts(r@) == type_params(generics@.params),
{
    let ghost all = generics@.params;
    let mut found: Vec<String> = Vec::new();
    let mut i: usize = 0;
    assert(all.take(0) =~= Seq::empty());
    assert(texts(found@) =~= Seq::empty());
    while i < generics.params.len()
        invariant
            i <= generics.params.len(),
            all == generics@.params,
            texts(found@) == type_params(all.take(i as int)),
        decreases generics.params.len() - i,
    {
        let ghost before = texts(found@);
        assert(all.take(i + 1).drop_last() =~= all.take(i as int));
        assert(all.take(i + 1).last() == generics.params@[i as int]@);
        match &generics.params[i] {
            GenericParam::Type(param) => {
                found.push(param.ident.clone());
                assert(texts(found@) =~= before.push(param.ident@));
            },
            _ => {},
        }
        i += 1;
    }
    assert(all.take(i as int) =~= all);
    found
}

/// As many sizes of zero bytes as asked for.
fn zero_sizes(count: usize) -> (r: Vec<CdrEncodingMaxSize>)
    ensures
        r.len() == count,
        size_views(r@) == zeros(count as nat),
{
    let mut sizes: Vec<CdrEncodingMaxSize> = Vec::new();
    let mut i: usize = 0;
    while i < count
        invariant
            i <= count,
            sizes.len() == i,
            forall|j: int| 0 <= j < i ==> sizes@[j] == CdrEncodingMaxSize::Bytes(0),
        decreases count - i,
    {
        sizes.push(CdrEncodingMaxSize::zero());
        i += 1;
    }
    assert(size_views(sizes@) =~= zeros(count as nat));
    sizes
}

/// The table of capabilities: the types whose size can be resolved, in the
/// order in which they were entered. No name stands in it twice.
#[derive(Debug, PartialEq, Eq)]
pub struct Registry {
    entries: Vec<Entry>,
}

impl View for Registry {
    type V = Seq<EntryModel>;

    closed spec fn view(&self) -> Seq<EntryModel> {
        Seq::new(self.entries@.len(), |i: int| self.entries@[i]@)
    }
}

impl Clone for Registry {
    fn clone(&self) -> (r: Registry)
        ensures
            r@ == self@,
    {
        proof {
            use_type_invariant(self);
        }
        let mut entries: Vec<Entry> = Vec::new();
        let mut i: usize = 0;
        while i < self.entries.len()
            invariant
                i <= self.entries.len(),
                entries.len() == i,
                forall|j: int| 0 <= j < i ==> entries@[j]@ == self.entries@[j]@,
            decreases self.entries.len() - i,
        {
            entries.push(self.entries[i].clone());
            i += 1;
        }
        assert(Seq::new(entries@.len(), |i: int| entries@[i]@) =~= self@);
        Registry { entries }
    }
}

impl Registry {
    /// No name stands twice in the table.
    #[verifier::type_invariant]
    spec fn one_entry_for_each_name(self) -> bool {
        unique_names(self@)
    }

    /// The size that the table gives the type `ty`.
    pub open spec fn resolved(&self, ty: TypeRef) -> Result<MaxSize, SizeFault> {
        size_of(self@, self@.len(), Seq::empty(), Seq::empty(), ty)
    }

    /// A table without entries.
    pub fn new() -> (r: Registry)
        ensures
            r@ == Seq::<EntryModel>::empty(),
            unique_names(r@),
    {
        let r = Registry { entries: Vec::new() };
        assert(r@ =~= Seq::<EntryModel>::empty());
        r
    }

    /// The number of entries.
    pub fn len(&self) -> (r: usize)
        ensures
            r == self@.len(),
    {
        self.entries.len()
    }

    /// The index of the last entry below `limit` that is named `name`.
    fn find_entry(&self, name: &String, limit: usize) -> (r: Option<usize>)
        requires
            limit <= self@.len(),
        ensures
            match r {
                Some(i) => find_name(names(self@), name@, limit as nat) == Some(i as nat),
                None => find_name(names(self@), name@, limit as nat) is None,
            },
    {
        let mut i: usize = limit;
        while i > 0
            invariant
                i <= limit <= self.entries.len(),
                self@.len() == self.entries.len(),
                find_name(names(self@), name@, limit as nat) == find_name(
                    names(self@),
                    name@,
                    i as nat,
                ),
            decreases i,
        {
            if self.entries[i - 1].name == *name {
                return Some(i - 1);
            }
            i -= 1;
        }
        None
    }

    /// Resolves the size of `ty` against the first `limit` entries, with the
    /// type parameters `params` standing for the sizes `sizes`.
    fn size_within(
        &self,
        limit: usize,
        params: &Vec<String>,
        sizes: &Vec<CdrEncodingMaxSize>,
        ty: &Type,
    ) -> (r: Result<CdrEncodingMaxSize, SizeError>)
        requires
            limit <= self@.len(),
            params.len() == sizes.len(),
        ensures
            size_outcome(r) == size_of(
                self@,
                limit as nat,
                texts(params@),
                size_views(sizes@),
                ty@,
            ),
        decreases limit, ty, 1nat,
    {
        proof {
            ty.lemma_args();
        }
        if ty.args.len() == 0 {
            if let Some(position) = find_param(params, &ty.name) {
                proof {
                    lemma_find_name(texts(params@), ty.name@, params@.len() as nat);
                }
                return Ok(sizes[position]);
            }
        }
        let index = match self.find_entry(&ty.name, limit) {
            None => {
                return Err(SizeError::MissingCapability { name: ty.name.clone() });
            },
            Some(index) => index,
        };
        proof {
            lemma_find_name(names(self@), ty.name@, limit as nat);
        }
        let entry = &self.entries[index];
        match &entry.capability {
            Capability::Unsupported => Err(SizeError::UnsupportedShape { name: ty.name.clone() }),
            Capability::Fixed(size) => {
                match self.arguments_within(limit, params, sizes, entry.params.len(), ty) {
                    Err(error) => Err(error),
                    Ok(_) => Ok(*size),
                }
            },
            Capability::Derived(sum) => {
                let arguments = match self.arguments_within(
                    limit,
                    params,
                    sizes,
                    entry.params.len(),
                    ty,
                ) {
                    Err(error) => {
                        return Err(error);
                    },
                    Ok(arguments) => arguments,
                };
                match self.sizes_within(index, &entry.params, &arguments, &sum.terms) {
                    Err((_, error)) => Err(error),
                    Ok(members) => match CdrEncodingMaxSize::checked_total(&members) {
                        Some(total) => Ok(total),
                        None => Err(SizeError::Overflow { name: ty.name.clone() }),
                    },
                }
            },
        }
    }

    /// Resolves the sizes of the arguments of `ty`, which must be `expected`
    /// in number.
    fn arguments_within(
        &self,
        limit: usize,
        params: &Vec<String>,
        sizes: &Vec<CdrEncodingMaxSize>,
        expected: usize,
        ty: &Type,
    ) -> (r: Result<Vec<CdrEncodingMaxSize>, SizeError>)
        requires
            limit <= self@.len(),
            params.len() == sizes.len(),
        ensures
            match r {
                Ok(arguments) => {
                    &&& arguments.len() == expected
                    &&& arguments_of(
                        self@,
                        limit as nat,
                        texts(params@),
                        size_views(sizes@),
                        expected as nat,
                        ty@,
                    ) == Ok::<Seq<MaxSize>, SizeFault>(size_views(arguments@))
                },
                Err(error) => arguments_of(
                    self@,
                    limit as nat,
                    texts(params@),
                    size_views(sizes@),
                    expected as nat,
                    ty@,
                ) == Err::<Seq<MaxSize>, SizeFault>(error@),
            },
        decreases limit, ty, 0nat,
    {
        proof {
            ty.lemma_args();
        }
        if ty.args.len() != expected {
            return Err(SizeError::MissingCapability { name: ty.name.clone() });
        }
        match self.sizes_within(limit, params, sizes, &ty.args) {
            Err((_, error)) => Err(error),
            Ok(arguments) => Ok(arguments),
        }
    }

    /// Resolves the sizes of `types`, in order, and stops at the first that
    /// has none.
    fn sizes_within(
        &self,
        limit: usize,
        params: &Vec<String>,
        sizes: &Vec<CdrEncodingMaxSize>,
        types: &Vec<Type>,
    ) -> (r: Result<Vec<CdrEncodingMaxSize>, (usize, SizeError)>)
        requires
            limit <= self@.len(),
            params.len() == sizes.len(),
        ensures
            match r {
                Ok(resolved) => {
                    &&& resolved.len() == types.len()
                    &&& sizes_of(
                        self@,
                        limit as nat,
                        texts(params@),
                        size_views(sizes@),
                        type_refs(types@),
                    ) == Ok::<Seq<MaxSize>, (nat, SizeFault)>(size_views(resolved@))
                },
                Err((index, error)) => sizes_of(
                    self@,
                    limit as nat,
                    texts(params@),
                    size_views(sizes@),
                    type_refs(types@),
                ) == Err::<Seq<MaxSize>, (nat, SizeFault)>((index as nat, error@)),
            },
        decreases limit, types, 0nat,
    {
        let ghost all = type_refs(types@);
        let mut resolved: Vec<CdrEncodingMaxSize> = Vec::new();
        let mut i: usize = 0;
        assert(all.take(0) =~= Seq::empty());
        assert(size_views(resolved@) =~= Seq::empty());
        while i < types.len()
            invariant
                i <= types.len(),
                limit <= self@.len(),
                params.len() == sizes.len(),
                all == type_refs(types@),
                resolved.len() == i,
                sizes_of(
                    self@,
                    limit as nat,
                    texts(params@),
                    size_views(sizes@),
                    all.take(i as int),
                ) == Ok::<Seq<MaxSize>, (nat, SizeFault)>(size_views(resolved@)),
            decreases types.len() - i,
        {
            let ghost before = size_views(resolved@);
            assert(all.take(i + 1).drop_last() =~= all.take(i as int));
            assert(all.take(i + 1).last() == types@[i as int]@);
            match self.size_within(limit, params, sizes, &types[i]) {
                Err(error) => {
                    proof {
                        lemma_sizes_of_prefix_fault(
                            self@,
                            limit as nat,
                            texts(params@),
                            size_views(sizes@),
                            all,
                            i + 1,
                        );
                    }
                    return Err((i, error));
                },
                Ok(size) => {
                    resolved.push(size);
                    assert(size_views(resolved@) =~= before.push(size@));
                },
            }
            i += 1;
        }
        assert(all.take(i as int) =~= all);
        Ok(resolved)
    }

    /// Puts an entry under a free name at the end of the table.
    fn enter(&mut self, entry: Entry)
        requires
            find_name(names(old(self)@), entry@.name, old(self)@.len()) is None,
        ensures
            final(self)@ == old(self)@.push(entry@),
            unique_names(final(self)@),
    {
        proof {
            use_type_invariant(&*self);
            lemma_free_name_stays_unique(self@, entry@);
        }
        let mut entries: Vec<Entry> = Vec::new();
        core::mem::swap(&mut self.entries, &mut entries);
        entries.push(entry);
        assert(Seq::new(entries@.len(), |i: int| entries@[i]@) =~= old(self)@.push(entry@));
        self.entries = entries;
    }

    /// Enters a capability that is written by hand: the type `name`, applied
    /// to as many arguments as there are `params`, has the size `size`
    /// whatever the arguments are. A name that is taken is a conflict.
    pub fn register_fixed(
        &mut self,
        name: &str,
        params: Vec<String>,
        size: CdrEncodingMaxSize,
    ) -> (r: Result<(), DeriveError>)
        ensures
            match find_name(names(old(self)@), name@, old(self)@.len()) {
                Some(_) => {
                    &&& r matches Err(error)
                    &&& error@ == DeriveFault::Conflict { name: name@ }
                    &&& final(self)@ == old(self)@
                },
                None => {
                    &&& r is Ok
                    &&& final(self)@ == old(self)@.push(
                        fixed_entry(name@, texts(params@), size@),
                    )
                },
            },
            unique_names(final(self)@),
    {
        proof {
            use_type_invariant(&*self);
        }
        let name = name.to_owned();
        match self.find_entry(&name, self.entries.len()) {
            Some(_) => Err(DeriveError::Conflict { name }),
            None => {
                let entry = Entry { name, params, capability: Capability::Fixed(size) };
                self.enter(entry);
                Ok(())
            },
        }
    }

    /// Enters a derived capability, after checking it against the table as
    /// it stands: see [`admitted`]. Gives the size of the structure with each
    /// of its type parameters counted as zero bytes. A registration that is
    /// refused leaves the table as it was.
    pub fn register(&mut self, registration: Registration) -> (r: Result<
        CdrEncodingMaxSize,
        DeriveError,
    >)
        ensures
            derive_outcome(r) == admitted(old(self)@, registration@),
            final(self)@ == if r is Ok {
                old(self)@.push(entry_of(registration@))
            } else {
                old(self)@
            },
            unique_names(final(self)@),
    {
        proof {
            use_type_invariant(&*self);
        }
        let Registration { name, generics, sum } = registration;
        match self.find_entry(&name, self.entries.len()) {
            Some(_) => {
                return Err(DeriveError::Conflict { name });
            },
            None => {},
        }
        let params = type_param_names(&generics);
        let sizes = zero_sizes(params.len());
        let members = match self.sizes_within(self.entries.len(), &params, &sizes, &sum.terms) {
            Err((index, cause)) => {
                return Err(DeriveError::Field { name, index, cause });
            },
            Ok(members) => members,
        };
        match CdrEncodingMaxSize::checked_total(&members) {
            None => Err(DeriveError::Overflow { name }),
            Some(total) => {
                let entry = Entry { name, params, capability: Capability::Derived(sum) };
                self.enter(entry);
                Ok(total)
            },
        }
    }

    /// Processes a definition: derives its capability and enters it. Gives
    /// the size of the structure with each of its type parameters counted as
    /// zero bytes. A tagged union is refused; the table remembers its name,
    /// so that a structure that holds it as a member is refused for the same
    /// reason.
    pub fn define(&mut self, input: DeriveInput) -> (r: Result<CdrEncodingMaxSize, DeriveError>)
        ensures
            derive_outcome(r) == defined(old(self)@, input@),
            final(self)@ == table_after(old(self)@, input@),
            unique_names(final(self)@),
    {
        proof {
            use_type_invariant(&*self);
        }
        let name = input.ident.clone();
        match derive_cdr_encoding_size(input) {
            Ok(registration) => self.register(registration),
            Err(error) => {
                match self.find_entry(&name, self.entries.len()) {
                    Some(_) => {},
                    None => {
                        let entry = Entry {
                            name,
                            params: Vec::new(),
                            capability: Capability::Unsupported,
                        };
                        assert(texts(entry.params@) =~= Seq::empty());
                        self.enter(entry);
                    },
                }
                Err(error)
            },
        }
    }

    /// Resolves the size of the type `ty`.
    pub fn max_size(&self, ty: &Type) -> (r: Result<CdrEncodingMaxSize, SizeError>)
        ensures
            size_outcome(r) == self.resolved(ty@),
    {
        let params: Vec<String> = Vec::new();
        let sizes: Vec<CdrEncodingMaxSize> = Vec::new();
        assert(texts(params@) =~= Seq::empty());
        assert(size_views(sizes@) =~= Seq::empty());
        self.size_within(self.entries.len(), &params, &sizes, ty)
    }
}

} // verus!
