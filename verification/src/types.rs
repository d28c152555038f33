//! References to types, as they stand in the fields of a definition.

use vstd::prelude::*;

verus! {

/// The mathematical form of a type reference.
pub struct TypeRef {
    pub name: Seq<char>,
    pub args: Seq<TypeRef>,
}

/// A reference to a type: its name and the types that it is applied to.
#[derive(Debug, PartialEq, Eq)]
pub struct Type {
    pub name: String,
    pub args: Vec<Type>,
}

/// The mathematical forms of a list of type references, in order.
pub open spec fn type_refs(types: Seq<Type>) -> Seq<TypeRef> {
    Seq::new(types.len(), |i: int| types[i]@)
}

/// The character sequences of a list of strings, in order.
pub open spec fn texts(strings: Seq<String>) -> Seq<Seq<char>> {
    Seq::new(strings.len(), |i: int| strings[i]@)
}

impl Type {
    /// The mathematical form of this reference, argument by argument.
    pub open spec fn model(&self) -> TypeRef
        decreases self,
    {
        TypeRef {
            name: self.name@,
            args: Seq::new(
                self.args@.len(),
                |i: int|
                    if 0 <= i < self.args@.len() {
                        self.args@[i].model()
                    } else {
                        arbitrary()
                    },
            ),
        }
    }

    /// The arguments of a reference are the references of its arguments.
    pub proof fn lemma_args(&self)
        ensures
            self@.name == self.name@,
            self@.args == type_refs(self.args@),
    {
        assert(self@.args =~= type_refs(self.args@));
    }

    /// A reference to a type that takes no arguments.
    pub fn path(name: &str) -> (r: Type)
        ensures
            r@ == (TypeRef { name: name@, args: Seq::empty() }),
    {
        let r = Type { name: name.to_owned(), args: Vec::new() };
        assert(r@.args =~= Seq::empty());
        r
    }

    /// A reference to a type applied to arguments.
    pub fn generic(name: &str, args: Vec<Type>) -> (r: Type)
        ensures
            r@ == (TypeRef { name: name@, args: type_refs(args@) }),
    {
        let r = Type { name: name.to_owned(), args };
        assert(r@.args =~= type_refs(args@));
        r
    }
}

impl View for Type {
    type V = TypeRef;

    open spec fn view(&self) -> TypeRef {
        self.model()
    }
}

impl Clone for Type {
    fn clone(&self) -> (r: Type)
        ensures
            r@ == self@,
        decreases self,
    {
        let mut args: Vec<Type> = Vec::new();
        let mut i: usize = 0;
        while i < self.args.len()
            invariant
                i <= self.args.len(),
                args.len() == i,
                forall|j: int| 0 <= j < i ==> args@[j]@ == self.args@[j]@,
            decreases self.args.len() - i,
        {
            args.push(self.args[i].clone());
            i += 1;
        }
        let r = Type { name: self.name.clone(), args };
        assert(r@.args =~= self@.args);
        r
    }
}

/// A copy of a list of type references.
pub fn clone_types(types: &Vec<Type>) -> (r: Vec<Type>)
    ensures
        type_refs(r@) == type_refs(types@),
{
    let mut out: Vec<Type> = Vec::new();
    let mut i: usize = 0;
    while i < types.len()
        invariant
            i <= types.len(),
            out.len() == i,
            forall|j: int| 0 <= j < i ==> out@[j]@ == types@[j]@,
        decreases types.len() - i,
    {
        out.push(types[i].clone());
        i += 1;
    }
    assert(type_refs(out@) =~= type_refs(types@));
    out
}

/// A copy of a list of strings.
pub fn clone_strings(strings: &Vec<String>) -> (r: Vec<String>)
    ensures
        texts(r@) == texts(strings@),
{
    let mut out: Vec<String> = Vec::new();
    let mut i: usize = 0;
    while i < strings.len()
        invariant
            i <= strings.len(),
            out.len() == i,
            forall|j: int| 0 <= j < i ==> out@[j]@ == strings@[j]@,
        decreases strings.len() - i,
    {
        out.push(strings[i].clone());
        i += 1;
    }
    assert(texts(out@) =~= texts(strings@));
    out
}

} // verus!
