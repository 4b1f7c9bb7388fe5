use vstd::prelude::*;

verus! {

/// The static types of the language: the primitives, named struct types,
/// single-parameter function types, and the four monomorphic list kinds.
#[derive(Debug, PartialEq, Eq)]
pub enum Type {
    Void,
    Int,
    Str,
    Bool,
    Struct(String),
    HigherOrderFunction(Box<Type>, Box<Type>),
    ListInt,
    ListStr,
    ListBool,
    ListStruct(String),
}

/// Mathematical model of `Type`: struct names become sequences of characters.
pub ghost enum TypeV {
    Void,
    Int,
    Str,
    Bool,
    Struct(Seq<char>),
    HigherOrderFunction(Box<TypeV>, Box<TypeV>),
    ListInt,
    ListStr,
    ListBool,
    ListStruct(Seq<char>),
}

/// Model of a type: struct names become character sequences.
pub open spec fn type_view(t: Type) -> TypeV
    decreases t,
{
    match t {
        Type::Void => TypeV::Void,
        Type::Int => TypeV::Int,
        Type::Str => TypeV::Str,
        Type::Bool => TypeV::Bool,
        Type::Struct(name) => TypeV::Struct(name@),
        Type::HigherOrderFunction(input, output) => TypeV::HigherOrderFunction(
            Box::new(type_view(*input)),
            Box::new(type_view(*output)),
        ),
        Type::ListInt => TypeV::ListInt,
        Type::ListStr => TypeV::ListStr,
        Type::ListBool => TypeV::ListBool,
        Type::ListStruct(name) => TypeV::ListStruct(name@),
    }
}

impl View for Type {
    type V = TypeV;

    open spec fn view(&self) -> TypeV {
        type_view(*self)
    }
}

impl Clone for Type {
    fn clone(&self) -> (res: Self)
        ensures
            res == *self,
        decreases self,
    {
        match self {
            Type::Void => Type::Void,
            Type::Int => Type::Int,
            Type::Str => Type::Str,
            Type::Bool => Type::Bool,
            Type::Struct(name) => Type::Struct(name.clone()),
            Type::HigherOrderFunction(input, output) => Type::HigherOrderFunction(
                Box::new((**input).clone()),
                Box::new((**output).clone()),
            ),
            Type::ListInt => Type::ListInt,
            Type::ListStr => Type::ListStr,
            Type::ListBool => Type::ListBool,
            Type::ListStruct(name) => Type::ListStruct(name.clone()),
        }
    }
}

impl DeepView for Type {
    type V = TypeV;

    open spec fn deep_view(&self) -> TypeV {
        self.view()
    }
}

/// Structural equality of two types, decided at run time; two types are equal
/// exactly when their models coincide (nominal equality for struct names).
pub fn type_eq(a: &Type, b: &Type) -> (r: bool)
    ensures
        r == (a@ == b@),
    decreases a,
{
    match (a, b) {
        (Type::Void, Type::Void) => true,
        (Type::Int, Type::Int) => true,
        (Type::Str, Type::Str) => true,
        (Type::Bool, Type::Bool) => true,
        (Type::Struct(n1), Type::Struct(n2)) => n1.eq(n2),
        (Type::HigherOrderFunction(i1, o1), Type::HigherOrderFunction(i2, o2)) => {
            type_eq(&**i1, &**i2) && type_eq(&**o1, &**o2)
        },
        (Type::ListInt, Type::ListInt) => true,
        (Type::ListStr, Type::ListStr) => true,
        (Type::ListBool, Type::ListBool) => true,
        (Type::ListStruct(n1), Type::ListStruct(n2)) => n1.eq(n2),
        _ => false,
    }
}

} // verus!
