use vstd::prelude::*;
use vstd::string::StringExecFns;

use crate::syntax::with_offset::WithOffset;

verus! {

/// Declaration of a class type, as far as types read it: its name
pub struct TypeDeclaration {
    /// Name of the type
    pub name: WithOffset<String>,
}

/// Type of values
pub enum Type {
    /// None type
    NoneType,
    /// Arbitrary integer type
    Integer,
    /// User defined type
    Class(TypeDeclaration),
    /// Function type
    Function { parameters: Vec<Type>, return_type: Box<Type> },
}

/// Text of a type: a class by its name, a function as its parameter types
/// in brackets, an arrow and its return type
pub open spec fn type_text(t: Type) -> Seq<char>
    decreases t, 0nat,
{
    match t {
        Type::NoneType => "None"@,
        Type::Integer => "Integer"@,
        Type::Class(c) => c.name.value@,
        Type::Function { parameters, return_type } => "("@ + types_text(
            parameters@,
            parameters@.len(),
        ) + ") -> "@ + type_text(*return_type),
    }
}

/// Texts of the first `n` types, separated by ", "
pub open spec fn types_text(ts: Seq<Type>, n: nat) -> Seq<char>
    decreases ts, n,
{
    if n == 0 || n > ts.len() {
        Seq::empty()
    } else if n == 1 {
        type_text(ts[0])
    } else {
        types_text(ts, (n - 1) as nat) + ", "@ + type_text(ts[n - 1])
    }
}

impl Type {
    /// Text of the type
    pub fn to_string(&self) -> (s: String)
        ensures
            s@ == type_text(*self),
        decreases self,
    {
        match self {
            Type::NoneType => String::from_str("None"),
            Type::Integer => String::from_str("Integer"),
            Type::Class(c) => c.name.value.clone(),
            Type::Function { parameters, return_type } => {
                let mut s = String::from_str("(");
                let ghost start = s@;
                let mut i: usize = 0;
                while i < parameters.len()
                    invariant
                        i <= parameters@.len(),
                        self is Function,
                        *parameters == self->parameters,
                        start == "("@,
                        s@ == start + types_text(parameters@, i as nat),
                    decreases parameters@.len() - i,
                {
                    if i != 0 {
                        s.append(", ");
                    }
                    proof {
                        assert(decreases_to!(*self => self->parameters));
                        assert(decreases_to!(self->parameters => self->parameters@));
                        assert(decreases_to!(self->parameters@ => self->parameters@[i as int]));
                    }
                    let p = parameters[i].to_string();
                    s.append(p.as_str());
                    proof {
                        if i == 0 {
                            assert(types_text(parameters@, 0) =~= Seq::empty());
                        }
                        assert(s@ =~= start + types_text(parameters@, (i + 1) as nat));
                    }
                    i = i + 1;
                }
                s.append(") -> ");
                let r = return_type.to_string();
                s.append(r.as_str());
                s
            },
        }
    }
}

} // verus!
