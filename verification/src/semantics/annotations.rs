use vstd::prelude::*;
use vstd::string::StringExecFns;

use crate::semantics::conversion::Span;

verus! {

/// An annotation of a declaration, as written: its name, where the name
/// stands, how many arguments it has, and the text of the first argument
/// where that argument is a string literal
#[derive(Debug)]
pub struct AnnotationSite {
    pub name: String,
    pub at: Span,
    pub arguments: usize,
    pub first_string: Option<String>,
}

/// What an annotation asks of the declaration
#[derive(Debug, PartialEq, Eq)]
pub enum Annotation {
    /// Link the function under this name
    MangleAs(String),
    /// The function is given by the runtime
    Builtin,
}

/// An annotation as a mathematical value
pub enum AnnotationView {
    MangleAs(Seq<char>),
    Builtin,
}

impl View for Annotation {
    type V = AnnotationView;

    open spec fn view(&self) -> AnnotationView {
        match self {
            Annotation::MangleAs(s) => AnnotationView::MangleAs(s@),
            Annotation::Builtin => AnnotationView::Builtin,
        }
    }
}

/// No annotation has the name, or not with these arguments
#[derive(Debug)]
pub struct UnknownAnnotation {
    pub name: String,
    pub at: Span,
}

/// What an annotation means: `@mangle_as` with a string literal first names
/// the function's link name; `@builtin` without arguments marks it given by
/// the runtime; anything else is unknown
pub open spec fn annotation_meaning(a: AnnotationSite) -> Option<AnnotationView> {
    if a.name@ == "mangle_as"@ && a.first_string is Some {
        Some(AnnotationView::MangleAs(a.first_string->Some_0@))
    } else if a.name@ == "builtin"@ && a.arguments == 0 {
        Some(AnnotationView::Builtin)
    } else {
        None
    }
}

impl AnnotationSite {
    /// Lower the annotation: what it means, or that it is unknown, at its
    /// name
    pub fn to_hir(&self) -> (r: Result<Annotation, UnknownAnnotation>)
        ensures
            match r {
                Ok(a) => annotation_meaning(*self) == Some(a@),
                Err(e) => annotation_meaning(*self) is None && e.name@ == self.name@ && e.at == self.at,
            },
    {
        let mangle_as = String::from_str("mangle_as");
        let builtin = String::from_str("builtin");
        if self.name == mangle_as {
            if let Some(s) = &self.first_string {
                return Ok(Annotation::MangleAs(s.clone()));
            }
        }
        if self.name == builtin && self.arguments == 0 {
            return Ok(Annotation::Builtin);
        }
        Err(UnknownAnnotation { name: self.name.clone(), at: self.at })
    }
}

} // verus!
