use vstd::prelude::*;

use crate::semantics::conversion::{Declarations, Failure, NotConvertible, Span, Ty, TyView, stripped};
use crate::semantics::convertible::{
    Adjustment, ConversionRequest, ConvertibleToRequest, Value, adjustment, all_well_formed,
    convertible_outcome, finishes,
};
use crate::semantics::generic_context::{ContextView, GenericContext, contexts_view};

verus! {

/// Why a statement is wrong
#[derive(Debug)]
pub enum StatementError {
    /// A value that may not change is assigned to
    AssignmentToImmutable { at: Span },
    /// A value does not convert to the type it is given to
    NotConvertible(NotConvertible),
    /// A `return` outside of any function
    ReturnOutsideFunction { at: Span },
    /// A `return` without a value from a function that returns one
    MissingReturnValue { ty: Ty, at: usize },
    /// The value returned does not convert to the function's return type
    ReturnTypeMismatch { got: Ty, got_span: Span, expected: Ty },
    /// A condition that is not a boolean value
    ConditionTypeMismatch { got: Ty, at: Span },
}

/// Why a statement is wrong, as a mathematical value
pub enum StatementFailure {
    Immutable { at: Span },
    Conversion(Failure),
    Outside { at: Span },
    Missing { ty: TyView, at: usize },
    ReturnMismatch { got: TyView, got_span: Span, expected: TyView },
    Condition { got: TyView, at: Span },
}

impl View for StatementError {
    type V = StatementFailure;

    open spec fn view(&self) -> StatementFailure {
        match self {
            StatementError::AssignmentToImmutable { at } => StatementFailure::Immutable { at: *at },
            StatementError::NotConvertible(e) => StatementFailure::Conversion(e@),
            StatementError::ReturnOutsideFunction { at } => StatementFailure::Outside { at: *at },
            StatementError::MissingReturnValue { ty, at } => StatementFailure::Missing { ty: ty@, at: *at },
            StatementError::ReturnTypeMismatch { got, got_span, expected } => StatementFailure::ReturnMismatch {
                got: got@,
                got_span: *got_span,
                expected: expected@,
            },
            StatementError::ConditionTypeMismatch { got, at } => StatementFailure::Condition { got: got@, at: *at },
        }
    }
}

/// A condition must be a boolean value
pub open spec fn condition_outcome(condition: Value, boolean: TyView) -> Result<(), StatementFailure> {
    if condition.ty@ == boolean {
        Ok(())
    } else {
        Err(StatementFailure::Condition { got: condition.ty@, at: condition.at })
    }
}

/// Check a condition of an `if`, an `else if` or a `while`
pub fn lower_condition(condition: &Value, boolean: &Ty) -> (r: Result<(), StatementError>)
    ensures
        match r {
            Ok(_) => condition_outcome(*condition, boolean@) is Ok,
            Err(e) => condition_outcome(*condition, boolean@) == Err::<(), StatementFailure>(e@),
        },
{
    if condition.ty.same_as(boolean) {
        Ok(())
    } else {
        Err(StatementError::ConditionTypeMismatch { got: condition.ty.clone(), at: condition.at })
    }
}

/// An assignment: the target must be able to change; the value then
/// converts to the target's type without reference. What converting does,
/// or the error; and the contexts after. `None` where the check does not
/// finish.
pub open spec fn assignment_outcome(
    d: Declarations,
    cs: Seq<ContextView>,
    target: Value,
    value: Value,
) -> Option<(Result<Adjustment, StatementFailure>, Seq<ContextView>)> {
    if !target.mutable {
        Some((Err(StatementFailure::Immutable { at: target.at }), cs))
    } else if !finishes(d, cs, value.ty@, stripped(target.ty@)) {
        None
    } else {
        let (verdict, after) = convertible_outcome(d, cs, value.ty@, stripped(target.ty@))->Some_0;
        Some((
            match adjustment(value, stripped(target.ty@), target.at, verdict) {
                Ok(a) => Ok(a),
                Err(e) => Err(StatementFailure::Conversion(e)),
            },
            after,
        ))
    }
}

/// Lower an assignment of `value` to `target`, both lowered
pub fn lower_assignment(
    target: &Value,
    value: &Value,
    contexts: &mut Vec<GenericContext>,
    declarations: &Declarations,
) -> (r: Result<Adjustment, StatementError>)
    requires
        all_well_formed(old(contexts)@),
        assignment_outcome(*declarations, contexts_view(old(contexts)@), *target, *value) is Some,
    ensures
        all_well_formed(final(contexts)@),
        assignment_outcome(*declarations, contexts_view(old(contexts)@), *target, *value) == Some((
            match r {
                Ok(a) => Ok::<Adjustment, StatementFailure>(a),
                Err(e) => Err::<Adjustment, StatementFailure>(e@),
            },
            contexts_view(final(contexts)@),
        )),
{
    if !target.mutable {
        return Err(StatementError::AssignmentToImmutable { at: target.at });
    }
    let request = ConversionRequest {
        from: Value { ty: value.ty.clone(), at: value.at, mutable: value.mutable },
        to: target.ty.without_ref().clone(),
        to_at: target.at,
    };
    match request.within(contexts, declarations) {
        Ok(a) => Ok(a),
        Err(e) => Err(StatementError::NotConvertible(e)),
    }
}

/// A `return`: outside of a function it is an error; with a value, the
/// value must convert to the function's return type; without one, the
/// function must return nothing. The error, or none; and the contexts
/// after. `None` where the check does not finish.
pub open spec fn return_outcome(
    d: Declarations,
    cs: Seq<ContextView>,
    value: Option<Value>,
    return_type: Option<TyView>,
    none: TyView,
    at: Span,
) -> Option<(Result<(), StatementFailure>, Seq<ContextView>)> {
    match return_type {
        None => Some((Err(StatementFailure::Outside { at }), cs)),
        Some(rt) => match value {
            Some(v) => if !finishes(d, cs, v.ty@, rt) {
                None
            } else {
                let (verdict, after) = convertible_outcome(d, cs, v.ty@, rt)->Some_0;
                if verdict == Ok::<bool, Failure>(true) {
                    Some((Ok(()), after))
                } else {
                    Some((Err(StatementFailure::ReturnMismatch { got: v.ty@, got_span: v.at, expected: rt }), after))
                }
            },
            None => if rt != none {
                Some((Err(StatementFailure::Missing { ty: rt, at: at.end }), cs))
            } else {
                Some((Ok(()), cs))
            },
        },
    }
}

/// Lower a `return` at `at`, of the lowered value if any, in a function
/// with that return type if any; `none` is the type of no value
pub fn lower_return(
    value: &Option<Value>,
    return_type: &Option<Ty>,
    none: &Ty,
    at: Span,
    contexts: &mut Vec<GenericContext>,
    declarations: &Declarations,
) -> (r: Result<(), StatementError>)
    requires
        all_well_formed(old(contexts)@),
        return_outcome(
            *declarations,
            contexts_view(old(contexts)@),
            *value,
            match return_type {
                Some(t) => Some(t@),
                None => None::<TyView>,
            },
            none@,
            at,
        ) is Some,
    ensures
        all_well_formed(final(contexts)@),
        return_outcome(
            *declarations,
            contexts_view(old(contexts)@),
            *value,
            match return_type {
                Some(t) => Some(t@),
                None => None::<TyView>,
            },
            none@,
            at,
        ) == Some((
            match r {
                Ok(_) => Ok::<(), StatementFailure>(()),
                Err(e) => Err::<(), StatementFailure>(e@),
            },
            contexts_view(final(contexts)@),
        )),
{
    match return_type {
        None => Err(StatementError::ReturnOutsideFunction { at }),
        Some(rt) => match value {
            Some(v) => {
                let request = ConvertibleToRequest { from: v.ty.clone(), to: rt.clone() };
                match request.within(contexts, declarations) {
                    Ok(true) => Ok(()),
                    _ => Err(StatementError::ReturnTypeMismatch { got: v.ty.clone(), got_span: v.at, expected: rt.clone() }),
                }
            },
            None => {
                if !rt.same_as(none) {
                    Err(StatementError::MissingReturnValue { ty: rt.clone(), at: at.end })
                } else {
                    Ok(())
                }
            },
        },
    }
}

} // verus!
