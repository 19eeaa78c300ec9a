//! Functions that a host hands to the evaluator.

use crate::error::{Error, SpecError};
use crate::value::{views, SpecValue, Value};
use vstd::prelude::*;

verus! {

/// The content of what evaluating, or calling a function, returns.
pub open spec fn outcome_view(r: Result<Value, Error>) -> Result<SpecValue, SpecError> {
    match r {
        Ok(value) => Ok(value@),
        Err(e) => Err(e@),
    }
}

/// A function as the evaluator sees it: the number of arguments it takes,
/// and what it returns for each sequence of arguments.
pub struct SpecFunction {
    pub arity: int,
    pub result: spec_fn(Seq<SpecValue>) -> Result<SpecValue, SpecError>,
}

/// The body of a function: a mapping from the arguments to a value or a
/// failure.
pub trait FunctionBody {
    /// The arguments on which the body can be called, and on which what it
    /// returns depends on the arguments' content alone.
    spec fn accepts(&self, arguments: Seq<SpecValue>) -> bool;

    /// What the body returns for the arguments.
    spec fn result(&self, arguments: Seq<SpecValue>) -> Result<SpecValue, SpecError>;

    /// Calls the body.
    fn call(&self, arguments: &[Value]) -> (r: Result<Value, Error>)
        requires
            self.accepts(views(arguments@)),
        ensures
            outcome_view(r) == self.result(views(arguments@)),
    ;
}

/// `outcome` is something that `f` may return for arguments with the
/// content `arguments`.
pub open spec fn yields<F: Fn(&[Value]) -> Result<Value, Error>>(
    f: F,
    arguments: Seq<SpecValue>,
    outcome: Result<SpecValue, SpecError>,
) -> bool {
    exists|a: &[Value], r: Result<Value, Error>|
        #[trigger] call_ensures(f, (a,), r) && views(a@) == arguments && outcome_view(r) == outcome
}

/// Every closure from arguments to a value or a failure is a body. It
/// accepts the arguments on which it can be called and returns one outcome
/// only.
impl<F: Fn(&[Value]) -> Result<Value, Error>> FunctionBody for F {
    open spec fn accepts(&self, arguments: Seq<SpecValue>) -> bool {
        &&& forall|a: &[Value]| views(a@) == arguments ==> #[trigger] call_requires(*self, (a,))
        &&& forall|a1: &[Value], r1: Result<Value, Error>, a2: &[Value], r2: Result<Value, Error>|
            views(a1@) == arguments && views(a2@) == arguments && #[trigger] call_ensures(
                *self,
                (a1,),
                r1,
            ) && #[trigger] call_ensures(*self, (a2,), r2) ==> outcome_view(r1) == outcome_view(r2)
    }

    open spec fn result(&self, arguments: Seq<SpecValue>) -> Result<SpecValue, SpecError> {
        choose|outcome: Result<SpecValue, SpecError>| yields(*self, arguments, outcome)
    }

    fn call(&self, arguments: &[Value]) -> (r: Result<Value, Error>) {
        let r = self(arguments);
        proof {
            assert(yields(*self, views(arguments@), outcome_view(r)));
        }
        r
    }
}

/// A closure that can be called on the arguments, and that returns one
/// outcome for them whatever their representation, accepts them.
pub proof fn lemma_closure_accepts<F: Fn(&[Value]) -> Result<Value, Error>>(
    f: F,
    arguments: Seq<SpecValue>,
)
    requires
        forall|a: &[Value]| views(a@) == arguments ==> #[trigger] call_requires(f, (a,)),
        forall|a1: &[Value], r1: Result<Value, Error>, a2: &[Value], r2: Result<Value, Error>|
            views(a1@) == arguments && views(a2@) == arguments && #[trigger] call_ensures(
                f,
                (a1,),
                r1,
            ) && #[trigger] call_ensures(f, (a2,), r2) ==> outcome_view(r1) == outcome_view(r2),
    ensures
        f.accepts(arguments),
{
}

/// What a closure returns for arguments that it accepts is its result for
/// them.
pub proof fn lemma_closure_result<F: Fn(&[Value]) -> Result<Value, Error>>(
    f: F,
    a: &[Value],
    r: Result<Value, Error>,
)
    requires
        f.accepts(views(a@)),
        call_ensures(f, (a,), r),
    ensures
        f.result(views(a@)) == outcome_view(r),
{
    assert(yields(f, views(a@), outcome_view(r)));
}

/// A function that expressions can call: the number of arguments it takes,
/// and its body. The evaluator checks the number of arguments before it
/// calls the body.
pub struct Function {
    arity: usize,
    body: Box<dyn FunctionBody>,
}

impl View for Function {
    type V = SpecFunction;

    closed spec fn view(&self) -> SpecFunction {
        SpecFunction {
            arity: self.arity as int,
            result: |arguments: Seq<SpecValue>| self.body.result(arguments),
        }
    }
}

impl Function {
    #[verifier::type_invariant]
    spec fn well_formed(&self) -> bool {
        forall|arguments: Seq<SpecValue>|
            arguments.len() == self.arity ==> #[trigger] self.body.accepts(arguments)
    }

    /// A function of `arity` arguments with the given body. The body must
    /// accept every sequence of that many arguments.
    pub fn new(arity: usize, body: Box<dyn FunctionBody>) -> (f: Function)
        requires
            forall|arguments: Seq<SpecValue>|
                arguments.len() == arity ==> #[trigger] body.accepts(arguments),
        ensures
            f@.arity == arity,
            forall|arguments: Seq<SpecValue>|
                #[trigger] (f@.result)(arguments) == body.result(arguments),
    {
        Function { arity, body }
    }

    /// The number of arguments that the function takes.
    pub fn arity(&self) -> (n: usize)
        ensures
            n == self@.arity,
    {
        self.arity
    }

    /// Calls the body with the arguments.
    pub fn call(&self, arguments: &[Value]) -> (r: Result<Value, Error>)
        requires
            arguments@.len() == self@.arity,
        ensures
            outcome_view(r) == (self@.result)(views(arguments@)),
    {
        proof {
            use_type_invariant(self);
            assert(views(arguments@).len() == arguments@.len());
        }
        self.body.call(arguments)
    }
}

} // verus!
