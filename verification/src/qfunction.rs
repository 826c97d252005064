//! Functions evaluated at quadrature points.

use vstd::prelude::*;

use crate::enums::EvalMode;
use crate::error::{ErrorKind, ReedError, ReedResult};
#[allow(unused_imports)]
use crate::error::refused;
use crate::scalar::Real;
use crate::text::Message;

verus! {

/// Whether a quadrature function is evaluated in the volume or on its boundary.
#[non_exhaustive]
#[derive(Debug, Clone, Copy, PartialEq, Eq, Hash, Structural)]
pub enum QFunctionCategory {
    Interior,
    Exterior,
}

impl Default for QFunctionCategory {
    fn default() -> (r: Self)
        ensures
            r == QFunctionCategory::Interior,
    {
        QFunctionCategory::Interior
    }
}

/// An input or output of a quadrature function.
#[derive(Debug, Clone)]
pub struct QFunctionField {
    pub name: String,
    pub num_comp: usize,
    pub eval_mode: EvalMode,
}

/// A pointwise function of field values at quadrature points.
///
/// An implementation says which evaluations it is defined on and what each may leave behind. The
/// context `ctx` has the length that the function asks for.
///
/// The specification functions default to an unknown value; a verified implementation defines
/// them.
pub trait QFunctionTrait<T: Real> {
    /// Input fields.
    closed spec fn input_fields(&self) -> Seq<QFunctionField> {
        arbitrary()
    }

    /// Output fields.
    closed spec fn output_fields(&self) -> Seq<QFunctionField> {
        arbitrary()
    }

    /// The function can be evaluated.
    closed spec fn admits(
        &self,
        ctx: &[u8],
        q: usize,
        inputs: &Vec<Vec<T>>,
        outputs: Vec<Vec<T>>,
    ) -> bool {
        arbitrary()
    }

    /// An evaluation may report `r` and turn `before` into `after`.
    closed spec fn allows(
        &self,
        ctx: &[u8],
        q: usize,
        inputs: &Vec<Vec<T>>,
        before: Vec<Vec<T>>,
        after: Vec<Vec<T>>,
        r: ReedResult<()>,
    ) -> bool {
        arbitrary()
    }

    /// The transposed function can be evaluated.
    closed spec fn admits_transpose(
        &self,
        ctx: &[u8],
        q: usize,
        output_cotangents: &Vec<Vec<T>>,
        input_cotangents: Vec<Vec<T>>,
    ) -> bool {
        arbitrary()
    }

    /// An evaluation of the transposed function, where there is one, may report `r` and turn
    /// `before` into `after`.
    closed spec fn allows_transpose(
        &self,
        ctx: &[u8],
        q: usize,
        output_cotangents: &Vec<Vec<T>>,
        before: Vec<Vec<T>>,
        after: Vec<Vec<T>>,
        r: ReedResult<()>,
    ) -> bool {
        arbitrary()
    }

    /// Length of the context.
    fn context_byte_len(&self) -> (n: usize)
        default_ensures
            n == 0,
    {
        0
    }

    /// Input fields.
    fn inputs(&self) -> (f: &[QFunctionField])
        ensures
            f@ == self.input_fields(),
    ;

    /// Output fields.
    fn outputs(&self) -> (f: &[QFunctionField])
        ensures
            f@ == self.output_fields(),
    ;

    /// Where the function is evaluated.
    fn q_function_category(&self) -> (c: QFunctionCategory)
        default_ensures
            c == QFunctionCategory::Interior,
    {
        QFunctionCategory::Interior
    }

    /// Evaluates the function at `q` points.
    fn apply(
        &self,
        ctx: &[u8],
        q: usize,
        inputs: &Vec<Vec<T>>,
        outputs: &mut Vec<Vec<T>>,
    ) -> (r: ReedResult<()>)
        requires
            self.admits(ctx, q, inputs, *old(outputs)),
        ensures
            self.allows(ctx, q, inputs, *old(outputs), *final(outputs), r),
    ;

    /// Pulls cotangents of the outputs back to the inputs.
    fn apply_operator_transpose(
        &self,
        ctx: &[u8],
        q: usize,
        output_cotangents: &Vec<Vec<T>>,
        input_cotangents: &mut Vec<Vec<T>>,
    ) -> (r: ReedResult<()>)
        requires
            self.admits_transpose(ctx, q, output_cotangents, *old(input_cotangents)),
        ensures
            self.allows_transpose(
                ctx,
                q,
                output_cotangents,
                *old(input_cotangents),
                *final(input_cotangents),
                r,
            ) || (refused(r, ErrorKind::QFunction, no_transpose_text()) && *final(input_cotangents)
                == *old(input_cotangents)),
        default_ensures
            *final(input_cotangents) == *old(input_cotangents),
            refused(r, ErrorKind::QFunction, no_transpose_text()),
    {
        let _ = (ctx, q, output_cotangents);
        Err(no_transpose())
    }

    /// Whether cotangents can be pulled back.
    fn supports_operator_transpose(&self) -> (b: bool)
        default_ensures
            !b,
    {
        false
    }

    /// Pulls cotangents back, given the inputs of the forward evaluation.
    fn apply_operator_transpose_with_primal(
        &self,
        ctx: &[u8],
        q: usize,
        _primal_inputs: &Vec<Vec<T>>,
        output_cotangents: &Vec<Vec<T>>,
        input_cotangents: &mut Vec<Vec<T>>,
    ) -> (r: ReedResult<()>)
        requires
            self.admits_transpose(ctx, q, output_cotangents, *old(input_cotangents)),
        default_ensures
            self.allows_transpose(
                ctx,
                q,
                output_cotangents,
                *old(input_cotangents),
                *final(input_cotangents),
                r,
            ) || (refused(r, ErrorKind::QFunction, no_transpose_text()) && *final(input_cotangents)
                == *old(input_cotangents)),
    {
        self.apply_operator_transpose(ctx, q, output_cotangents, input_cotangents)
    }

    /// Name in a gallery of functions, if it has one.
    fn gallery_name(&self) -> (n: Option<&str>)
        default_ensures
            n is None,
    {
        None
    }
}

/// Text of the refusal to pull cotangents back.
pub open spec fn no_transpose_text() -> Seq<char> {
    "apply_operator_transpose is not implemented for this qfunction"@
}

/// Refuses to pull cotangents back.
pub fn no_transpose() -> (e: ReedError)
    ensures
        e@ == (ErrorKind::QFunction, no_transpose_text()),
{
    ReedError::QFunction(
        Message::new("apply_operator_transpose is not implemented for this qfunction").done(),
    )
}

/// A quadrature function given by a closure.
///
/// The closure takes the context, the number of points, the inputs and the outputs, and hands
/// the outputs back beside its result.
#[verifier::reject_recursive_types(T)]
pub struct ClosureQFunction<
    T,
    F: Fn(&[u8], usize, &Vec<Vec<T>>, Vec<Vec<T>>) -> (ReedResult<()>, Vec<Vec<T>>),
> {
    inputs: Vec<QFunctionField>,
    outputs: Vec<QFunctionField>,
    context_byte_len: usize,
    category: QFunctionCategory,
    closure: F,
    number: core::marker::PhantomData<T>,
}

impl<
    T: Real,
    F: Fn(&[u8], usize, &Vec<Vec<T>>, Vec<Vec<T>>) -> (ReedResult<()>, Vec<Vec<T>>),
> ClosureQFunction<T, F> {
    /// The closure.
    pub closed spec fn function(&self) -> F {
        self.closure
    }

    /// Length of the context.
    pub closed spec fn context_len(&self) -> usize {
        self.context_byte_len
    }

    /// Where the function is evaluated.
    pub closed spec fn category(&self) -> QFunctionCategory {
        self.category
    }

    /// A function evaluated in the volume.
    pub fn new(
        inputs: Vec<QFunctionField>,
        outputs: Vec<QFunctionField>,
        context_byte_len: usize,
        closure: F,
    ) -> (r: Self)
        ensures
            r.input_fields() == inputs@,
            r.output_fields() == outputs@,
            r.context_len() == context_byte_len,
            r.category() == QFunctionCategory::Interior,
            r.function() == closure,
    {
        Self::new_with_category(
            inputs,
            outputs,
            context_byte_len,
            QFunctionCategory::Interior,
            closure,
        )
    }

    /// A function evaluated in the volume or on its boundary.
    pub fn new_with_category(
        inputs: Vec<QFunctionField>,
        outputs: Vec<QFunctionField>,
        context_byte_len: usize,
        category: QFunctionCategory,
        closure: F,
    ) -> (r: Self)
        ensures
            r.input_fields() == inputs@,
            r.output_fields() == outputs@,
            r.context_len() == context_byte_len,
            r.category() == category,
            r.function() == closure,
    {
        ClosureQFunction {
            inputs,
            outputs,
            context_byte_len,
            category,
            closure,
            number: core::marker::PhantomData,
        }
    }
}

impl<
    T: Real,
    F: Fn(&[u8], usize, &Vec<Vec<T>>, Vec<Vec<T>>) -> (ReedResult<()>, Vec<Vec<T>>),
> QFunctionTrait<T> for ClosureQFunction<T, F> {
    closed spec fn input_fields(&self) -> Seq<QFunctionField> {
        self.inputs@
    }

    closed spec fn output_fields(&self) -> Seq<QFunctionField> {
        self.outputs@
    }

    open spec fn admits(
        &self,
        ctx: &[u8],
        q: usize,
        inputs: &Vec<Vec<T>>,
        outputs: Vec<Vec<T>>,
    ) -> bool {
        call_requires(self.function(), (ctx, q, inputs, outputs))
    }

    open spec fn allows(
        &self,
        ctx: &[u8],
        q: usize,
        inputs: &Vec<Vec<T>>,
        before: Vec<Vec<T>>,
        after: Vec<Vec<T>>,
        r: ReedResult<()>,
    ) -> bool {
        call_ensures(self.function(), (ctx, q, inputs, before), (r, after))
    }

    open spec fn admits_transpose(
        &self,
        ctx: &[u8],
        q: usize,
        output_cotangents: &Vec<Vec<T>>,
        input_cotangents: Vec<Vec<T>>,
    ) -> bool {
        true
    }

    open spec fn allows_transpose(
        &self,
        ctx: &[u8],
        q: usize,
        output_cotangents: &Vec<Vec<T>>,
        before: Vec<Vec<T>>,
        after: Vec<Vec<T>>,
        r: ReedResult<()>,
    ) -> bool {
        false
    }

    fn context_byte_len(&self) -> (n: usize)
        ensures
            n == self.context_len(),
    {
        self.context_byte_len
    }

    fn inputs(&self) -> (f: &[QFunctionField]) {
        self.inputs.as_slice()
    }

    fn outputs(&self) -> (f: &[QFunctionField]) {
        self.outputs.as_slice()
    }

    fn q_function_category(&self) -> (c: QFunctionCategory)
        ensures
            c == self.category(),
    {
        self.category
    }

    fn apply(
        &self,
        ctx: &[u8],
        q: usize,
        inputs: &Vec<Vec<T>>,
        outputs: &mut Vec<Vec<T>>,
    ) -> (r: ReedResult<()>) {
        let mut taken: Vec<Vec<T>> = Vec::new();
        core::mem::swap(&mut taken, outputs);
        let (r, after) = (self.closure)(ctx, q, inputs, taken);
        *outputs = after;
        r
    }
}

} // verus!
