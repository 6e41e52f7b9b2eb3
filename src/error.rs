//! What can go wrong while compiling a component's attributes.
use vstd::prelude::*;
use crate::token::Category;

verus! {

/// A compile error. Every one is fatal for the structure being compiled.
#[derive(Debug, Clone, Copy, PartialEq, Eq, Structural)]
pub enum CompileError {
    /// An attribute fragment whose key or flag is not part of the language.
    UnknownAttribute,
    /// A `wait(...)` argument other than `timeout_ms = <int>` or `interval_ms = <int>`.
    UnknownWaitArg,
    /// A `wait(...)` argument that is not of the form `key = literal`.
    MalformedWaitArg,
    /// `timeout_ms` given twice inside one `wait(...)`.
    TimeoutTwice,
    /// `interval_ms` given twice inside one `wait(...)`.
    IntervalTwice,
    /// A `timeout_ms` that is not a `u32`.
    InvalidTimeout,
    /// An `interval_ms` that is not a `u32`.
    InvalidInterval,
    /// A `wait(...)` lacking `timeout_ms` or `interval_ms`.
    WaitMissingArgs,
    /// A bare literal among the arguments of `by(...)`.
    UnrecognisedToken,
    /// A `by` attribute that is not a parenthesized argument list.
    MalformedByAttr,
    /// Two tokens of one category.
    Duplicate(Category),
    /// A token (first) beside a token of a category it excludes (second).
    Conflict(Category, Category),
    /// No selector, and no custom function either.
    NoSelector,
    /// More than one selector.
    MultipleSelectors,
    /// Tokens left over that the field's resolver does not use.
    UnrecognisedArgs,
    /// The base field is not declared as a plain `WebElement`.
    BaseNotWebElement,
    /// No field is named `base` or marked as the base.
    BaseMissing,
}

} // verus!
