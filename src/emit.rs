//! The construction expressions this library emits, the constructor target
//! path, and the compilation of one field.
use vstd::prelude::*;
use crate::bag::ByTokens;
use crate::error::CompileError;
use crate::resolver::{MultiResolverArgs, ResolutionMode, SingleResolverArgs, resolution_mode,
    spec_mode, spec_multi_args, spec_single_args};
use crate::token::{Path, PathSegment, SegmentArgs, Selector, WaitOptions};

verus! {

/// The five resolver constructors a field can be wired to.
#[derive(Debug, Clone, Copy, PartialEq, Eq, Structural)]
pub enum Constructor {
    NewCustom,
    NewSingleOpts,
    NewFirstOpts,
    NewNotEmptyOpts,
    NewAllowEmptyOpts,
}

impl Constructor {
    pub open spec fn spec_name(self) -> Seq<char> {
        match self {
            Constructor::NewCustom => "new_custom"@,
            Constructor::NewSingleOpts => "new_single_opts"@,
            Constructor::NewFirstOpts => "new_first_opts"@,
            Constructor::NewNotEmptyOpts => "new_not_empty_opts"@,
            Constructor::NewAllowEmptyOpts => "new_allow_empty_opts"@,
        }
    }

    /// The constructor's function name.
    pub fn name(self) -> (r: &'static str)
        ensures
            r@ == self.spec_name(),
    {
        match self {
            Constructor::NewCustom => "new_custom",
            Constructor::NewSingleOpts => "new_single_opts",
            Constructor::NewFirstOpts => "new_first_opts",
            Constructor::NewNotEmptyOpts => "new_not_empty_opts",
            Constructor::NewAllowEmptyOpts => "new_allow_empty_opts",
        }
    }
}

/// The query options handed to a parameterized constructor. An unset wait
/// policy leaves the runtime's default in place.
#[derive(Debug)]
pub struct QueryOptions {
    pub ignore_errors: bool,
    pub description: Option<String>,
    pub wait: Option<WaitOptions>,
}

/// A construction expression: `new_custom(base, f)`, or one of the four
/// parameterized constructors applied to `base`, a selector and options.
#[derive(Debug)]
pub enum ConstructionExpr {
    CustomCall(String),
    ParameterizedCall { constructor: Constructor, selector: Selector, opts: QueryOptions },
}

impl ConstructionExpr {
    pub open spec fn spec_constructor(self) -> Constructor {
        match self {
            ConstructionExpr::CustomCall(_) => Constructor::NewCustom,
            ConstructionExpr::ParameterizedCall { constructor, .. } => constructor,
        }
    }

    /// The constructor this expression calls.
    pub fn constructor(&self) -> (r: Constructor)
        ensures
            r == self.spec_constructor(),
    {
        match self {
            ConstructionExpr::CustomCall(_) => Constructor::NewCustom,
            ConstructionExpr::ParameterizedCall { constructor, .. } => *constructor,
        }
    }
}

/// The expression for single-element arguments.
pub open spec fn spec_single_expr(a: SingleResolverArgs) -> ConstructionExpr {
    match a {
        SingleResolverArgs::CustomFn(f) => ConstructionExpr::CustomCall(f),
        SingleResolverArgs::Opts { by, first, ignore_errors, description, wait } => {
            ConstructionExpr::ParameterizedCall {
                constructor: if first == Some(true) {
                    Constructor::NewFirstOpts
                } else {
                    Constructor::NewSingleOpts
                },
                selector: by,
                opts: QueryOptions { ignore_errors: ignore_errors == Some(true), description, wait },
            }
        },
    }
}

/// The expression for multi-element arguments.
pub open spec fn spec_multi_expr(a: MultiResolverArgs) -> ConstructionExpr {
    match a {
        MultiResolverArgs::CustomFn(f) => ConstructionExpr::CustomCall(f),
        MultiResolverArgs::Opts { by, allow_empty, ignore_errors, description, wait } => {
            ConstructionExpr::ParameterizedCall {
                constructor: if allow_empty == Some(true) {
                    Constructor::NewAllowEmptyOpts
                } else {
                    Constructor::NewNotEmptyOpts
                },
                selector: by,
                opts: QueryOptions { ignore_errors: ignore_errors == Some(true), description, wait },
            }
        },
    }
}

fn is_true(b: Option<bool>) -> (r: bool)
    ensures
        r == (b == Some(true)),
{
    match b {
        Some(v) => v,
        None => false,
    }
}

impl SingleResolverArgs {
    /// The construction expression these arguments stand for.
    pub fn into_expr(self) -> (r: ConstructionExpr)
        ensures
            r == spec_single_expr(self),
    {
        match self {
            SingleResolverArgs::CustomFn(f) => ConstructionExpr::CustomCall(f),
            SingleResolverArgs::Opts { by, first, ignore_errors, description, wait } => {
                let constructor = if is_true(first) {
                    Constructor::NewFirstOpts
                } else {
                    Constructor::NewSingleOpts
                };
                let opts = QueryOptions { ignore_errors: is_true(ignore_errors), description, wait };
                ConstructionExpr::ParameterizedCall { constructor, selector: by, opts }
            },
        }
    }
}

impl MultiResolverArgs {
    /// The construction expression these arguments stand for.
    pub fn into_expr(self) -> (r: ConstructionExpr)
        ensures
            r == spec_multi_expr(self),
    {
        match self {
            MultiResolverArgs::CustomFn(f) => ConstructionExpr::CustomCall(f),
            MultiResolverArgs::Opts { by, allow_empty, ignore_errors, description, wait } => {
                let constructor = if is_true(allow_empty) {
                    Constructor::NewAllowEmptyOpts
                } else {
                    Constructor::NewNotEmptyOpts
                };
                let opts = QueryOptions { ignore_errors: is_true(ignore_errors), description, wait };
                ConstructionExpr::ParameterizedCall { constructor, selector: by, opts }
            },
        }
    }
}

/// What the tokens `s` of a field of type `ty` compile to.
pub open spec fn spec_compile_field(s: Seq<crate::token::ByToken>, ty: Path) -> Result<
    ConstructionExpr,
    CompileError,
> {
    match spec_mode(s, ty) {
        ResolutionMode::Multi => match spec_multi_args(s) {
            Ok(a) => Ok(spec_multi_expr(a)),
            Err(e) => Err(e),
        },
        ResolutionMode::Single => match spec_single_args(s) {
            Ok(a) => Ok(spec_single_expr(a)),
            Err(e) => Err(e),
        },
    }
}

/// Classifies a field and compiles its tokens into its construction expression.
pub fn compile_field(tokens: ByTokens, ty: &Path) -> (r: Result<ConstructionExpr, CompileError>)
    ensures
        r == spec_compile_field(tokens.tokens@, *ty),
{
    match resolution_mode(&tokens, ty) {
        ResolutionMode::Multi => match MultiResolverArgs::from_tokens(tokens) {
            Ok(a) => Ok(a.into_expr()),
            Err(e) => Err(e),
        },
        ResolutionMode::Single => match SingleResolverArgs::from_tokens(tokens) {
            Ok(a) => Ok(a.into_expr()),
            Err(e) => Err(e),
        },
    }
}

/// The target of a constructor call: `prefix::ident`, followed by
/// `::<args>` where the type carries generic arguments.
#[derive(Debug)]
pub struct TypeTarget {
    pub leading_colon: bool,
    pub prefix: Vec<PathSegment>,
    pub ident: String,
    pub turbofish: SegmentArgs,
}

/// Whether a segment carries no generic arguments.
pub open spec fn args_empty(a: SegmentArgs) -> bool {
    match a {
        SegmentArgs::Empty => true,
        SegmentArgs::AngleBracketed(v) => v@.len() == 0,
        SegmentArgs::Parenthesized => false,
    }
}

/// Whether `t` is the call target for the type path `ty`: the segments before
/// the last are kept as written, the last one's identifier stands on its own,
/// and its generic arguments, if any, follow as a turbofish.
pub open spec fn is_call_target(ty: Path, t: TypeTarget) -> bool {
    ty.segments@.len() > 0 && t.leading_colon == ty.leading_colon && t.prefix@
        == ty.segments@.drop_last() && t.ident == ty.segments@.last().ident && if args_empty(
        ty.segments@.last().args,
    ) {
        t.turbofish == SegmentArgs::Empty
    } else {
        t.turbofish == ty.segments@.last().args
    }
}

/// Rewrites a type path into a target on which a constructor can be called:
/// `GenericType<Args>` becomes `GenericType::<Args>`; a path without generic
/// arguments is kept. `None` for a path without segments.
pub fn fix_type(ty: Path) -> (r: Option<TypeTarget>)
    ensures
        r is None <==> ty.segments@.len() == 0,
        r is Some ==> is_call_target(ty, r->Some_0),
{
    let Path { leading_colon, segments } = ty;
    let mut prefix = segments;
    if prefix.len() == 0 {
        return None;
    }
    let last = prefix.pop().unwrap();
    let PathSegment { ident, args } = last;
    let empty = match &args {
        SegmentArgs::Empty => true,
        SegmentArgs::AngleBracketed(v) => v.len() == 0,
        SegmentArgs::Parenthesized => false,
    };
    let turbofish = if empty {
        SegmentArgs::Empty
    } else {
        args
    };
    Some(TypeTarget { leading_colon, prefix, ident, turbofish })
}

} // verus!
