//! Classifies a field as single- or multi-element and compiles its tokens into
//! the construction expression of its resolver.
use vstd::prelude::*;
use crate::bag::{ByTokens, has_cat, has_second, lemma_take_category, spec_custom, spec_description,
    spec_wait_options, take_spec};
use crate::error::CompileError;
use crate::parse::path_is;
use crate::text::str_eq;
use crate::token::{ByToken, Category, GenericArg, Path, SegmentArgs, Selector,
    WaitOptions};

verus! {

/// Whether a field expects one element or a collection of them.
#[derive(Debug, Clone, Copy, PartialEq, Eq, Structural)]
pub enum ResolutionMode {
    Single,
    Multi,
}

/// Whether the identifiers spell the growable sequence type: `Vec`,
/// `vec::Vec`, `std::vec::Vec` or `alloc::vec::Vec`.
pub open spec fn is_vec_spelling(ids: Seq<String>) -> bool {
    (ids.len() == 1 && ids[0]@ == "Vec"@) || (ids.len() == 2 && ids[0]@ == "vec"@ && ids[1]@
        == "Vec"@) || (ids.len() == 3 && (ids[0]@ == "std"@ || ids[0]@ == "alloc"@) && ids[1]@
        == "vec"@ && ids[2]@ == "Vec"@)
}

/// The first generic argument from index `i` on that is a type path.
pub open spec fn first_type_path(a: Seq<GenericArg>, i: int) -> Option<Vec<String>>
    decreases a.len() - i,
{
    if i < 0 || i >= a.len() {
        None
    } else {
        match a[i] {
            GenericArg::TypePath(ids) => Some(ids),
            GenericArg::NotTypePath => first_type_path(a, i + 1),
        }
    }
}

/// Whether a field of type `p` needs a multi-element resolver: the alias
/// `ElementResolverMulti`, or `ElementResolver<V>` where the first type
/// argument `V` is written as the growable sequence type.
pub open spec fn spec_is_multi_resolver(p: Path) -> bool {
    if path_is(p, "ElementResolverMulti"@) {
        true
    } else if p.segments.len() > 0 && p.segments@.last().ident@ == "ElementResolver"@ {
        match p.segments@.last().args {
            SegmentArgs::AngleBracketed(args) => match first_type_path(args@, 0) {
                Some(ids) => is_vec_spelling(ids@),
                None => false,
            },
            _ => false,
        }
    } else {
        false
    }
}

fn is_vec_path(ids: &Vec<String>) -> (r: bool)
    ensures
        r == is_vec_spelling(ids@),
{
    if ids.len() == 1 {
        str_eq(ids[0].as_str(), "Vec")
    } else if ids.len() == 2 {
        str_eq(ids[0].as_str(), "vec") && str_eq(ids[1].as_str(), "Vec")
    } else if ids.len() == 3 {
        (str_eq(ids[0].as_str(), "std") || str_eq(ids[0].as_str(), "alloc")) && str_eq(
            ids[1].as_str(),
            "vec",
        ) && str_eq(ids[2].as_str(), "Vec")
    } else {
        false
    }
}

/// Whether a field of type `path` needs a multi-element resolver.
pub fn is_multi_resolver(path: &Path) -> (r: bool)
    ensures
        r == spec_is_multi_resolver(*path),
{
    if path.is_ident("ElementResolverMulti") {
        return true;
    }
    let n = path.segments.len();
    if n == 0 {
        return false;
    }
    let last = &path.segments[n - 1];
    if !str_eq(last.ident.as_str(), "ElementResolver") {
        return false;
    }
    match &last.args {
        SegmentArgs::AngleBracketed(args) => {
            let mut i: usize = 0;
            while i < args.len()
                invariant
                    i <= args@.len(),
                    first_type_path(args@, 0) == first_type_path(args@, i as int),
                    n == path.segments@.len(),
                    n > 0,
                    *last == path.segments@[n - 1],
                    last.args == SegmentArgs::AngleBracketed(*args),
                    last.ident@ == "ElementResolver"@,
                    !path_is(*path, "ElementResolverMulti"@),
                decreases args@.len() - i,
            {
                match &args[i] {
                    GenericArg::TypePath(ids) => {
                        assert(first_type_path(args@, i as int) == Some(*ids));
                        assert(path.segments@.last() == *last);
                        return is_vec_path(ids);
                    },
                    GenericArg::NotTypePath => {},
                }
                i = i + 1;
            }
            false
        },
        _ => false,
    }
}

/// The mode of a field with tokens `s` and declared type `ty`: an explicit
/// `multi` token wins, else the type's shape decides.
pub open spec fn spec_mode(s: Seq<ByToken>, ty: Path) -> ResolutionMode {
    if has_cat(s, Category::Multi) || spec_is_multi_resolver(ty) {
        ResolutionMode::Multi
    } else {
        ResolutionMode::Single
    }
}

/// Classifies a field.
pub fn resolution_mode(tokens: &ByTokens, ty: &Path) -> (r: ResolutionMode)
    ensures
        r == spec_mode(tokens.tokens@, *ty),
{
    if tokens.is_multi() || is_multi_resolver(ty) {
        ResolutionMode::Multi
    } else {
        ResolutionMode::Single
    }
}

/// The arguments of a single-element resolver.
#[derive(Debug)]
pub enum SingleResolverArgs {
    CustomFn(String),
    Opts {
        by: Selector,
        first: Option<bool>,
        ignore_errors: Option<bool>,
        description: Option<String>,
        wait: Option<WaitOptions>,
    },
}

/// The arguments of a multi-element resolver.
#[derive(Debug)]
pub enum MultiResolverArgs {
    CustomFn(String),
    Opts {
        by: Selector,
        allow_empty: Option<bool>,
        ignore_errors: Option<bool>,
        description: Option<String>,
        wait: Option<WaitOptions>,
    },
}

/// `Some(true)` when a flag token was taken.
pub open spec fn flag_of(t: Option<ByToken>) -> Option<bool> {
    if t is Some {
        Some(true)
    } else {
        None
    }
}

/// The single-element arguments that the tokens `s` compile to: a custom
/// function must stand alone; otherwise exactly one selector, then the optional
/// `first`, `ignore_errors`, `description` and `wait`, and nothing else.
pub open spec fn spec_single_args(s: Seq<ByToken>) -> Result<SingleResolverArgs, CompileError> {
    let (cu, s1) = take_spec(s, Category::Custom);
    match spec_custom(cu) {
        Some(f) => {
            if s1.len() == 0 {
                Ok(SingleResolverArgs::CustomFn(f))
            } else {
                Err(CompileError::UnrecognisedArgs)
            }
        },
        None => match take_spec(s1, Category::Selector) {
            (Some(ByToken::Selector(by)), s2) => if has_cat(s2, Category::Selector) {
                Err(CompileError::MultipleSelectors)
            } else {
                let (fi, s3) = take_spec(s2, Category::First);
                let (ig, s4) = take_spec(s3, Category::IgnoreErrors);
                let (de, s5) = take_spec(s4, Category::Description);
                let (wa, s6) = take_spec(s5, Category::Wait);
                if s6.len() == 0 {
                    Ok(
                        SingleResolverArgs::Opts {
                            by,
                            first: flag_of(fi),
                            ignore_errors: flag_of(ig),
                            description: spec_description(de),
                            wait: spec_wait_options(wa),
                        },
                    )
                } else {
                    Err(CompileError::UnrecognisedArgs)
                }
            },
            _ => Err(CompileError::NoSelector),
        },
    }
}

/// The multi-element arguments that the tokens `s` compile to: the `multi`
/// flag is dropped; a custom function must stand alone; otherwise exactly one
/// selector, then the optional `allow_empty`, `ignore_errors`, `description`
/// and `wait`, and nothing else.
pub open spec fn spec_multi_args(s: Seq<ByToken>) -> Result<MultiResolverArgs, CompileError> {
    let s0 = take_spec(s, Category::Multi).1;
    let (cu, s1) = take_spec(s0, Category::Custom);
    match spec_custom(cu) {
        Some(f) => {
            if s1.len() == 0 {
                Ok(MultiResolverArgs::CustomFn(f))
            } else {
                Err(CompileError::UnrecognisedArgs)
            }
        },
        None => match take_spec(s1, Category::Selector) {
            (Some(ByToken::Selector(by)), s2) => if has_cat(s2, Category::Selector) {
                Err(CompileError::MultipleSelectors)
            } else {
                let (ae, s3) = take_spec(s2, Category::AllowEmpty);
                let (ig, s4) = take_spec(s3, Category::IgnoreErrors);
                let (de, s5) = take_spec(s4, Category::Description);
                let (wa, s6) = take_spec(s5, Category::Wait);
                if s6.len() == 0 {
                    Ok(
                        MultiResolverArgs::Opts {
                            by,
                            allow_empty: flag_of(ae),
                            ignore_errors: flag_of(ig),
                            description: spec_description(de),
                            wait: spec_wait_options(wa),
                        },
                    )
                } else {
                    Err(CompileError::UnrecognisedArgs)
                }
            },
            _ => Err(CompileError::NoSelector),
        },
    }
}

impl SingleResolverArgs {
    /// Drains a field's tokens into single-element resolver arguments.
    pub fn from_tokens(t: ByTokens) -> (r: Result<SingleResolverArgs, CompileError>)
        ensures
            r == spec_single_args(t.tokens@),
    {
        let mut t = t;
        match t.take_custom() {
            Some(f) => {
                if t.tokens.len() == 0 {
                    Ok(SingleResolverArgs::CustomFn(f))
                } else {
                    Err(CompileError::UnrecognisedArgs)
                }
            },
            None => {
                proof {
                    lemma_take_category(t.tokens@, Category::Selector);
                }
                if !has_selector(&t) {
                    return Err(CompileError::NoSelector);
                }
                if has_second(&t, Category::Selector) {
                    return Err(CompileError::MultipleSelectors);
                }
                let by = t.take_quote();
                let first = t.take_first();
                let ignore_errors = t.take_ignore_errors();
                let description = t.take_description();
                let wait = t.take_wait_options();
                if t.tokens.len() == 0 {
                    Ok(SingleResolverArgs::Opts { by, first, ignore_errors, description, wait })
                } else {
                    Err(CompileError::UnrecognisedArgs)
                }
            },
        }
    }
}

impl MultiResolverArgs {
    /// Drains a field's tokens into multi-element resolver arguments.
    pub fn from_tokens(t: ByTokens) -> (r: Result<MultiResolverArgs, CompileError>)
        ensures
            r == spec_multi_args(t.tokens@),
    {
        let mut t = t;
        let _ = t.take_multi();
        match t.take_custom() {
            Some(f) => {
                if t.tokens.len() == 0 {
                    Ok(MultiResolverArgs::CustomFn(f))
                } else {
                    Err(CompileError::UnrecognisedArgs)
                }
            },
            None => {
                proof {
                    lemma_take_category(t.tokens@, Category::Selector);
                }
                if !has_selector(&t) {
                    return Err(CompileError::NoSelector);
                }
                if has_second(&t, Category::Selector) {
                    return Err(CompileError::MultipleSelectors);
                }
                let by = t.take_quote();
                let allow_empty = t.take_allow_empty();
                let ignore_errors = t.take_ignore_errors();
                let description = t.take_description();
                let wait = t.take_wait_options();
                if t.tokens.len() == 0 {
                    Ok(MultiResolverArgs::Opts { by, allow_empty, ignore_errors, description, wait })
                } else {
                    Err(CompileError::UnrecognisedArgs)
                }
            },
        }
    }
}

/// Whether the bag holds a selector.
fn has_selector(t: &ByTokens) -> (r: bool)
    ensures
        r == has_cat(t.tokens@, Category::Selector),
{
    let mut i: usize = 0;
    while i < t.tokens.len()
        invariant
            i <= t.tokens@.len(),
            forall|j: int| 0 <= j < i ==> (#[trigger] t.tokens@[j]).spec_category() != Category::Selector,
        decreases t.tokens@.len() - i,
    {
        if let ByToken::Selector(_) = t.tokens[i] {
            return true;
        }
        i = i + 1;
    }
    false
}

} // verus!
