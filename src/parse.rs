//! Turns one attribute fragment into a token.
use vstd::prelude::*;
use crate::error::CompileError;
use crate::text::{decimal_value, is_decimal, parse_u32, str_eq};
use crate::token::{ByToken, InnerArg, Lit, Meta, Path, SegmentArgs, Selector, SelectorKind, WaitOptions};

verus! {

/// Whether `p` is the single plain identifier `name`.
pub open spec fn path_is(p: Path, name: Seq<char>) -> bool {
    !p.leading_colon && p.segments.len() == 1 && p.segments[0].args is Empty
        && p.segments[0].ident@ == name
}

/// The `u32` written by `s` in decimal, if any.
pub open spec fn spec_parse_u32(s: Seq<char>) -> Option<u32> {
    if is_decimal(s) && decimal_value(s) <= u32::MAX {
        Some(decimal_value(s) as u32)
    } else {
        None
    }
}

impl Path {
    /// Whether this path is the single plain identifier `name`.
    pub fn is_ident(&self, name: &str) -> (r: bool)
        ensures
            r == path_is(*self, name@),
    {
        if self.leading_colon || self.segments.len() != 1 {
            return false;
        }
        let seg = &self.segments[0];
        match seg.args {
            SegmentArgs::Empty => str_eq(seg.ident.as_str(), name),
            _ => false,
        }
    }
}

/// The outcome of reading `wait(...)` arguments: timeout and interval so far.
pub type WaitAcc = (Option<u32>, Option<u32>);

/// One step of reading the arguments of `wait(...)`.
pub open spec fn wait_step(acc: WaitAcc, a: InnerArg) -> Result<WaitAcc, CompileError> {
    match a {
        InnerArg::NameValue(k, lit) => match lit {
            Lit::Int(d) => {
                if path_is(k, "timeout_ms"@) {
                    if acc.0 is Some {
                        Err(CompileError::TimeoutTwice)
                    } else {
                        match spec_parse_u32(d@) {
                            Some(v) => Ok((Some(v), acc.1)),
                            None => Err(CompileError::InvalidTimeout),
                        }
                    }
                } else if path_is(k, "interval_ms"@) {
                    if acc.1 is Some {
                        Err(CompileError::IntervalTwice)
                    } else {
                        match spec_parse_u32(d@) {
                            Some(v) => Ok((acc.0, Some(v))),
                            None => Err(CompileError::InvalidInterval),
                        }
                    }
                } else {
                    Err(CompileError::UnknownWaitArg)
                }
            },
            _ => Err(CompileError::UnknownWaitArg),
        },
        InnerArg::Other => Err(CompileError::MalformedWaitArg),
    }
}

/// Reading the first `n` arguments of `wait(...)`, stopping at the first error.
pub open spec fn wait_scan(args: Seq<InnerArg>, n: int) -> Result<WaitAcc, CompileError>
    decreases n,
{
    if n <= 0 {
        Ok((None, None))
    } else {
        match wait_scan(args, n - 1) {
            Ok(acc) => wait_step(acc, args[n - 1]),
            Err(e) => Err(e),
        }
    }
}

/// The wait policy written by the arguments of `wait(...)`.
pub open spec fn spec_wait(args: Seq<InnerArg>) -> Result<WaitOptions, CompileError> {
    match wait_scan(args, args.len() as int) {
        Ok((Some(t), Some(i))) => Ok(WaitOptions { timeout_ms: t, interval_ms: i }),
        Ok(_) => Err(CompileError::WaitMissingArgs),
        Err(e) => Err(e),
    }
}

/// The token written by a bare flag.
pub open spec fn spec_flag(p: Path) -> Result<ByToken, CompileError> {
    if path_is(p, "multi"@) {
        Ok(ByToken::Multi)
    } else if path_is(p, "allow_empty"@) {
        Ok(ByToken::AllowEmpty)
    } else if path_is(p, "first"@) {
        Ok(ByToken::First)
    } else if path_is(p, "ignore_errors"@) {
        Ok(ByToken::IgnoreErrors)
    } else {
        Err(CompileError::UnknownAttribute)
    }
}

/// The selector kind named by a key, if it names one.
pub open spec fn spec_selector_kind(p: Path) -> Option<SelectorKind> {
    if path_is(p, "id"@) {
        Some(SelectorKind::Id)
    } else if path_is(p, "tag"@) {
        Some(SelectorKind::Tag)
    } else if path_is(p, "link"@) {
        Some(SelectorKind::LinkText)
    } else if path_is(p, "css"@) {
        Some(SelectorKind::Css)
    } else if path_is(p, "xpath"@) {
        Some(SelectorKind::XPath)
    } else if path_is(p, "name"@) {
        Some(SelectorKind::Name)
    } else {
        None
    }
}

/// The token written by `key = literal`.
pub open spec fn spec_name_value(p: Path, lit: Lit) -> Result<ByToken, CompileError> {
    match lit {
        Lit::Str(v) => match spec_selector_kind(p) {
            Some(kind) => Ok(ByToken::Selector(Selector { kind, value: v })),
            None => {
                if path_is(p, "description"@) {
                    Ok(ByToken::Description(v))
                } else if path_is(p, "custom"@) {
                    Ok(ByToken::CustomFn(v))
                } else {
                    Err(CompileError::UnknownAttribute)
                }
            },
        },
        _ => Err(CompileError::UnknownAttribute),
    }
}

/// The token written by one attribute fragment.
pub open spec fn spec_token(m: Meta) -> Result<ByToken, CompileError> {
    match m {
        Meta::Path(p) => spec_flag(p),
        Meta::List(p, args) => {
            if path_is(p, "wait"@) {
                match spec_wait(args@) {
                    Ok(w) => Ok(ByToken::Wait(w)),
                    Err(e) => Err(e),
                }
            } else {
                Err(CompileError::UnknownAttribute)
            }
        },
        Meta::NameValue(p, lit) => spec_name_value(p, lit),
    }
}

/// One step of reading the arguments of `wait(...)`.
fn parse_wait_arg(acc: WaitAcc, a: &InnerArg) -> (r: Result<WaitAcc, CompileError>)
    ensures
        r == wait_step(acc, *a),
{
    let (timeout, interval) = acc;
    match a {
        InnerArg::NameValue(k, Lit::Int(d)) => {
            if k.is_ident("timeout_ms") {
                if timeout.is_some() {
                    Err(CompileError::TimeoutTwice)
                } else {
                    match parse_u32(d.as_str()) {
                        Some(v) => Ok((Some(v), interval)),
                        None => Err(CompileError::InvalidTimeout),
                    }
                }
            } else if k.is_ident("interval_ms") {
                if interval.is_some() {
                    Err(CompileError::IntervalTwice)
                } else {
                    match parse_u32(d.as_str()) {
                        Some(v) => Ok((timeout, Some(v))),
                        None => Err(CompileError::InvalidInterval),
                    }
                }
            } else {
                Err(CompileError::UnknownWaitArg)
            }
        },
        InnerArg::NameValue(_, _) => Err(CompileError::UnknownWaitArg),
        InnerArg::Other => Err(CompileError::MalformedWaitArg),
    }
}

/// Once reading the arguments has failed, it stays failed with that error.
proof fn lemma_wait_scan_err(args: Seq<InnerArg>, k: int, n: int)
    requires
        0 <= k <= n,
        wait_scan(args, k) is Err,
    ensures
        wait_scan(args, n) == wait_scan(args, k),
    decreases n - k,
{
    if k < n {
        lemma_wait_scan_err(args, k, n - 1);
    }
}

/// Reads the arguments of `wait(...)`.
fn parse_wait(args: &Vec<InnerArg>) -> (r: Result<WaitOptions, CompileError>)
    ensures
        r == spec_wait(args@),
{
    let mut acc: WaitAcc = (None, None);
    let mut i: usize = 0;
    while i < args.len()
        invariant
            i <= args.len(),
            wait_scan(args@, i as int) == Ok::<WaitAcc, CompileError>(acc),
        decreases args.len() - i,
    {
        match parse_wait_arg(acc, &args[i]) {
            Ok(next) => acc = next,
            Err(e) => {
                proof {
                    lemma_wait_scan_err(args@, i + 1, args@.len() as int);
                }
                return Err(e);
            },
        }
        i = i + 1;
    }
    match acc {
        (Some(t), Some(v)) => Ok(WaitOptions { timeout_ms: t, interval_ms: v }),
        _ => Err(CompileError::WaitMissingArgs),
    }
}

impl ByToken {
    /// Reads one attribute fragment as a token.
    pub fn from_meta(value: &Meta) -> (r: Result<ByToken, CompileError>)
        ensures
            r == spec_token(*value),
    {
        match value {
            Meta::Path(p) => {
                if p.is_ident("multi") {
                    Ok(ByToken::Multi)
                } else if p.is_ident("allow_empty") {
                    Ok(ByToken::AllowEmpty)
                } else if p.is_ident("first") {
                    Ok(ByToken::First)
                } else if p.is_ident("ignore_errors") {
                    Ok(ByToken::IgnoreErrors)
                } else {
                    Err(CompileError::UnknownAttribute)
                }
            },
            Meta::List(p, args) => {
                if p.is_ident("wait") {
                    match parse_wait(args) {
                        Ok(w) => Ok(ByToken::Wait(w)),
                        Err(e) => Err(e),
                    }
                } else {
                    Err(CompileError::UnknownAttribute)
                }
            },
            Meta::NameValue(p, lit) => match lit {
                Lit::Str(v) => {
                    let kind = if p.is_ident("id") {
                        Some(SelectorKind::Id)
                    } else if p.is_ident("tag") {
                        Some(SelectorKind::Tag)
                    } else if p.is_ident("link") {
                        Some(SelectorKind::LinkText)
                    } else if p.is_ident("css") {
                        Some(SelectorKind::Css)
                    } else if p.is_ident("xpath") {
                        Some(SelectorKind::XPath)
                    } else if p.is_ident("name") {
                        Some(SelectorKind::Name)
                    } else {
                        None
                    };
                    match kind {
                        Some(kind) => Ok(ByToken::Selector(Selector { kind, value: v.clone() })),
                        None => {
                            if p.is_ident("description") {
                                Ok(ByToken::Description(v.clone()))
                            } else if p.is_ident("custom") {
                                Ok(ByToken::CustomFn(v.clone()))
                            } else {
                                Err(CompileError::UnknownAttribute)
                            }
                        },
                    }
                },
                _ => Err(CompileError::UnknownAttribute),
            },
        }
    }
}

} // verus!
