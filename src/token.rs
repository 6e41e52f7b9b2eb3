//! The attribute mini-language: the shape of a parsed attribute fragment, the
//! closed set of tokens it denotes, and each token's category and conflicts.
use vstd::prelude::*;

verus! {

/// The generic arguments written on one path segment.
#[derive(Debug, Clone)]
pub enum SegmentArgs {
    /// No arguments: `Foo`.
    Empty,
    /// `Foo<A, B>`: the type-path arguments in order, others as `NotTypePath`.
    AngleBracketed(Vec<GenericArg>),
    /// `Fn(A) -> B`.
    Parenthesized,
}

/// One generic argument, as far as classification needs to see it.
#[derive(Debug, Clone)]
pub enum GenericArg {
    /// A type written as a path: the identifiers of its segments, in order.
    TypePath(Vec<String>),
    /// A lifetime, a constant, a binding, or a type that is not a path.
    NotTypePath,
}

#[derive(Debug, Clone)]
pub struct PathSegment {
    pub ident: String,
    pub args: SegmentArgs,
}

/// A path as written in source, such as `std::vec::Vec<T>` or `css`.
#[derive(Debug, Clone)]
pub struct Path {
    pub leading_colon: bool,
    pub segments: Vec<PathSegment>,
}

/// A literal as written in an attribute.
#[derive(Debug, Clone)]
pub enum Lit {
    /// A string literal: its value, escapes resolved.
    Str(String),
    /// An integer literal: its decimal digits, suffix and underscores removed.
    Int(String),
    /// Any other literal.
    Other,
}

/// An argument inside a parenthesized attribute argument list.
#[derive(Debug, Clone)]
pub enum InnerArg {
    /// `key = literal`.
    NameValue(Path, Lit),
    /// Anything else.
    Other,
}

/// One attribute fragment: `flag`, `key = literal` or `key(args)`.
#[derive(Debug, Clone)]
pub enum Meta {
    Path(Path),
    List(Path, Vec<InnerArg>),
    NameValue(Path, Lit),
}

/// One argument of a `by(...)` attribute.
#[derive(Debug, Clone)]
pub enum ByArg {
    /// An attribute fragment.
    Meta(Meta),
    /// A bare literal, which the language does not accept here.
    Lit(Lit),
}

/// A `by` attribute on a field.
#[derive(Debug, Clone)]
pub enum ByAttr {
    /// `by(arg, arg, ...)`.
    List(Vec<ByArg>),
    /// Any other shape, or one that does not parse.
    Malformed,
}

/// The kinds of selector a field may be located by.
#[derive(Debug, Clone, Copy, PartialEq, Eq, Structural)]
pub enum SelectorKind {
    Id,
    Tag,
    LinkText,
    Css,
    XPath,
    Name,
}

/// A selector: how an element is located, and the query string.
#[derive(Debug, Clone)]
pub struct Selector {
    pub kind: SelectorKind,
    pub value: String,
}

/// An explicit wait policy: poll every `interval_ms` for up to `timeout_ms`.
#[derive(Debug, Clone, Copy, PartialEq, Eq, Structural)]
pub struct WaitOptions {
    pub timeout_ms: u32,
    pub interval_ms: u32,
}

/// One accepted attribute token.
#[derive(Debug, Clone)]
pub enum ByToken {
    Selector(Selector),
    Multi,
    AllowEmpty,
    First,
    IgnoreErrors,
    Description(String),
    Wait(WaitOptions),
    CustomFn(String),
}

/// The unique category of a token: at most one token per category is allowed.
#[derive(Debug, Clone, Copy, PartialEq, Eq, Structural)]
pub enum Category {
    Selector,
    Multi,
    AllowEmpty,
    First,
    IgnoreErrors,
    Description,
    Wait,
    Custom,
}

impl Category {
    pub open spec fn spec_name(self) -> Seq<char> {
        match self {
            Category::Selector => "selector"@,
            Category::Multi => "multi"@,
            Category::AllowEmpty => "allow_empty"@,
            Category::First => "first"@,
            Category::IgnoreErrors => "ignore_errors"@,
            Category::Description => "description"@,
            Category::Wait => "wait"@,
            Category::Custom => "custom"@,
        }
    }

    /// The name under which diagnostics mention the category.
    pub fn name(self) -> (r: &'static str)
        ensures
            r@ == self.spec_name(),
    {
        match self {
            Category::Selector => "selector",
            Category::Multi => "multi",
            Category::AllowEmpty => "allow_empty",
            Category::First => "first",
            Category::IgnoreErrors => "ignore_errors",
            Category::Description => "description",
            Category::Wait => "wait",
            Category::Custom => "custom",
        }
    }
}

impl ByToken {
    pub open spec fn spec_category(self) -> Category {
        match self {
            ByToken::Selector(_) => Category::Selector,
            ByToken::Multi => Category::Multi,
            ByToken::AllowEmpty => Category::AllowEmpty,
            ByToken::First => Category::First,
            ByToken::IgnoreErrors => Category::IgnoreErrors,
            ByToken::Description(_) => Category::Description,
            ByToken::Wait(_) => Category::Wait,
            ByToken::CustomFn(_) => Category::Custom,
        }
    }

    /// The categories that may not appear beside this token, in the order in
    /// which they are checked.
    pub open spec fn spec_disallowed(self) -> Seq<Category> {
        match self {
            ByToken::AllowEmpty => seq![Category::Custom],
            ByToken::First => seq![Category::Multi, Category::Custom],
            ByToken::IgnoreErrors => seq![Category::Custom],
            ByToken::Description(_) => seq![Category::Custom],
            ByToken::Wait(_) => seq![Category::Custom],
            ByToken::CustomFn(_) => seq![
                Category::Multi,
                Category::First,
                Category::IgnoreErrors,
                Category::Description,
                Category::Wait,
                Category::AllowEmpty,
            ],
            _ => seq![],
        }
    }

    /// The token's unique category.
    pub fn get_unique_type(&self) -> (r: Category)
        ensures
            r == self.spec_category(),
    {
        match self {
            ByToken::Selector(_) => Category::Selector,
            ByToken::Multi => Category::Multi,
            ByToken::AllowEmpty => Category::AllowEmpty,
            ByToken::First => Category::First,
            ByToken::IgnoreErrors => Category::IgnoreErrors,
            ByToken::Description(_) => Category::Description,
            ByToken::Wait(_) => Category::Wait,
            ByToken::CustomFn(_) => Category::Custom,
        }
    }

    /// The categories this token conflicts with.
    pub fn get_disallowed_types(&self) -> (r: Vec<Category>)
        ensures
            r@ == self.spec_disallowed(),
    {
        let r = match self {
            ByToken::AllowEmpty => vec![Category::Custom],
            ByToken::First => vec![Category::Multi, Category::Custom],
            ByToken::IgnoreErrors => vec![Category::Custom],
            ByToken::Description(_) => vec![Category::Custom],
            ByToken::Wait(_) => vec![Category::Custom],
            ByToken::CustomFn(_) => vec![
                Category::Multi,
                Category::First,
                Category::IgnoreErrors,
                Category::Description,
                Category::Wait,
                Category::AllowEmpty,
            ],
            _ => vec![],
        };
        assert(r@ == self.spec_disallowed());
        r
    }
}

} // verus!
