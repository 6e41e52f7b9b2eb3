//! The token bag of one field: filled by the parser under the validator's
//! rules, then drained by the resolver compilers.
use vstd::prelude::*;
use crate::error::CompileError;
use crate::token::{ByArg, ByAttr, ByToken, Category, Selector, WaitOptions};
use crate::parse::spec_token;

verus! {

/// The categories of the tokens, in order.
pub open spec fn cats(s: Seq<ByToken>) -> Seq<Category> {
    s.map_values(|t: ByToken| t.spec_category())
}

/// Whether some token of `s` is of category `c`.
pub open spec fn has_cat(s: Seq<ByToken>, c: Category) -> bool {
    exists|i: int| 0 <= i < s.len() && (#[trigger] s[i]).spec_category() == c
}

/// The category of the first of the first `n` tokens whose category already
/// occurred before it.
pub open spec fn first_dup(s: Seq<ByToken>, n: int) -> Option<Category>
    decreases n,
{
    if n <= 0 {
        None
    } else {
        match first_dup(s, n - 1) {
            Some(c) => Some(c),
            None => {
                if cats(s).take(n - 1).contains(s[n - 1].spec_category()) {
                    Some(s[n - 1].spec_category())
                } else {
                    None
                }
            },
        }
    }
}

/// The first of the first `k` entries of `d` that occurs in `present`.
pub open spec fn first_hit(d: Seq<Category>, present: Seq<Category>, k: int) -> Option<Category>
    decreases k,
{
    if k <= 0 {
        None
    } else {
        match first_hit(d, present, k - 1) {
            Some(c) => Some(c),
            None => {
                if present.contains(d[k - 1]) {
                    Some(d[k - 1])
                } else {
                    None
                }
            },
        }
    }
}

/// The first conflict among the first `n` tokens: the token's category and
/// the first category it excludes that is present in `s`.
pub open spec fn first_conflict(s: Seq<ByToken>, n: int) -> Option<(Category, Category)>
    decreases n,
{
    if n <= 0 {
        None
    } else {
        match first_conflict(s, n - 1) {
            Some(p) => Some(p),
            None => {
                let d = s[n - 1].spec_disallowed();
                match first_hit(d, cats(s), d.len() as int) {
                    Some(c) => Some((s[n - 1].spec_category(), c)),
                    None => None,
                }
            },
        }
    }
}

/// The verdict of the validator on a sequence of tokens: duplicates are
/// reported before conflicts, each at its first occurrence.
pub open spec fn spec_validate(s: Seq<ByToken>) -> Result<(), CompileError> {
    match first_dup(s, s.len() as int) {
        Some(c) => Err(CompileError::Duplicate(c)),
        None => match first_conflict(s, s.len() as int) {
            Some((a, b)) => Err(CompileError::Conflict(a, b)),
            None => Ok(()),
        },
    }
}

/// No two tokens share a category.
pub open spec fn unique_categories(s: Seq<ByToken>) -> bool {
    forall|i: int, j: int|
        0 <= i < j < s.len() ==> (#[trigger] s[i]).spec_category() != (#[trigger] s[j]).spec_category()
}

/// No token sits beside a token of a category it excludes.
pub open spec fn no_conflicts(s: Seq<ByToken>) -> bool {
    forall|i: int, k: int|
        0 <= i < s.len() && 0 <= k < s[i].spec_disallowed().len() ==> !has_cat(
            s,
            #[trigger] s[i].spec_disallowed()[k],
        )
}

/// Removes the first token of category `c`: the token, and what is left.
pub open spec fn take_spec(s: Seq<ByToken>, c: Category) -> (Option<ByToken>, Seq<ByToken>)
    decreases s.len(),
{
    if s.len() == 0 {
        (None, s)
    } else if s[0].spec_category() == c {
        (Some(s[0]), s.drop_first())
    } else {
        let (r, rest) = take_spec(s.drop_first(), c);
        (r, seq![s[0]] + rest)
    }
}

/// An error in the arguments of a `by(...)` attribute: the index of the
/// argument it arose at, and the error.
pub type ArgError = (usize, CompileError);

/// An error in a `by` attribute: the index of the argument it arose at (`None`
/// where the attribute as a whole is malformed), and the error.
pub type AttrError = (Option<usize>, CompileError);

/// Reading the first `n` arguments of a `by(...)` attribute onto the tokens
/// `start`, validating after each token and stopping at the first error,
/// which is reported at the argument that caused it.
pub open spec fn parse_scan(start: Seq<ByToken>, args: Seq<ByArg>, n: int) -> Result<
    Seq<ByToken>,
    ArgError,
>
    decreases n,
{
    if n <= 0 {
        Ok(start)
    } else {
        match parse_scan(start, args, n - 1) {
            Err(e) => Err(e),
            Ok(s) => match args[n - 1] {
                ByArg::Lit(_) => Err(((n - 1) as usize, CompileError::UnrecognisedToken)),
                ByArg::Meta(m) => match spec_token(m) {
                    Err(e) => Err(((n - 1) as usize, e)),
                    Ok(t) => match spec_validate(s.push(t)) {
                        Err(e) => Err(((n - 1) as usize, e)),
                        Ok(_) => Ok(s.push(t)),
                    },
                },
            },
        }
    }
}

/// The tokens that a `by` attribute adds to the tokens `start`.
pub open spec fn spec_attr_onto(start: Seq<ByToken>, a: ByAttr) -> Result<Seq<ByToken>, AttrError> {
    match a {
        ByAttr::List(args) => match parse_scan(start, args@, args@.len() as int) {
            Ok(s) => Ok(s),
            Err((k, e)) => Err((Some(k), e)),
        },
        ByAttr::Malformed => Err((None, CompileError::MalformedByAttr)),
    }
}

/// The tokens written by a `by` attribute alone.
pub open spec fn spec_attr(a: ByAttr) -> Result<Seq<ByToken>, AttrError> {
    spec_attr_onto(seq![], a)
}

/// The accepted tokens of one field, in the order in which they were written.
#[derive(Debug)]
pub struct ByTokens {
    pub tokens: Vec<ByToken>,
}

/// Whether `v` holds `c`.
fn contains_category(v: &Vec<Category>, c: Category) -> (r: bool)
    ensures
        r == v@.contains(c),
{
    let mut i: usize = 0;
    while i < v.len()
        invariant
            i <= v.len(),
            forall|j: int| 0 <= j < i ==> v@[j] != c,
        decreases v.len() - i,
    {
        if v[i] == c {
            return true;
        }
        i = i + 1;
    }
    false
}

pub proof fn lemma_first_dup_none(s: Seq<ByToken>, n: int)
    requires
        0 <= n <= s.len(),
    ensures
        first_dup(s, n) is None <==> forall|i: int, j: int|
            0 <= i < j < n ==> (#[trigger] s[i]).spec_category() != (#[trigger] s[j]).spec_category(),
    decreases n,
{
    if n > 0 {
        lemma_first_dup_none(s, n - 1);
        let pre = cats(s).take(n - 1);
        if first_dup(s, n - 1) is None && !pre.contains(s[n - 1].spec_category()) {
            assert forall|i: int, j: int|
                0 <= i < j < n implies (#[trigger] s[i]).spec_category() != (#[trigger] s[j]).spec_category() by {
                if j == n - 1 {
                    assert(pre[i] == s[i].spec_category());
                }
            }
        }
        if first_dup(s, n - 1) is None && pre.contains(s[n - 1].spec_category()) {
            let i = choose|i: int| 0 <= i < pre.len() && pre[i] == s[n - 1].spec_category();
            assert(s[i].spec_category() == s[n - 1].spec_category());
        }
    }
}

proof fn lemma_first_hit_none(d: Seq<Category>, present: Seq<Category>, k: int)
    requires
        0 <= k <= d.len(),
    ensures
        first_hit(d, present, k) is None <==> forall|m: int| 0 <= m < k ==> !present.contains(#[trigger] d[m]),
    decreases k,
{
    if k > 0 {
        lemma_first_hit_none(d, present, k - 1);
    }
}

proof fn lemma_has_cat(s: Seq<ByToken>, c: Category)
    ensures
        has_cat(s, c) == cats(s).contains(c),
{
    if has_cat(s, c) {
        let i = choose|i: int| 0 <= i < s.len() && (#[trigger] s[i]).spec_category() == c;
        assert(cats(s)[i] == c);
    }
    if cats(s).contains(c) {
        let i = choose|i: int| 0 <= i < cats(s).len() && cats(s)[i] == c;
        assert(s[i].spec_category() == c);
    }
}

proof fn lemma_first_conflict_none(s: Seq<ByToken>, n: int)
    requires
        0 <= n <= s.len(),
    ensures
        first_conflict(s, n) is None <==> forall|i: int, k: int|
            0 <= i < n && 0 <= k < s[i].spec_disallowed().len() ==> !has_cat(
                s,
                #[trigger] s[i].spec_disallowed()[k],
            ),
    decreases n,
{
    if n > 0 {
        lemma_first_conflict_none(s, n - 1);
        let d = s[n - 1].spec_disallowed();
        lemma_first_hit_none(d, cats(s), d.len() as int);
        assert forall|k: int| 0 <= k < d.len() implies has_cat(s, d[k]) == cats(s).contains(d[k]) by {
            lemma_has_cat(s, d[k]);
        }
    }
}

/// The validator accepts exactly the sequences with unique categories and no
/// conflicts.
pub proof fn lemma_validate_ok(s: Seq<ByToken>)
    ensures
        spec_validate(s) is Ok <==> (unique_categories(s) && no_conflicts(s)),
{
    lemma_first_dup_none(s, s.len() as int);
    lemma_first_conflict_none(s, s.len() as int);
}

impl ByTokens {
    /// Checks that no category occurs twice and that no token sits beside a
    /// category it excludes.
    pub fn validate(&self) -> (r: Result<(), CompileError>)
        ensures
            r == spec_validate(self.tokens@),
    {
        let ghost s = self.tokens@;
        // The categories seen so far, in order: with eight categories at most,
        // a linear scan is all the lookup this needs.
        let mut seen: Vec<Category> = Vec::new();
        let mut i: usize = 0;
        while i < self.tokens.len()
            invariant
                s == self.tokens@,
                i <= s.len(),
                seen@ == cats(s).take(i as int),
                first_dup(s, i as int) is None,
            decreases s.len() - i,
        {
            let t = self.tokens[i].get_unique_type();
            if contains_category(&seen, t) {
                assert(first_dup(s, i + 1) == Some(t));
                proof {
                    lemma_first_dup_some(s, i + 1, s.len() as int);
                }
                return Err(CompileError::Duplicate(t));
            }
            seen.push(t);
            assert(cats(s).take(i + 1) == cats(s).take(i as int).push(t));
            i = i + 1;
        }
        assert(cats(s).take(s.len() as int) == cats(s));
        let mut i: usize = 0;
        while i < self.tokens.len()
            invariant
                s == self.tokens@,
                i <= s.len(),
                seen@ == cats(s),
                first_dup(s, s.len() as int) is None,
                first_conflict(s, i as int) is None,
            decreases s.len() - i,
        {
            let disallowed = self.tokens[i].get_disallowed_types();
            let ghost d = disallowed@;
            let mut k: usize = 0;
            while k < disallowed.len()
                invariant
                    s == self.tokens@,
                    i < s.len(),
                    d == disallowed@,
                    d == s[i as int].spec_disallowed(),
                    k <= d.len(),
                    seen@ == cats(s),
                    first_dup(s, s.len() as int) is None,
                    first_conflict(s, i as int) is None,
                    first_hit(d, cats(s), k as int) is None,
                decreases d.len() - k,
            {
                let t = disallowed[k];
                if contains_category(&seen, t) {
                    assert(first_hit(d, cats(s), k + 1) == Some(t));
                    let unique = self.tokens[i].get_unique_type();
                    proof {
                        lemma_first_hit_some(d, cats(s), k + 1, d.len() as int);
                        assert(first_conflict(s, i + 1) == Some((unique, t)));
                        lemma_first_conflict_some(s, i + 1, s.len() as int);
                    }
                    return Err(CompileError::Conflict(unique, t));
                }
                k = k + 1;
            }
            assert(first_conflict(s, i + 1) is None);
            i = i + 1;
        }
        Ok(())
    }

    /// Reads a `by` attribute, validating after every token so that the
    /// first offending token is the one reported.
    pub fn from_attr(attr: &ByAttr) -> (r: Result<ByTokens, AttrError>)
        ensures
            match r {
                Ok(b) => spec_attr(*attr) == Ok::<Seq<ByToken>, AttrError>(b.tokens@),
                Err(e) => spec_attr(*attr) == Err::<Seq<ByToken>, AttrError>(e),
            },
            r is Ok ==> unique_categories(r->Ok_0.tokens@) && no_conflicts(r->Ok_0.tokens@),
    {
        match attr {
            ByAttr::List(args) => match Self::from_args(args) {
                Ok(b) => Ok(b),
                Err((k, e)) => Err((Some(k), e)),
            },
            ByAttr::Malformed => Err((None, CompileError::MalformedByAttr)),
        }
    }

    /// Reads the arguments of a `by(...)` attribute.
    pub fn from_args(args: &Vec<ByArg>) -> (r: Result<ByTokens, ArgError>)
        ensures
            match r {
                Ok(b) => parse_scan(seq![], args@, args@.len() as int) == Ok::<Seq<ByToken>, ArgError>(
                    b.tokens@,
                ),
                Err(e) => parse_scan(seq![], args@, args@.len() as int) == Err::<Seq<ByToken>, ArgError>(
                    e,
                ),
            },
            r matches Err((k, e)) ==> k < args@.len() && parse_scan(seq![], args@, k as int) is Ok
                && parse_scan(seq![], args@, k + 1) == Err::<Seq<ByToken>, ArgError>((k, e)),
            r is Ok ==> unique_categories(r->Ok_0.tokens@) && no_conflicts(r->Ok_0.tokens@),
    {
        let mut by_tokens = ByTokens { tokens: Vec::new() };
        proof {
            assert(first_dup(seq![], 0) is None);
            assert(first_conflict(seq![], 0) is None);
        }
        match by_tokens.extend_from_args(args) {
            Ok(()) => Ok(by_tokens),
            Err(e) => Err(e),
        }
    }

    /// Adds the arguments of a `by(...)` attribute to the bag, validating the
    /// whole bag after every token so that the first offending token is the
    /// one reported, at its own argument.
    pub fn extend_from_args(&mut self, args: &Vec<ByArg>) -> (r: Result<(), ArgError>)
        ensures
            match r {
                Ok(_) => parse_scan(old(self).tokens@, args@, args@.len() as int) == Ok::<
                    Seq<ByToken>,
                    ArgError,
                >(final(self).tokens@),
                Err(e) => parse_scan(old(self).tokens@, args@, args@.len() as int) == Err::<
                    Seq<ByToken>,
                    ArgError,
                >(e),
            },
            r matches Err((k, e)) ==> k < args@.len() && parse_scan(old(self).tokens@, args@, k as int) is Ok
                && parse_scan(old(self).tokens@, args@, k + 1) == Err::<Seq<ByToken>, ArgError>((k, e)),
            r is Ok && spec_validate(old(self).tokens@) is Ok ==> unique_categories(
                final(self).tokens@,
            ) && no_conflicts(final(self).tokens@),
    {
        let ghost start = self.tokens@;
        let mut i: usize = 0;
        while i < args.len()
            invariant
                i <= args.len(),
                start == old(self).tokens@,
                parse_scan(start, args@, i as int) == Ok::<Seq<ByToken>, ArgError>(self.tokens@),
            decreases args.len() - i,
        {
            let token = match &args[i] {
                ByArg::Meta(meta) => match ByToken::from_meta(meta) {
                    Ok(t) => t,
                    Err(e) => {
                        assert(args@[i as int] == ByArg::Meta(*meta));
                        assert(parse_scan(start, args@, i + 1) == Err::<Seq<ByToken>, ArgError>((i, e)));
                        proof {
                            lemma_parse_scan_err(start, args@, i + 1, args@.len() as int);
                        }
                        return Err((i, e));
                    },
                },
                ByArg::Lit(_) => {
                    assert(args@[i as int] is Lit);
                    assert(parse_scan(start, args@, i + 1) == Err::<Seq<ByToken>, ArgError>(
                        (i, CompileError::UnrecognisedToken),
                    ));
                    proof {
                        lemma_parse_scan_err(start, args@, i + 1, args@.len() as int);
                    }
                    return Err((i, CompileError::UnrecognisedToken));
                },
            };
            self.tokens.push(token);
            match self.validate() {
                Ok(()) => {},
                Err(e) => {
                    assert(parse_scan(start, args@, i + 1) == Err::<Seq<ByToken>, ArgError>((i, e)));
                    proof {
                        lemma_parse_scan_err(start, args@, i + 1, args@.len() as int);
                    }
                    return Err((i, e));
                },
            }
            i = i + 1;
        }
        proof {
            lemma_parse_scan_valid(start, args@, args@.len() as int);
        }
        Ok(())
    }

    /// Removes and returns the first token of category `c`, if any.
    pub fn take_one(&mut self, c: Category) -> (r: Option<ByToken>)
        ensures
            (r, final(self).tokens@) == take_spec(old(self).tokens@, c),
    {
        let ghost s = self.tokens@;
        let mut i: usize = 0;
        let mut found: bool = false;
        while i < self.tokens.len() && !found
            invariant
                s == self.tokens@,
                i <= s.len(),
                forall|j: int| 0 <= j < i ==> (#[trigger] s[j]).spec_category() != c,
                found ==> i < s.len() && s[i as int].spec_category() == c,
            decreases s.len() - i + (if found { 0int } else { 1int }),
        {
            if self.tokens[i].get_unique_type() == c {
                found = true;
            } else {
                i = i + 1;
            }
        }
        if found {
            proof {
                lemma_take_at(s, c, i as int);
            }
            let t = self.tokens.remove(i);
            return Some(t);
        }
        proof {
            lemma_take_none(s, c);
        }
        None
    }

    /// Whether some token asks for a multi-element resolver; takes nothing.
    pub fn is_multi(&self) -> (r: bool)
        ensures
            r == has_cat(self.tokens@, Category::Multi),
    {
        let mut i: usize = 0;
        while i < self.tokens.len()
            invariant
                i <= self.tokens@.len(),
                forall|j: int| 0 <= j < i ==> (#[trigger] self.tokens@[j]).spec_category() != Category::Multi,
            decreases self.tokens@.len() - i,
        {
            if let ByToken::Multi = self.tokens[i] {
                return true;
            }
            i = i + 1;
        }
        false
    }

    /// Takes a flag token of category `c`: `Some(true)` if it was there.
    fn take_flag(&mut self, c: Category) -> (r: Option<bool>)
        ensures
            r == (if take_spec(old(self).tokens@, c).0 is Some { Some(true) } else { None::<bool> }),
            final(self).tokens@ == take_spec(old(self).tokens@, c).1,
    {
        match self.take_one(c) {
            Some(_) => Some(true),
            None => None,
        }
    }

    /// Takes the `multi` flag.
    pub fn take_multi(&mut self) -> (r: Option<bool>)
        ensures
            r == (if take_spec(old(self).tokens@, Category::Multi).0 is Some { Some(true) } else { None::<bool> }),
            final(self).tokens@ == take_spec(old(self).tokens@, Category::Multi).1,
    {
        self.take_flag(Category::Multi)
    }

    /// Takes the `first` flag.
    pub fn take_first(&mut self) -> (r: Option<bool>)
        ensures
            r == (if take_spec(old(self).tokens@, Category::First).0 is Some { Some(true) } else { None::<bool> }),
            final(self).tokens@ == take_spec(old(self).tokens@, Category::First).1,
    {
        self.take_flag(Category::First)
    }

    /// Takes the `allow_empty` flag.
    pub fn take_allow_empty(&mut self) -> (r: Option<bool>)
        ensures
            r == (if take_spec(old(self).tokens@, Category::AllowEmpty).0 is Some { Some(true) } else { None::<bool> }),
            final(self).tokens@ == take_spec(old(self).tokens@, Category::AllowEmpty).1,
    {
        self.take_flag(Category::AllowEmpty)
    }

    /// Takes the `ignore_errors` flag.
    pub fn take_ignore_errors(&mut self) -> (r: Option<bool>)
        ensures
            r == (if take_spec(old(self).tokens@, Category::IgnoreErrors).0 is Some { Some(true) } else { None::<bool> }),
            final(self).tokens@ == take_spec(old(self).tokens@, Category::IgnoreErrors).1,
    {
        self.take_flag(Category::IgnoreErrors)
    }

    /// Takes the description.
    pub fn take_description(&mut self) -> (r: Option<String>)
        ensures
            r == spec_description(take_spec(old(self).tokens@, Category::Description).0),
            final(self).tokens@ == take_spec(old(self).tokens@, Category::Description).1,
    {
        match self.take_one(Category::Description) {
            Some(ByToken::Description(d)) => Some(d),
            _ => None,
        }
    }

    /// Takes the wait policy.
    pub fn take_wait_options(&mut self) -> (r: Option<WaitOptions>)
        ensures
            r == spec_wait_options(take_spec(old(self).tokens@, Category::Wait).0),
            final(self).tokens@ == take_spec(old(self).tokens@, Category::Wait).1,
    {
        match self.take_one(Category::Wait) {
            Some(ByToken::Wait(w)) => Some(w),
            _ => None,
        }
    }

    /// Takes the custom function's name.
    pub fn take_custom(&mut self) -> (r: Option<String>)
        ensures
            r == spec_custom(take_spec(old(self).tokens@, Category::Custom).0),
            final(self).tokens@ == take_spec(old(self).tokens@, Category::Custom).1,
    {
        match self.take_one(Category::Custom) {
            Some(ByToken::CustomFn(f)) => Some(f),
            _ => None,
        }
    }

    /// Takes the one selector of the bag.
    pub fn take_quote(&mut self) -> (r: Selector)
        requires
            one_of_cat(old(self).tokens@, Category::Selector),
        ensures
            take_spec(old(self).tokens@, Category::Selector).0 == Some(ByToken::Selector(r)),
            final(self).tokens@ == take_spec(old(self).tokens@, Category::Selector).1,
    {
        proof {
            lemma_take_category(self.tokens@, Category::Selector);
        }
        match self.take_one(Category::Selector) {
            Some(ByToken::Selector(sel)) => sel,
            _ => {
                proof {
                    assert(false);
                }
                Selector { kind: crate::token::SelectorKind::Id, value: String::new() }
            },
        }
    }
}

/// Exactly one token is of category `c`.
pub open spec fn one_of_cat(s: Seq<ByToken>, c: Category) -> bool {
    has_cat(s, c) && !has_cat(take_spec(s, c).1, c)
}

/// Whether a second token of category `c` follows the first.
pub fn has_second(t: &ByTokens, c: Category) -> (r: bool)
    ensures
        r == (has_cat(t.tokens@, c) && has_cat(take_spec(t.tokens@, c).1, c)),
{
    let ghost s = t.tokens@;
    let mut first: Option<usize> = None;
    let mut i: usize = 0;
    while i < t.tokens.len()
        invariant
            s == t.tokens@,
            i <= s.len(),
            match first {
                None => forall|j: int| 0 <= j < i ==> (#[trigger] s[j]).spec_category() != c,
                Some(f) => f < i && s[f as int].spec_category() == c && (forall|j: int|
                    0 <= j < f ==> (#[trigger] s[j]).spec_category() != c) && (forall|j: int|
                    f < j < i ==> (#[trigger] s[j]).spec_category() != c),
            },
        decreases s.len() - i,
    {
        if t.tokens[i].get_unique_type() == c {
            match first {
                None => first = Some(i),
                Some(f) => {
                    proof {
                        lemma_take_at(s, c, f as int);
                        assert(s.remove(f as int)[i - 1] == s[i as int]);
                        assert(has_cat(s, c));
                    }
                    return true;
                },
            }
        }
        i = i + 1;
    }
    proof {
        lemma_take_category(s, c);
        if let Some(f) = first {
            lemma_take_at(s, c, f as int);
            let rest = s.remove(f as int);
            if has_cat(rest, c) {
                let k = choose|k: int| 0 <= k < rest.len() && (#[trigger] rest[k]).spec_category() == c;
                if k < f {
                    assert(rest[k] == s[k]);
                } else {
                    assert(rest[k] == s[k + 1]);
                }
            }
        }
    }
    false
}

/// The text of a description token.
pub open spec fn spec_description(t: Option<ByToken>) -> Option<String> {
    match t {
        Some(ByToken::Description(d)) => Some(d),
        _ => None,
    }
}

/// The policy of a wait token.
pub open spec fn spec_wait_options(t: Option<ByToken>) -> Option<WaitOptions> {
    match t {
        Some(ByToken::Wait(w)) => Some(w),
        _ => None,
    }
}

/// The function name of a custom token.
pub open spec fn spec_custom(t: Option<ByToken>) -> Option<String> {
    match t {
        Some(ByToken::CustomFn(f)) => Some(f),
        _ => None,
    }
}

proof fn lemma_parse_scan_err(start: Seq<ByToken>, args: Seq<ByArg>, k: int, n: int)
    requires
        0 <= k <= n,
        parse_scan(start, args, k) is Err,
    ensures
        parse_scan(start, args, n) == parse_scan(start, args, k),
    decreases n - k,
{
    if k < n {
        lemma_parse_scan_err(start, args, k, n - 1);
    }
}

/// What the parser accepts onto a valid bag always passes the validator.
pub proof fn lemma_parse_scan_valid(start: Seq<ByToken>, args: Seq<ByArg>, n: int)
    ensures
        parse_scan(start, args, n) is Ok && (n > 0 || spec_validate(start) is Ok) ==> {
            &&& spec_validate(parse_scan(start, args, n)->Ok_0) is Ok
            &&& unique_categories(parse_scan(start, args, n)->Ok_0)
            &&& no_conflicts(parse_scan(start, args, n)->Ok_0)
        },
{
    if parse_scan(start, args, n) is Ok {
        lemma_validate_ok(parse_scan(start, args, n)->Ok_0);
    }
}

pub proof fn lemma_take_at(s: Seq<ByToken>, c: Category, i: int)
    requires
        0 <= i < s.len(),
        s[i].spec_category() == c,
        forall|j: int| 0 <= j < i ==> (#[trigger] s[j]).spec_category() != c,
    ensures
        take_spec(s, c) == (Some(s[i]), s.remove(i)),
    decreases i,
{
    if i == 0 {
        assert(s.remove(0) =~= s.drop_first());
    } else {
        let tail = s.drop_first();
        assert forall|j: int| 0 <= j < i - 1 implies (#[trigger] tail[j]).spec_category() != c by {
            assert(tail[j] == s[j + 1]);
        }
        lemma_take_at(tail, c, i - 1);
        assert(seq![s[0]] + tail.remove(i - 1) =~= s.remove(i));
    }
}

proof fn lemma_take_none(s: Seq<ByToken>, c: Category)
    requires
        forall|j: int| 0 <= j < s.len() ==> (#[trigger] s[j]).spec_category() != c,
    ensures
        take_spec(s, c) == (None::<ByToken>, s),
    decreases s.len(),
{
    if s.len() > 0 {
        let tail = s.drop_first();
        assert forall|j: int| 0 <= j < tail.len() implies (#[trigger] tail[j]).spec_category() != c by {
            assert(tail[j] == s[j + 1]);
        }
        lemma_take_none(tail, c);
        assert(seq![s[0]] + tail =~= s);
    }
}

/// A token taken out of a sequence is of the category asked for, and it was
/// there to take exactly when the category occurs.
pub proof fn lemma_take_category(s: Seq<ByToken>, c: Category)
    ensures
        take_spec(s, c).0 is Some <==> has_cat(s, c),
        take_spec(s, c).0 is Some ==> take_spec(s, c).0->Some_0.spec_category() == c,
        take_spec(s, c).0 is None ==> take_spec(s, c).1 == s,
        take_spec(s, c).0 is Some ==> take_spec(s, c).1.len() + 1 == s.len(),
    decreases s.len(),
{
    if s.len() > 0 {
        let tail = s.drop_first();
        lemma_take_category(tail, c);
        if has_cat(tail, c) {
            let j = choose|j: int| 0 <= j < tail.len() && (#[trigger] tail[j]).spec_category() == c;
            assert(s[j + 1] == tail[j]);
        }
        if has_cat(s, c) && s[0].spec_category() != c {
            let j = choose|j: int| 0 <= j < s.len() && (#[trigger] s[j]).spec_category() == c;
            assert(tail[j - 1] == s[j]);
        }
        assert(seq![s[0]] + tail =~= s);
    }
}

proof fn lemma_first_dup_some(s: Seq<ByToken>, k: int, n: int)
    requires
        0 <= k <= n,
        first_dup(s, k) is Some,
    ensures
        first_dup(s, n) == first_dup(s, k),
    decreases n - k,
{
    if k < n {
        lemma_first_dup_some(s, k, n - 1);
    }
}

proof fn lemma_first_hit_some(d: Seq<Category>, present: Seq<Category>, k: int, n: int)
    requires
        0 <= k <= n,
        first_hit(d, present, k) is Some,
    ensures
        first_hit(d, present, n) == first_hit(d, present, k),
    decreases n - k,
{
    if k < n {
        lemma_first_hit_some(d, present, k, n - 1);
    }
}

proof fn lemma_first_conflict_some(s: Seq<ByToken>, k: int, n: int)
    requires
        0 <= k <= n,
        first_conflict(s, k) is Some,
    ensures
        first_conflict(s, n) == first_conflict(s, k),
    decreases n - k,
{
    if k < n {
        lemma_first_conflict_some(s, k, n - 1);
    }
}

} // verus!
