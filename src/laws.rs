//! Laws of the attribute compiler, proved over the contracts' spec functions.
use vstd::prelude::*;
use crate::bag::{spec_description, spec_wait_options, cats, first_conflict, first_dup, first_hit, has_cat, lemma_take_at, lemma_take_category,
    spec_validate, take_spec, unique_categories};
use crate::component::{FieldDecl, is_base_candidate, spec_component};
use crate::emit::{ConstructionExpr, Constructor, QueryOptions, spec_compile_field};
use crate::error::CompileError;
use crate::parse::{path_is, spec_parse_u32, spec_token};
use crate::resolver::{MultiResolverArgs, SingleResolverArgs, spec_is_multi_resolver,
    spec_multi_args, spec_single_args};
use crate::token::{ByToken, Category, InnerArg, Lit, Meta, Path, Selector, WaitOptions};

verus! {

/// What is left after a take holds nothing new.
proof fn lemma_take_rest_subset(s: Seq<ByToken>, c: Category, x: ByToken)
    ensures
        take_spec(s, c).1.contains(x) ==> s.contains(x),
        take_spec(s, c).0 == Some(x) ==> s.contains(x),
        s.contains(x) && x.spec_category() != c ==> take_spec(s, c).1.contains(x),
    decreases s.len(),
{
    if s.len() > 0 {
        let tail = s.drop_first();
        lemma_take_rest_subset(tail, c, x);
        assert(s == seq![s[0]] + tail);
        if s[0].spec_category() != c {
            let rest = take_spec(tail, c).1;
            assert(take_spec(s, c).1 == seq![s[0]] + rest);
            if (seq![s[0]] + rest).contains(x) {
                let k = choose|k: int| 0 <= k < (seq![s[0]] + rest).len() && (seq![s[0]] + rest)[k] == x;
                if k > 0 {
                    assert(rest[k - 1] == x);
                    assert(tail.contains(x));
                    let m = choose|m: int| 0 <= m < tail.len() && tail[m] == x;
                    assert(s[m + 1] == x);
                }
            }
            if take_spec(s, c).0 == Some(x) {
                let m = choose|m: int| 0 <= m < tail.len() && tail[m] == x;
                assert(s[m + 1] == x);
            }
            if s.contains(x) && x.spec_category() != c && s[0] != x {
                let m = choose|m: int| 0 <= m < s.len() && s[m] == x;
                assert(tail[m - 1] == x);
                let k = choose|k: int| 0 <= k < rest.len() && rest[k] == x;
                assert((seq![s[0]] + rest)[k + 1] == x);
            }
            if s[0] == x {
                assert((seq![s[0]] + rest)[0] == x);
            }
        } else {
            if take_spec(s, c).1.contains(x) {
                let m = choose|m: int| 0 <= m < tail.len() && tail[m] == x;
                assert(s[m + 1] == x);
            }
            if s.contains(x) && x.spec_category() != c {
                let m = choose|m: int| 0 <= m < s.len() && s[m] == x;
                assert(m != 0);
                assert(tail[m - 1] == x);
            }
        }
    }
}

/// A category absent before a take is absent after it.
proof fn lemma_take_keeps_absent(s: Seq<ByToken>, c: Category, d: Category)
    requires
        !has_cat(s, d),
    ensures
        !has_cat(take_spec(s, c).1, d),
{
    let rest = take_spec(s, c).1;
    if has_cat(rest, d) {
        let k = choose|k: int| 0 <= k < rest.len() && (#[trigger] rest[k]).spec_category() == d;
        assert(rest.contains(rest[k]));
        lemma_take_rest_subset(s, c, rest[k]);
        let m = choose|m: int| 0 <= m < s.len() && s[m] == rest[k];
        assert(s[m].spec_category() == d);
    }
}

/// A category other than the one taken survives the take.
proof fn lemma_take_keeps_present(s: Seq<ByToken>, c: Category, d: Category)
    requires
        has_cat(s, d),
        c != d,
    ensures
        has_cat(take_spec(s, c).1, d),
{
    let m = choose|m: int| 0 <= m < s.len() && (#[trigger] s[m]).spec_category() == d;
    assert(s.contains(s[m]));
    lemma_take_rest_subset(s, c, s[m]);
    let rest = take_spec(s, c).1;
    let k = choose|k: int| 0 <= k < rest.len() && rest[k] == s[m];
    assert(rest[k].spec_category() == d);
}

/// Taking from a sequence with one more token at its end.
proof fn lemma_take_push(s: Seq<ByToken>, t: ByToken, c: Category)
    ensures
        has_cat(s, c) ==> take_spec(s.push(t), c) == (take_spec(s, c).0, take_spec(s, c).1.push(t)),
        !has_cat(s, c) && t.spec_category() == c ==> take_spec(s.push(t), c) == (Some(t), s),
        !has_cat(s, c) && t.spec_category() != c ==> take_spec(s.push(t), c) == (None::<ByToken>, s.push(t)),
    decreases s.len(),
{
    if s.len() == 0 {
        assert(s.push(t).drop_first() =~= s);
        if t.spec_category() != c {
            assert(take_spec(s.push(t).drop_first(), c) == (None::<ByToken>, s));
            assert(seq![t] + s =~= s.push(t));
        }
    } else {
        let tail = s.drop_first();
        lemma_take_push(tail, t, c);
        assert(s.push(t).drop_first() =~= tail.push(t));
        assert(s.push(t)[0] == s[0]);
        if s[0].spec_category() == c {
            assert(tail.push(t) =~= s.drop_first().push(t));
        } else {
            assert(has_cat(s, c) == has_cat(tail, c)) by {
                if has_cat(s, c) {
                    let m = choose|m: int| 0 <= m < s.len() && (#[trigger] s[m]).spec_category() == c;
                    assert(tail[m - 1] == s[m]);
                }
                if has_cat(tail, c) {
                    let m = choose|m: int| 0 <= m < tail.len() && (#[trigger] tail[m]).spec_category() == c;
                    assert(s[m + 1] == tail[m]);
                }
            }
            let rest = take_spec(tail, c).1;
            if has_cat(s, c) {
                assert(seq![s[0]] + rest.push(t) =~= (seq![s[0]] + rest).push(t));
            } else if t.spec_category() == c {
                lemma_take_category(tail, c);
                assert(rest == tail);
                assert(seq![s[0]] + tail =~= s);
            } else {
                assert(seq![s[0]] + tail.push(t) =~= s.push(t));
            }
        }
    }
}

/// The options of a call with no optional attribute set.
pub open spec fn plain_opts() -> QueryOptions {
    QueryOptions { ignore_errors: false, description: None, wait: None }
}

/// A lone selector on a field whose type does not ask for many elements
/// compiles to `new_single_opts` with every option unset.
pub proof fn law_single_selector(sel: Selector, ty: Path)
    requires
        !spec_is_multi_resolver(ty),
    ensures
        spec_compile_field(seq![ByToken::Selector(sel)], ty) == Ok::<ConstructionExpr, CompileError>(
            ConstructionExpr::ParameterizedCall {
                constructor: Constructor::NewSingleOpts,
                selector: sel,
                opts: plain_opts(),
            },
        ),
{
    let s = seq![ByToken::Selector(sel)];
    assert(s[0].spec_category() == Category::Selector);
    assert(s.drop_first() =~= seq![]);
    assert(!has_cat(s, Category::Multi));
    assert(take_spec(s.drop_first(), Category::Custom) == (None::<ByToken>, Seq::<ByToken>::empty()));
    assert(take_spec(s, Category::Custom) == (None::<ByToken>, s));
    assert(take_spec(s, Category::Selector) == (Some(ByToken::Selector(sel)), Seq::<ByToken>::empty()));
}

/// Adding `first` to attributes that compile to `new_single_opts` changes the
/// call to `new_first_opts` and nothing else.
pub proof fn law_first_modifier(s: Seq<ByToken>, ty: Path, sel: Selector, opts: QueryOptions)
    requires
        !has_cat(s, Category::First),
        spec_compile_field(s, ty) == Ok::<ConstructionExpr, CompileError>(
            ConstructionExpr::ParameterizedCall { constructor: Constructor::NewSingleOpts, selector: sel, opts },
        ),
    ensures
        spec_compile_field(s.push(ByToken::First), ty) == Ok::<ConstructionExpr, CompileError>(
            ConstructionExpr::ParameterizedCall { constructor: Constructor::NewFirstOpts, selector: sel, opts },
        ),
{
    let f = ByToken::First;
    let sp = s.push(f);
    lemma_take_push(s, f, Category::Multi);
    assert(!has_cat(s, Category::Multi)) by {
        if has_cat(s, Category::Multi) {
            lemma_multi_family_of(s, ty);
        }
    }
    assert(!has_cat(sp, Category::Multi)) by {
        if has_cat(sp, Category::Multi) {
            let m = choose|m: int| 0 <= m < sp.len() && (#[trigger] sp[m]).spec_category() == Category::Multi;
            assert(m < s.len());
            assert(s[m] == sp[m]);
        }
    }
    lemma_take_category(s, Category::Custom);
    lemma_take_push(s, f, Category::Custom);
    let s1 = take_spec(s, Category::Custom).1;
    assert(!has_cat(s, Category::Custom));
    assert(s1 == s);
    lemma_take_category(s1, Category::Selector);
    lemma_take_push(s1, f, Category::Selector);
    let s2 = take_spec(s1, Category::Selector).1;
    lemma_take_keeps_absent(s1, Category::Selector, Category::First);
    lemma_take_push(s2, f, Category::First);
    lemma_take_category(s2, Category::First);
}

/// Under a `multi` flag the resolver family is the multi-element one.
proof fn lemma_multi_family_of(s: Seq<ByToken>, ty: Path)
    requires
        has_cat(s, Category::Multi),
    ensures
        spec_compile_field(s, ty) is Ok ==> (spec_compile_field(s, ty)->Ok_0.spec_constructor()
            != Constructor::NewSingleOpts),
{
}

/// Adding `multi`, or declaring the field with a type that asks for many
/// elements, turns attributes that compile to `new_single_opts` into
/// `new_not_empty_opts` with the same selector and options.
pub proof fn law_multi_family(s: Seq<ByToken>, ty: Path, multi_ty: Path, sel: Selector, opts: QueryOptions)
    requires
        spec_compile_field(s, ty) == Ok::<ConstructionExpr, CompileError>(
            ConstructionExpr::ParameterizedCall { constructor: Constructor::NewSingleOpts, selector: sel, opts },
        ),
        spec_is_multi_resolver(multi_ty),
    ensures
        spec_compile_field(s.push(ByToken::Multi), ty) == Ok::<ConstructionExpr, CompileError>(
            ConstructionExpr::ParameterizedCall { constructor: Constructor::NewNotEmptyOpts, selector: sel, opts },
        ),
        spec_compile_field(s, multi_ty) == Ok::<ConstructionExpr, CompileError>(
            ConstructionExpr::ParameterizedCall { constructor: Constructor::NewNotEmptyOpts, selector: sel, opts },
        ),
{
    let m = ByToken::Multi;
    assert(!has_cat(s, Category::Multi)) by {
        if has_cat(s, Category::Multi) {
            lemma_multi_family_of(s, ty);
        }
    }
    assert(has_cat(s.push(m), Category::Multi)) by {
        assert(s.push(m)[s.len() as int] == m);
    }
    lemma_take_push(s, m, Category::Multi);
    lemma_take_category(s, Category::Multi);
    lemma_take_category(s, Category::Custom);
    let s1 = take_spec(s, Category::Custom).1;
    assert(s1 == s);
    lemma_take_category(s1, Category::Selector);
    let s2 = take_spec(s1, Category::Selector).1;
    lemma_take_category(s2, Category::First);
    let s3 = take_spec(s2, Category::First).1;
    assert(s3 == s2);
    let s4 = take_spec(s3, Category::IgnoreErrors).1;
    let s5 = take_spec(s4, Category::Description).1;
    let s6 = take_spec(s5, Category::Wait).1;
    assert(s6.len() == 0);
    assert(!has_cat(s2, Category::AllowEmpty)) by {
        if has_cat(s2, Category::AllowEmpty) {
            lemma_take_keeps_present(s3, Category::IgnoreErrors, Category::AllowEmpty);
            lemma_take_keeps_present(s4, Category::Description, Category::AllowEmpty);
            lemma_take_keeps_present(s5, Category::Wait, Category::AllowEmpty);
        }
    }
    lemma_take_category(s2, Category::AllowEmpty);
}

/// A custom function alone compiles to `new_custom` with that function.
pub proof fn law_custom_alone(f: String, ty: Path)
    ensures
        spec_compile_field(seq![ByToken::CustomFn(f)], ty) == Ok::<ConstructionExpr, CompileError>(
            ConstructionExpr::CustomCall(f),
        ),
{
    let s = seq![ByToken::CustomFn(f)];
    assert(s.drop_first() =~= seq![]);
    assert(take_spec(s.drop_first(), Category::Multi) == (None::<ByToken>, Seq::<ByToken>::empty()));
    assert(take_spec(s, Category::Multi) == (None::<ByToken>, s));
    assert(take_spec(s, Category::Custom) == (Some(ByToken::CustomFn(f)), Seq::<ByToken>::empty()));
}

/// A custom function beside a wait policy is refused: custom excludes wait.
pub proof fn law_custom_excludes_wait(f: String, w: WaitOptions)
    ensures
        spec_validate(seq![ByToken::CustomFn(f), ByToken::Wait(w)]) == Err::<(), CompileError>(
            CompileError::Conflict(Category::Custom, Category::Wait),
        ),
{
    let s = seq![ByToken::CustomFn(f), ByToken::Wait(w)];
    let c = cats(s);
    assert(c =~= seq![Category::Custom, Category::Wait]);
    assert(c.take(0) =~= seq![]);
    assert(c.take(1) =~= seq![Category::Custom]);
    assert(first_dup(s, 0) is None);
    assert(!c.take(0).contains(Category::Custom));
    assert(first_dup(s, 1) is None);
    assert(!c.take(1).contains(Category::Wait));
    assert(first_dup(s, 2) is None);
    let d = s[0].spec_disallowed();
    assert(!c.contains(Category::Multi));
    assert(!c.contains(Category::First));
    assert(!c.contains(Category::IgnoreErrors));
    assert(!c.contains(Category::Description));
    assert(c[1] == Category::Wait);
    assert(d =~= seq![
        Category::Multi,
        Category::First,
        Category::IgnoreErrors,
        Category::Description,
        Category::Wait,
        Category::AllowEmpty,
    ]);
    assert(first_hit(d, c, 0) is None);
    assert(first_hit(d, c, 1) is None);
    assert(first_hit(d, c, 2) is None);
    assert(first_hit(d, c, 3) is None);
    assert(first_hit(d, c, 4) is None);
    assert(first_hit(d, c, 5) == Some(Category::Wait));
    assert(first_hit(d, c, 6) == Some(Category::Wait));
    assert(d.len() == 6);
    assert(s[0].spec_category() == Category::Custom);
    assert(first_conflict(s, 0) is None);
    assert(first_conflict(s, 1) == Some((Category::Custom, Category::Wait)));
    assert(first_conflict(s, 2) == Some((Category::Custom, Category::Wait)));
}

/// First occurrences of duplicates and conflicts look at a prefix only.
proof fn lemma_first_dup_prefix(s: Seq<ByToken>, t: ByToken, k: int)
    requires
        0 <= k <= s.len(),
    ensures
        first_dup(s.push(t), k) == first_dup(s, k),
    decreases k,
{
    if k > 0 {
        lemma_first_dup_prefix(s, t, k - 1);
        assert(cats(s.push(t)).take(k - 1) =~= cats(s).take(k - 1));
        assert(s.push(t)[k - 1] == s[k - 1]);
    }
}

/// A token whose category is already present is refused as a duplicate of
/// that category, whatever came before it.
pub proof fn law_duplicate(s: Seq<ByToken>, t: ByToken)
    requires
        spec_validate(s) is Ok,
        has_cat(s, t.spec_category()),
    ensures
        spec_validate(s.push(t)) == Err::<(), CompileError>(CompileError::Duplicate(t.spec_category())),
{
    let n = s.len() as int;
    lemma_first_dup_prefix(s, t, n);
    assert(cats(s.push(t)).take(n) =~= cats(s));
    let m = choose|m: int| 0 <= m < s.len() && (#[trigger] s[m]).spec_category() == t.spec_category();
    assert(cats(s)[m] == t.spec_category());
    assert(s.push(t)[n] == t);
}

/// The category reported as a duplicate occurs twice.
proof fn lemma_first_dup_witness(s: Seq<ByToken>, n: int)
    requires
        0 <= n <= s.len(),
        first_dup(s, n) is Some,
    ensures
        exists|a: int, b: int|
            0 <= a < b < n && (#[trigger] s[a]).spec_category() == first_dup(s, n)->Some_0
                && (#[trigger] s[b]).spec_category() == first_dup(s, n)->Some_0,
    decreases n,
{
    if first_dup(s, n - 1) is Some {
        lemma_first_dup_witness(s, n - 1);
    } else {
        let pre = cats(s).take(n - 1);
        let a = choose|a: int| 0 <= a < pre.len() && pre[a] == s[n - 1].spec_category();
        assert(s[a].spec_category() == pre[a]);
        assert(s[a].spec_category() == s[n - 1].spec_category());
    }
}

/// Where one category is the only one that occurs more than once, the
/// validator refuses the tokens as duplicates of that category, in whatever
/// order they stand; in particular no bag with two selectors passes.
pub proof fn law_repeated_category(s: Seq<ByToken>, c: Category, i: int, j: int)
    requires
        0 <= i < j < s.len(),
        s[i].spec_category() == c,
        s[j].spec_category() == c,
        forall|a: int, b: int|
            0 <= a < b < s.len() && (#[trigger] s[a]).spec_category() == (#[trigger] s[b]).spec_category()
                ==> s[a].spec_category() == c,
    ensures
        spec_validate(s) == Err::<(), CompileError>(CompileError::Duplicate(c)),
{
    crate::bag::lemma_first_dup_none(s, s.len() as int);
    lemma_first_dup_witness(s, s.len() as int);
}

/// A custom function followed by any token of a category it excludes is
/// refused, naming the custom function first and the other category second.
pub proof fn law_custom_excludes(f: String, x: ByToken)
    requires
        ByToken::CustomFn(f).spec_disallowed().contains(x.spec_category()),
    ensures
        spec_validate(seq![ByToken::CustomFn(f), x]) == Err::<(), CompileError>(
            CompileError::Conflict(Category::Custom, x.spec_category()),
        ),
{
    let s = seq![ByToken::CustomFn(f), x];
    let c = cats(s);
    let d = s[0].spec_disallowed();
    assert(c =~= seq![Category::Custom, x.spec_category()]);
    assert(c.take(0) =~= seq![]);
    assert(c.take(1) =~= seq![Category::Custom]);
    assert(first_dup(s, 0) is None);
    assert(!c.take(0).contains(Category::Custom));
    assert(first_dup(s, 1) is None);
    assert(x.spec_category() != Category::Custom);
    assert(!c.take(1).contains(x.spec_category()));
    assert(first_dup(s, 2) is None);
    assert(d.len() == 6);
    assert(first_hit(d, c, 0) is None);
    assert forall|m: int| 0 <= m < d.len() implies (c.contains(#[trigger] d[m]) <==> d[m]
        == x.spec_category()) by {
        assert(d[m] != Category::Custom);
        if d[m] == x.spec_category() {
            assert(c[1] == d[m]);
        }
    }
    assert forall|k: int| 0 <= k <= 6 implies first_hit(d, c, k) == (if exists|m: int|
        0 <= m < k && d[m] == x.spec_category() {
        Some(x.spec_category())
    } else {
        None
    }) by {
        lemma_first_hit_only(d, c, x.spec_category(), k);
    }
    assert(first_conflict(s, 0) is None);
    assert(first_conflict(s, 1) == Some((Category::Custom, x.spec_category())));
    assert(first_conflict(s, 2) == Some((Category::Custom, x.spec_category())));
}

/// A token of a category that a custom function excludes, followed by the
/// custom function, is refused too: `multi` excludes nothing itself, so the
/// custom function names it; every other such token names the custom function.
pub proof fn law_excluded_before_custom(f: String, x: ByToken)
    requires
        ByToken::CustomFn(f).spec_disallowed().contains(x.spec_category()),
    ensures
        spec_validate(seq![x, ByToken::CustomFn(f)]) == Err::<(), CompileError>(
            if x.spec_category() == Category::Multi {
                CompileError::Conflict(Category::Custom, Category::Multi)
            } else {
                CompileError::Conflict(x.spec_category(), Category::Custom)
            },
        ),
{
    let s = seq![x, ByToken::CustomFn(f)];
    let c = cats(s);
    assert(c =~= seq![x.spec_category(), Category::Custom]);
    assert(c.take(0) =~= seq![]);
    assert(c.take(1) =~= seq![x.spec_category()]);
    assert(first_dup(s, 0) is None);
    assert(!c.take(0).contains(x.spec_category()));
    assert(first_dup(s, 1) is None);
    assert(x.spec_category() != Category::Custom);
    assert(!c.take(1).contains(Category::Custom));
    assert(first_dup(s, 2) is None);
    assert(first_conflict(s, 0) is None);
    let dx = s[0].spec_disallowed();
    let dc = s[1].spec_disallowed();
    if x.spec_category() == Category::Multi {
        assert(dx.len() == 0);
        assert(first_conflict(s, 1) is None);
        assert forall|m: int| 0 <= m < dc.len() implies (c.contains(#[trigger] dc[m]) <==> dc[m]
            == Category::Multi) by {
            assert(dc[m] != Category::Custom);
            if dc[m] == Category::Multi {
                assert(c[0] == dc[m]);
            }
        }
        lemma_first_hit_only(dc, c, Category::Multi, dc.len() as int);
        assert(dc[0] == Category::Multi);
        assert(first_conflict(s, 2) == Some((Category::Custom, Category::Multi)));
    } else {
        assert forall|m: int| 0 <= m < dx.len() implies (c.contains(#[trigger] dx[m]) <==> dx[m]
            == Category::Custom) by {
            if dx[m] == Category::Custom {
                assert(c[1] == dx[m]);
            } else {
                assert(dx[m] == Category::Multi);
                assert(!c.contains(Category::Multi));
            }
        }
        lemma_first_hit_only(dx, c, Category::Custom, dx.len() as int);
        assert(exists|m: int| 0 <= m < dx.len() && dx[m] == Category::Custom) by {
            assert(dx[dx.len() - 1] == Category::Custom);
        }
        assert(first_conflict(s, 1) == Some((x.spec_category(), Category::Custom)));
        assert(first_conflict(s, 2) == Some((x.spec_category(), Category::Custom)));
    }
}

/// The first hit among exclusions of which only `y` is present.
proof fn lemma_first_hit_only(d: Seq<Category>, c: Seq<Category>, y: Category, k: int)
    requires
        0 <= k <= d.len(),
        forall|m: int| 0 <= m < d.len() ==> (c.contains(#[trigger] d[m]) <==> d[m] == y),
    ensures
        first_hit(d, c, k) == (if exists|m: int| 0 <= m < k && d[m] == y {
            Some(y)
        } else {
            None
        }),
    decreases k,
{
    if k > 0 {
        lemma_first_hit_only(d, c, y, k - 1);
        if exists|m: int| 0 <= m < k - 1 && d[m] == y {
            let m = choose|m: int| 0 <= m < k - 1 && d[m] == y;
            assert(0 <= m < k && d[m] == y);
        }
    }
}

/// On tokens with unique categories, a take removes exactly the token of its
/// category and keeps every other.
proof fn lemma_take_unique(s: Seq<ByToken>, c: Category)
    requires
        unique_categories(s),
    ensures
        forall|y: ByToken| #[trigger] take_spec(s, c).1.contains(y) <==> (s.contains(y) && y.spec_category() != c),
        forall|d: Category| #[trigger] has_cat(take_spec(s, c).1, d) <==> (has_cat(s, d) && d != c),
        unique_categories(take_spec(s, c).1),
        forall|y: ByToken| s.contains(y) && y.spec_category() == c ==> take_spec(s, c).0 == Some(y),
        take_spec(s, c).0 is Some <==> has_cat(s, c),
{
    lemma_take_category(s, c);
    if has_cat(s, c) {
        let i = choose|i: int| 0 <= i < s.len() && (#[trigger] s[i]).spec_category() == c && forall|j: int|
            0 <= j < i ==> (#[trigger] s[j]).spec_category() != c;
        lemma_take_at(s, c, i);
        let rest = s.remove(i);
        assert forall|k: int| 0 <= k < rest.len() implies (#[trigger] rest[k]) == (if k < i {
            s[k]
        } else {
            s[k + 1]
        }) by {}
        assert forall|y: ByToken| #[trigger] rest.contains(y) <==> (s.contains(y) && y.spec_category() != c) by {
            if rest.contains(y) {
                let k = choose|k: int| 0 <= k < rest.len() && rest[k] == y;
                if k < i {
                    assert(s[k] == y);
                } else {
                    assert(s[k + 1] == y);
                }
            }
            if s.contains(y) && y.spec_category() != c {
                let m = choose|m: int| 0 <= m < s.len() && s[m] == y;
                if m < i {
                    assert(rest[m] == y);
                } else {
                    assert(m != i);
                    assert(rest[m - 1] == y);
                }
            }
        }
        assert forall|d: Category| #[trigger] has_cat(rest, d) <==> (has_cat(s, d) && d != c) by {
            if has_cat(rest, d) {
                let k = choose|k: int| 0 <= k < rest.len() && (#[trigger] rest[k]).spec_category() == d;
                assert(rest.contains(rest[k]));
                let m = choose|m: int| 0 <= m < s.len() && s[m] == rest[k];
                assert(s[m].spec_category() == d);
            }
            if has_cat(s, d) && d != c {
                let m = choose|m: int| 0 <= m < s.len() && (#[trigger] s[m]).spec_category() == d;
                assert(s.contains(s[m]));
                assert(rest.contains(s[m]));
                let k = choose|k: int| 0 <= k < rest.len() && rest[k] == s[m];
                assert(rest[k].spec_category() == d);
            }
        }
        assert forall|a: int, b: int| 0 <= a < b < rest.len() implies (#[trigger] rest[a]).spec_category()
            != (#[trigger] rest[b]).spec_category() by {
            let a2 = if a < i { a } else { a + 1 };
            let b2 = if b < i { b } else { b + 1 };
            assert(rest[a] == s[a2]);
            assert(rest[b] == s[b2]);
        }
        assert forall|y: ByToken| s.contains(y) && y.spec_category() == c implies take_spec(s, c).0 == Some(y) by {
            let m = choose|m: int| 0 <= m < s.len() && s[m] == y;
            if m < i {
                assert(s[m].spec_category() != s[i].spec_category());
            } else if m > i {
                assert(s[i].spec_category() != s[m].spec_category());
            }
        }
    } else {
        assert forall|y: ByToken| s.contains(y) implies y.spec_category() != c by {
            let m = choose|m: int| 0 <= m < s.len() && s[m] == y;
        }
    }
}

/// `Some(true)` when a token of category `c` is present.
pub open spec fn flag_of_cat(s: Seq<ByToken>, c: Category) -> Option<bool> {
    if has_cat(s, c) {
        Some(true)
    } else {
        None
    }
}

/// Whether an optional value is the one the tokens give for a category.
pub open spec fn given_by(s: Seq<ByToken>, c: Category, present: bool, t: ByToken) -> bool {
    if present {
        s.contains(t)
    } else {
        !has_cat(s, c)
    }
}

/// A sequence in which no category occurs is empty.
proof fn lemma_rest_empty(s: Seq<ByToken>)
    requires
        forall|d: Category| !(#[trigger] has_cat(s, d)),
    ensures
        s.len() == 0,
{
    if s.len() > 0 {
        assert(has_cat(s, s[0].spec_category()));
    }
}

/// On tokens with unique categories and without a custom function, the
/// single-element arguments are those the tokens describe, in whatever
/// order they stand: each flag is `Some(true)` exactly when its token is
/// present, and the description and wait policy are the tokens' own.
pub proof fn law_single_args(
    s: Seq<ByToken>,
    sel: Selector,
    d: Option<String>,
    w: Option<WaitOptions>,
)
    requires
        unique_categories(s),
        s.contains(ByToken::Selector(sel)),
        !has_cat(s, Category::Custom),
        !has_cat(s, Category::Multi),
        !has_cat(s, Category::AllowEmpty),
        given_by(s, Category::Description, d is Some, ByToken::Description(d->Some_0)),
        given_by(s, Category::Wait, w is Some, ByToken::Wait(w->Some_0)),
    ensures
        spec_single_args(s) == Ok::<SingleResolverArgs, CompileError>(
            SingleResolverArgs::Opts {
                by: sel,
                first: flag_of_cat(s, Category::First),
                ignore_errors: flag_of_cat(s, Category::IgnoreErrors),
                description: d,
                wait: w,
            },
        ),
{
    lemma_take_unique(s, Category::Custom);
    let s1 = take_spec(s, Category::Custom).1;
    lemma_take_unique(s1, Category::Selector);
    let s2 = take_spec(s1, Category::Selector).1;
    lemma_take_unique(s2, Category::First);
    let s3 = take_spec(s2, Category::First).1;
    lemma_take_unique(s3, Category::IgnoreErrors);
    let s4 = take_spec(s3, Category::IgnoreErrors).1;
    lemma_take_unique(s4, Category::Description);
    let s5 = take_spec(s4, Category::Description).1;
    lemma_take_unique(s5, Category::Wait);
    let s6 = take_spec(s5, Category::Wait).1;
    assert(s1.contains(ByToken::Selector(sel)));
    lemma_rest_empty(s6);
    if d is Some {
        assert(s4.contains(ByToken::Description(d->Some_0)));
    }
    if w is Some {
        assert(s5.contains(ByToken::Wait(w->Some_0)));
    }
    assert(spec_description(take_spec(s4, Category::Description).0) == d);
    assert(spec_wait_options(take_spec(s5, Category::Wait).0) == w);
}

/// On tokens with unique categories, a field in single mode without a custom
/// function compiles to the call its tokens describe, in whatever order they
/// stand: `new_first_opts` exactly when `first` is present, each option set
/// exactly when its token is present.
pub proof fn law_single_opts(
    s: Seq<ByToken>,
    ty: Path,
    sel: Selector,
    d: Option<String>,
    w: Option<WaitOptions>,
)
    requires
        unique_categories(s),
        s.contains(ByToken::Selector(sel)),
        !has_cat(s, Category::Custom),
        !has_cat(s, Category::Multi),
        !has_cat(s, Category::AllowEmpty),
        !spec_is_multi_resolver(ty),
        given_by(s, Category::Description, d is Some, ByToken::Description(d->Some_0)),
        given_by(s, Category::Wait, w is Some, ByToken::Wait(w->Some_0)),
    ensures
        spec_compile_field(s, ty) == Ok::<ConstructionExpr, CompileError>(
            ConstructionExpr::ParameterizedCall {
                constructor: if has_cat(s, Category::First) {
                    Constructor::NewFirstOpts
                } else {
                    Constructor::NewSingleOpts
                },
                selector: sel,
                opts: QueryOptions {
                    ignore_errors: has_cat(s, Category::IgnoreErrors),
                    description: d,
                    wait: w,
                },
            },
        ),
{
    law_single_args(s, sel, d, w);
}

/// On tokens with unique categories and without a custom function, the
/// multi-element arguments are those the tokens describe, in whatever
/// order they stand: each flag is `Some(true)` exactly when its token is
/// present, and the description and wait policy are the tokens' own.
pub proof fn law_multi_args(
    s: Seq<ByToken>,
    sel: Selector,
    d: Option<String>,
    w: Option<WaitOptions>,
)
    requires
        unique_categories(s),
        s.contains(ByToken::Selector(sel)),
        !has_cat(s, Category::Custom),
        !has_cat(s, Category::First),
        given_by(s, Category::Description, d is Some, ByToken::Description(d->Some_0)),
        given_by(s, Category::Wait, w is Some, ByToken::Wait(w->Some_0)),
    ensures
        spec_multi_args(s) == Ok::<MultiResolverArgs, CompileError>(
            MultiResolverArgs::Opts {
                by: sel,
                allow_empty: flag_of_cat(s, Category::AllowEmpty),
                ignore_errors: flag_of_cat(s, Category::IgnoreErrors),
                description: d,
                wait: w,
            },
        ),
{
    lemma_take_unique(s, Category::Multi);
    let s0 = take_spec(s, Category::Multi).1;
    lemma_take_unique(s0, Category::Custom);
    let s1 = take_spec(s0, Category::Custom).1;
    lemma_take_unique(s1, Category::Selector);
    let s2 = take_spec(s1, Category::Selector).1;
    lemma_take_unique(s2, Category::AllowEmpty);
    let s3 = take_spec(s2, Category::AllowEmpty).1;
    lemma_take_unique(s3, Category::IgnoreErrors);
    let s4 = take_spec(s3, Category::IgnoreErrors).1;
    lemma_take_unique(s4, Category::Description);
    let s5 = take_spec(s4, Category::Description).1;
    lemma_take_unique(s5, Category::Wait);
    let s6 = take_spec(s5, Category::Wait).1;
    assert(s1.contains(ByToken::Selector(sel)));
    lemma_rest_empty(s6);
    if d is Some {
        assert(s4.contains(ByToken::Description(d->Some_0)));
    }
    if w is Some {
        assert(s5.contains(ByToken::Wait(w->Some_0)));
    }
    assert(spec_description(take_spec(s4, Category::Description).0) == d);
    assert(spec_wait_options(take_spec(s5, Category::Wait).0) == w);
}

/// On tokens with unique categories, a field in multi mode without a custom
/// function compiles to the call its tokens describe, in whatever order they
/// stand: the `multi` flag is consumed, `new_allow_empty_opts` comes exactly
/// when `allow_empty` is present, each option exactly when its token is.
pub proof fn law_multi_opts(
    s: Seq<ByToken>,
    ty: Path,
    sel: Selector,
    d: Option<String>,
    w: Option<WaitOptions>,
)
    requires
        unique_categories(s),
        s.contains(ByToken::Selector(sel)),
        !has_cat(s, Category::Custom),
        !has_cat(s, Category::First),
        has_cat(s, Category::Multi) || spec_is_multi_resolver(ty),
        given_by(s, Category::Description, d is Some, ByToken::Description(d->Some_0)),
        given_by(s, Category::Wait, w is Some, ByToken::Wait(w->Some_0)),
    ensures
        spec_compile_field(s, ty) == Ok::<ConstructionExpr, CompileError>(
            ConstructionExpr::ParameterizedCall {
                constructor: if has_cat(s, Category::AllowEmpty) {
                    Constructor::NewAllowEmptyOpts
                } else {
                    Constructor::NewNotEmptyOpts
                },
                selector: sel,
                opts: QueryOptions {
                    ignore_errors: has_cat(s, Category::IgnoreErrors),
                    description: d,
                    wait: w,
                },
            },
        ),
{
    law_multi_args(s, sel, d, w);
}

/// A `wait(timeout_ms = a, interval_ms = b)` attribute yields a wait policy
/// that carries the two numbers as written.
pub proof fn law_wait_parse(wait: Path, k1: Path, k2: Path, d1: String, d2: String)
    requires
        path_is(wait, "wait"@),
        path_is(k1, "timeout_ms"@),
        path_is(k2, "interval_ms"@),
        spec_parse_u32(d1@) is Some,
        spec_parse_u32(d2@) is Some,
    ensures
        forall|args: Vec<InnerArg>|
            args@ == seq![InnerArg::NameValue(k1, Lit::Int(d1)), InnerArg::NameValue(k2, Lit::Int(d2))]
                ==> spec_token(Meta::List(wait, args)) == Ok::<ByToken, CompileError>(
                ByToken::Wait(
                    WaitOptions {
                        timeout_ms: spec_parse_u32(d1@)->Some_0,
                        interval_ms: spec_parse_u32(d2@)->Some_0,
                    },
                ),
            ),
{
    reveal_strlit("timeout_ms");
    reveal_strlit("interval_ms");
    reveal_strlit("wait");
    assert("timeout_ms"@ != "interval_ms"@) by {
        assert("timeout_ms"@[0] != "interval_ms"@[0]);
    }
    assert forall|args: Vec<InnerArg>|
        args@ == seq![InnerArg::NameValue(k1, Lit::Int(d1)), InnerArg::NameValue(k2, Lit::Int(d2))]
        implies spec_token(Meta::List(wait, args)) == Ok::<ByToken, CompileError>(
            ByToken::Wait(
                WaitOptions {
                    timeout_ms: spec_parse_u32(d1@)->Some_0,
                    interval_ms: spec_parse_u32(d2@)->Some_0,
                },
            ),
        ) by {
        let a = args@;
        assert(!path_is(k2, "timeout_ms"@));
        assert(crate::parse::wait_scan(a, 0) == Ok::<crate::parse::WaitAcc, CompileError>((None, None)));
        assert(crate::parse::wait_scan(a, 1) == Ok::<crate::parse::WaitAcc, CompileError>(
            (spec_parse_u32(d1@), None),
        ));
        assert(crate::parse::wait_scan(a, 2) == Ok::<crate::parse::WaitAcc, CompileError>(
            (spec_parse_u32(d1@), spec_parse_u32(d2@)),
        ));
    }
}

/// The wait policy of the tokens reaches the emitted options unchanged.
pub proof fn law_wait_forwarded(s: Seq<ByToken>, ty: Path, w: WaitOptions)
    requires
        s.contains(ByToken::Wait(w)),
        unique_categories(s),
        spec_compile_field(s, ty) is Ok,
        spec_compile_field(s, ty)->Ok_0 is ParameterizedCall,
    ensures
        spec_compile_field(s, ty)->Ok_0->ParameterizedCall_opts.wait == Some(w),
{
    let x = ByToken::Wait(w);
    let t0 = take_spec(s, Category::Multi).1;
    lemma_take_rest_subset(s, Category::Multi, x);
    let t1 = take_spec(t0, Category::Custom).1;
    lemma_take_rest_subset(t0, Category::Custom, x);
    let t2 = take_spec(t1, Category::Selector).1;
    lemma_take_rest_subset(t1, Category::Selector, x);
    let f3 = take_spec(t2, Category::First).1;
    lemma_take_rest_subset(t2, Category::First, x);
    let a3 = take_spec(t2, Category::AllowEmpty).1;
    lemma_take_rest_subset(t2, Category::AllowEmpty, x);
    let f4 = take_spec(f3, Category::IgnoreErrors).1;
    lemma_take_rest_subset(f3, Category::IgnoreErrors, x);
    let a4 = take_spec(a3, Category::IgnoreErrors).1;
    lemma_take_rest_subset(a3, Category::IgnoreErrors, x);
    let f5 = take_spec(f4, Category::Description).1;
    lemma_take_rest_subset(f4, Category::Description, x);
    let a5 = take_spec(a4, Category::Description).1;
    lemma_take_rest_subset(a4, Category::Description, x);
    let s1 = take_spec(s, Category::Custom).1;
    lemma_take_rest_subset(s, Category::Custom, x);
    let g2 = take_spec(s1, Category::Selector).1;
    lemma_take_rest_subset(s1, Category::Selector, x);
    let g3 = take_spec(g2, Category::First).1;
    lemma_take_rest_subset(g2, Category::First, x);
    let g4 = take_spec(g3, Category::IgnoreErrors).1;
    lemma_take_rest_subset(g3, Category::IgnoreErrors, x);
    let g5 = take_spec(g4, Category::Description).1;
    lemma_take_rest_subset(g4, Category::Description, x);
    assert forall|q: Seq<ByToken>|
        (forall|y: ByToken| q.contains(y) ==> s.contains(y)) && q.contains(x) implies take_spec(
            q,
            Category::Wait,
        ).0 == Some(x) by {
        lemma_take_category(q, Category::Wait);
        let y = take_spec(q, Category::Wait).0->Some_0;
        lemma_take_rest_subset(q, Category::Wait, y);
        assert(has_cat(q, Category::Wait)) by {
            let k = choose|k: int| 0 <= k < q.len() && q[k] == x;
            assert(q[k].spec_category() == Category::Wait);
        }
        let i = choose|i: int| 0 <= i < s.len() && s[i] == x;
        let j = choose|j: int| 0 <= j < s.len() && s[j] == y;
        if i != j {
            if i < j {
                assert(s[i].spec_category() != s[j].spec_category());
            } else {
                assert(s[j].spec_category() != s[i].spec_category());
            }
        }
    }
    assert forall|y: ByToken| f5.contains(y) implies s.contains(y) by {
        lemma_take_rest_subset(f4, Category::Description, y);
        lemma_take_rest_subset(f3, Category::IgnoreErrors, y);
        lemma_take_rest_subset(t2, Category::First, y);
        lemma_take_rest_subset(t1, Category::Selector, y);
        lemma_take_rest_subset(t0, Category::Custom, y);
        lemma_take_rest_subset(s, Category::Multi, y);
    }
    assert forall|y: ByToken| a5.contains(y) implies s.contains(y) by {
        lemma_take_rest_subset(a4, Category::Description, y);
        lemma_take_rest_subset(a3, Category::IgnoreErrors, y);
        lemma_take_rest_subset(t2, Category::AllowEmpty, y);
        lemma_take_rest_subset(t1, Category::Selector, y);
        lemma_take_rest_subset(t0, Category::Custom, y);
        lemma_take_rest_subset(s, Category::Multi, y);
    }
    assert forall|y: ByToken| g5.contains(y) implies s.contains(y) by {
        lemma_take_rest_subset(g4, Category::Description, y);
        lemma_take_rest_subset(g3, Category::IgnoreErrors, y);
        lemma_take_rest_subset(g2, Category::First, y);
        lemma_take_rest_subset(s1, Category::Selector, y);
        lemma_take_rest_subset(s, Category::Custom, y);
    }
}

/// A lone selector on a field of the multi-element alias type compiles to
/// `new_not_empty_opts`, with no `multi` flag needed.
pub proof fn law_multi_alias(sel: Selector, ty: Path)
    requires
        path_is(ty, "ElementResolverMulti"@),
    ensures
        spec_compile_field(seq![ByToken::Selector(sel)], ty) == Ok::<ConstructionExpr, CompileError>(
            ConstructionExpr::ParameterizedCall {
                constructor: Constructor::NewNotEmptyOpts,
                selector: sel,
                opts: plain_opts(),
            },
        ),
{
    let s = seq![ByToken::Selector(sel)];
    assert(s.drop_first() =~= seq![]);
    assert(take_spec(s.drop_first(), Category::Multi) == (None::<ByToken>, Seq::<ByToken>::empty()));
    assert(take_spec(s, Category::Multi) == (None::<ByToken>, s));
    assert(take_spec(s.drop_first(), Category::Custom) == (None::<ByToken>, Seq::<ByToken>::empty()));
    assert(take_spec(s, Category::Custom) == (None::<ByToken>, s));
    assert(take_spec(s, Category::Selector) == (Some(ByToken::Selector(sel)), Seq::<ByToken>::empty()));
}

/// A structure with no field named or marked as the base is refused for that
/// reason, whatever its fields' attributes hold.
pub proof fn law_base_missing(fields: Seq<FieldDecl>)
    requires
        forall|i: int| 0 <= i < fields.len() ==> !is_base_candidate(#[trigger] fields[i]),
    ensures
        spec_component(fields) == Err::<
            (String, Seq<crate::component::FieldOutcome>),
            crate::component::ComponentError,
        >(crate::component::whole(CompileError::BaseMissing)),
{
}

} // verus!
