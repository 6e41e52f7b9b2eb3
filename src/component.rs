//! Compiles a whole component structure: finds its base field and the
//! initializer of each other field.
use vstd::prelude::*;
use crate::bag::{AttrError, ByTokens, spec_attr_onto};
use crate::emit::{ConstructionExpr, TypeTarget, compile_field, fix_type, is_call_target,
    spec_compile_field};
use crate::error::CompileError;
use crate::parse::path_is;
use crate::text::str_eq;
use crate::token::{ByAttr, ByToken, Path};

verus! {

/// The declared type of a field.
#[derive(Debug)]
pub enum FieldType {
    /// A type written as a path.
    Path(Path),
    /// Any other type (a reference, a tuple, ...).
    Other,
}

/// A named field of a component structure.
#[derive(Debug)]
pub struct FieldDecl {
    pub name: String,
    pub ty: FieldType,
    /// Carries the `#[base]` marker.
    pub base_marked: bool,
    /// Its `by` attributes, in order.
    pub by_attrs: Vec<ByAttr>,
}

/// How the constructor initializes a field other than the base.
#[derive(Debug)]
pub enum FieldInit {
    /// `let name = target::expr;`
    Resolver { name: String, target: Option<TypeTarget>, expr: ConstructionExpr },
    /// `name: Default::default()`
    Default { name: String },
}

/// The compiled component: its base field and its other fields' initializers.
#[derive(Debug)]
pub struct ComponentPlan {
    pub base: String,
    pub fields: Vec<FieldInit>,
}

/// What a field contributes: its name, and its type and expression where it
/// gets a resolver.
pub type FieldOutcome = (String, Option<(Path, ConstructionExpr)>);

/// Whether a field may be the base: it is named `base` or marked.
pub open spec fn is_base_candidate(f: FieldDecl) -> bool {
    f.base_marked || f.name@ == "base"@
}

/// An error in one field: the index of the `by` attribute and of the argument
/// in it where the error arose, where it arose at one, and the error.
pub type FieldError = (Option<usize>, Option<usize>, CompileError);

/// Reading the first `n` `by` attributes of a field into one bag: every
/// fragment is validated against all the tokens before it, and the first
/// error stops. `None` when the field has no `by` attribute.
pub open spec fn field_tokens(attrs: Seq<ByAttr>, n: int) -> Result<Option<Seq<ByToken>>, FieldError>
    decreases n,
{
    if n <= 0 {
        Ok(None)
    } else {
        match field_tokens(attrs, n - 1) {
            Err(e) => Err(e),
            Ok(prev) => {
                let start = match prev {
                    Some(s) => s,
                    None => Seq::<ByToken>::empty(),
                };
                match spec_attr_onto(start, attrs[n - 1]) {
                    Err((k, e)) => Err((Some((n - 1) as usize), k, e)),
                    Ok(s) => Ok(Some(s)),
                }
            },
        }
    }
}

/// What a field other than the base compiles to.
pub open spec fn spec_field(f: FieldDecl) -> Result<Option<(Path, ConstructionExpr)>, FieldError> {
    match field_tokens(f.by_attrs@, f.by_attrs@.len() as int) {
        Err(e) => Err(e),
        Ok(None) => Ok(None),
        Ok(Some(s)) => match f.ty {
            FieldType::Path(p) => match spec_compile_field(s, p) {
                Ok(x) => Ok(Some((p, x))),
                Err(e) => Err((None, None, e)),
            },
            FieldType::Other => Ok(None),
        },
    }
}

/// A compile error of a structure, with where it arose: the index of the
/// field (`None` for an error of the structure as a whole), of the `by`
/// attribute in that field and of the argument in that attribute (`None`
/// where the error is not one attribute's or one argument's).
#[derive(Debug, Clone, Copy)]
pub struct ComponentError {
    pub field: Option<usize>,
    pub attr: Option<usize>,
    pub arg: Option<usize>,
    pub error: CompileError,
}

pub open spec fn at_field(i: int, e: FieldError) -> ComponentError {
    ComponentError { field: Some(i as usize), attr: e.0, arg: e.1, error: e.2 }
}

pub open spec fn whole(e: CompileError) -> ComponentError {
    ComponentError { field: None, attr: None, arg: None, error: e }
}

/// The base so far and the outcomes of the first `n` fields. A field is taken
/// as the base when it is marked, or when it is named `base` and no base was
/// found before it; the base must be declared as a plain `WebElement`.
pub open spec fn field_scan(fields: Seq<FieldDecl>, n: int) -> Result<
    (Option<String>, Seq<FieldOutcome>),
    ComponentError,
>
    decreases n,
{
    if n <= 0 {
        Ok((None, seq![]))
    } else {
        match field_scan(fields, n - 1) {
            Err(e) => Err(e),
            Ok((base, outs)) => {
                let f = fields[n - 1];
                if (base is None && f.name@ == "base"@) || f.base_marked {
                    match f.ty {
                        FieldType::Path(p) => {
                            if path_is(p, "WebElement"@) {
                                Ok((Some(f.name), outs))
                            } else {
                                Err(at_field(n - 1, (None, None, CompileError::BaseNotWebElement)))
                            }
                        },
                        FieldType::Other => Err(at_field(n - 1, (None, None, CompileError::BaseNotWebElement))),
                    }
                } else {
                    match spec_field(f) {
                        Err(e) => Err(at_field(n - 1, e)),
                        Ok(o) => Ok((base, outs.push((f.name, o)))),
                    }
                }
            },
        }
    }
}

/// What a structure with these fields compiles to: its base field's name and
/// its other fields' outcomes. A structure without a base candidate is refused
/// before any field is looked at.
pub open spec fn spec_component(fields: Seq<FieldDecl>) -> Result<
    (String, Seq<FieldOutcome>),
    ComponentError,
> {
    if !(exists|i: int| 0 <= i < fields.len() && is_base_candidate(#[trigger] fields[i])) {
        Err(whole(CompileError::BaseMissing))
    } else {
        match field_scan(fields, fields.len() as int) {
            Err(e) => Err(e),
            Ok((Some(b), outs)) => Ok((b, outs)),
            Ok((None, _)) => Err(whole(CompileError::BaseMissing)),
        }
    }
}

/// Whether an initializer is the one for an outcome.
pub open spec fn init_matches(i: FieldInit, o: FieldOutcome) -> bool {
    match i {
        FieldInit::Default { name } => name == o.0 && o.1 is None,
        FieldInit::Resolver { name, target, expr } => name == o.0 && match o.1 {
            Some((p, x)) => expr == x && match target {
                Some(t) => is_call_target(p, t),
                None => p.segments@.len() == 0,
            },
            None => false,
        },
    }
}

/// Whether the initializers are those of the outcomes, in order.
pub open spec fn plan_matches(v: Seq<FieldInit>, outs: Seq<FieldOutcome>) -> bool {
    v.len() == outs.len() && forall|k: int| 0 <= k < v.len() ==> init_matches(#[trigger] v[k], outs[k])
}

proof fn lemma_field_tokens_err(attrs: Seq<ByAttr>, k: int, n: int)
    requires
        0 <= k <= n,
        field_tokens(attrs, k) is Err,
    ensures
        field_tokens(attrs, n) == field_tokens(attrs, k),
    decreases n - k,
{
    if k < n {
        lemma_field_tokens_err(attrs, k, n - 1);
    }
}

proof fn lemma_field_scan_err(fields: Seq<FieldDecl>, k: int, n: int)
    requires
        0 <= k <= n,
        field_scan(fields, k) is Err,
    ensures
        field_scan(fields, n) == field_scan(fields, k),
    decreases n - k,
{
    if k < n {
        lemma_field_scan_err(fields, k, n - 1);
    }
}

/// Parses a field's `by` attributes into one bag.
fn parse_by_attrs(attrs: &Vec<ByAttr>) -> (r: Result<Option<ByTokens>, FieldError>)
    ensures
        match r {
            Ok(Some(b)) => field_tokens(attrs@, attrs@.len() as int) == Ok::<
                Option<Seq<ByToken>>,
                FieldError,
            >(Some(b.tokens@)),
            Ok(None) => field_tokens(attrs@, attrs@.len() as int) == Ok::<
                Option<Seq<ByToken>>,
                FieldError,
            >(None),
            Err(e) => field_tokens(attrs@, attrs@.len() as int) == Err::<
                Option<Seq<ByToken>>,
                FieldError,
            >(e),
        },
{
    let mut by: Option<ByTokens> = None;
    let mut i: usize = 0;
    while i < attrs.len()
        invariant
            i <= attrs@.len(),
            match by {
                Some(b) => field_tokens(attrs@, i as int) == Ok::<Option<Seq<ByToken>>, FieldError>(
                    Some(b.tokens@),
                ),
                None => field_tokens(attrs@, i as int) == Ok::<Option<Seq<ByToken>>, FieldError>(
                    None,
                ),
            },
        decreases attrs@.len() - i,
    {
        let mut bag = match by {
            Some(b) => b,
            None => ByTokens { tokens: Vec::new() },
        };
        assert(bag.tokens@ =~= match field_tokens(attrs@, i as int)->Ok_0 {
            Some(s) => s,
            None => Seq::<ByToken>::empty(),
        });
        let step: Result<(), AttrError> = match &attrs[i] {
            ByAttr::List(args) => match bag.extend_from_args(args) {
                Ok(()) => Ok(()),
                Err((k, e)) => Err((Some(k), e)),
            },
            ByAttr::Malformed => Err((None, CompileError::MalformedByAttr)),
        };
        match step {
            Ok(()) => by = Some(bag),
            Err((k, e)) => {
                let err: FieldError = (Some(i), k, e);
                assert(field_tokens(attrs@, i + 1) == Err::<Option<Seq<ByToken>>, FieldError>(err));
                proof {
                    lemma_field_tokens_err(attrs@, i + 1, attrs@.len() as int);
                }
                return Err(err);
            },
        }
        i = i + 1;
    }
    Ok(by)
}

/// Compiles a field other than the base.
fn compile_other_field(f: FieldDecl) -> (r: Result<FieldInit, FieldError>)
    ensures
        match r {
            Ok(i) => spec_field(f) is Ok && init_matches(i, (f.name, spec_field(f)->Ok_0)),
            Err(e) => spec_field(f) == Err::<Option<(Path, ConstructionExpr)>, FieldError>(e),
        },
{
    let by = match parse_by_attrs(&f.by_attrs) {
        Ok(b) => b,
        Err(e) => {
            return Err(e);
        },
    };
    let FieldDecl { name, ty, .. } = f;
    match (ty, by) {
        (FieldType::Path(p), Some(tokens)) => match compile_field(tokens, &p) {
            Ok(expr) => {
                let target = fix_type(p);
                Ok(FieldInit::Resolver { name, target, expr })
            },
            Err(e) => Err((None, None, e)),
        },
        _ => Ok(FieldInit::Default { name }),
    }
}

/// Whether some field may be the base.
fn has_base_candidate(fields: &Vec<FieldDecl>) -> (r: bool)
    ensures
        r == exists|i: int| 0 <= i < fields@.len() && is_base_candidate(#[trigger] fields@[i]),
{
    let mut i: usize = 0;
    while i < fields.len()
        invariant
            i <= fields@.len(),
            forall|j: int| 0 <= j < i ==> !is_base_candidate(#[trigger] fields@[j]),
        decreases fields@.len() - i,
    {
        if fields[i].base_marked || str_eq(fields[i].name.as_str(), "base") {
            return true;
        }
        i = i + 1;
    }
    false
}

/// Compiles a component structure from its named fields, in declaration order.
pub fn compile_component(fields: Vec<FieldDecl>) -> (r: Result<ComponentPlan, ComponentError>)
    ensures
        match r {
            Ok(plan) => spec_component(fields@) is Ok && plan.base == spec_component(fields@)->Ok_0.0
                && plan_matches(plan.fields@, spec_component(fields@)->Ok_0.1),
            Err(e) => spec_component(fields@) == Err::<(String, Seq<FieldOutcome>), ComponentError>(e),
        },
{
    if !has_base_candidate(&fields) {
        return Err(ComponentError { field: None, attr: None, arg: None, error: CompileError::BaseMissing });
    }
    let ghost all = fields@;
    let n = fields.len();
    let mut rest = fields;
    let mut base: Option<String> = None;
    let mut inits: Vec<FieldInit> = Vec::new();
    let ghost mut outs: Seq<FieldOutcome> = seq![];
    let mut failed: Option<ComponentError> = None;
    let mut i: usize = 0;
    while i < n && failed.is_none()
        invariant
            n == all.len(),
            i <= n,
            rest@ == all.subrange(i as int, n as int),
            match failed {
                None => field_scan(all, i as int) == Ok::<
                    (Option<String>, Seq<FieldOutcome>),
                    ComponentError,
                >((base, outs)),
                Some(e) => field_scan(all, n as int) == Err::<
                    (Option<String>, Seq<FieldOutcome>),
                    ComponentError,
                >(e),
            },
            plan_matches(inits@, outs),
        decreases n - i,
    {
        let f = rest.remove(0);
        assert(f == all[i as int]);
        if (base.is_none() && str_eq(f.name.as_str(), "base")) || f.base_marked {
            let ok = match &f.ty {
                FieldType::Path(p) => p.is_ident("WebElement"),
                FieldType::Other => false,
            };
            if ok {
                base = Some(f.name);
            } else {
                let err = ComponentError {
                    field: Some(i),
                    attr: None,
                    arg: None,
                    error: CompileError::BaseNotWebElement,
                };
                assert(field_scan(all, i + 1) == Err::<(Option<String>, Seq<FieldOutcome>), ComponentError>(err));
                proof {
                    lemma_field_scan_err(all, i + 1, n as int);
                }
                failed = Some(err);
            }
        } else {
            let ghost fo = f;
            match compile_other_field(f) {
                Ok(init) => {
                    proof {
                        outs = outs.push((fo.name, spec_field(fo)->Ok_0));
                    }
                    inits.push(init);
                },
                Err(e) => {
                    let err = ComponentError { field: Some(i), attr: e.0, arg: e.1, error: e.2 };
                    assert(field_scan(all, i + 1) == Err::<(Option<String>, Seq<FieldOutcome>), ComponentError>(err));
                    proof {
                        lemma_field_scan_err(all, i + 1, n as int);
                    }
                    failed = Some(err);
                },
            }
        }
        assert(rest@ == all.subrange(i + 1, n as int));
        i = i + 1;
    }
    if let Some(e) = failed {
        return Err(e);
    }
    match base {
        Some(b) => Ok(ComponentPlan { base: b, fields: inits }),
        None => Err(ComponentError { field: None, attr: None, arg: None, error: CompileError::BaseMissing }),
    }
}

} // verus!
