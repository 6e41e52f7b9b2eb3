use component_attrs::bag::ByTokens;
use component_attrs::component::{compile_component, FieldDecl, FieldInit, FieldType};
use component_attrs::emit::{compile_field, fix_type, ConstructionExpr, Constructor};
use component_attrs::error::CompileError;
use component_attrs::resolver::{
    is_multi_resolver, resolution_mode, MultiResolverArgs, ResolutionMode, SingleResolverArgs,
};
use component_attrs::text::{parse_u32, str_eq};
use component_attrs::token::{
    ByArg, ByAttr, ByToken, Category, GenericArg, InnerArg, Lit, Meta, Path, PathSegment,
    SegmentArgs, Selector, SelectorKind, WaitOptions,
};

fn seg(ident: &str) -> PathSegment {
    PathSegment { ident: ident.to_string(), args: SegmentArgs::Empty }
}

fn ident(name: &str) -> Path {
    Path { leading_colon: false, segments: vec![seg(name)] }
}

fn flag(name: &str) -> ByArg {
    ByArg::Meta(Meta::Path(ident(name)))
}

fn kv(name: &str, value: &str) -> ByArg {
    ByArg::Meta(Meta::NameValue(ident(name), Lit::Str(value.to_string())))
}

fn wait_arg(timeout: &str, interval: &str) -> ByArg {
    ByArg::Meta(Meta::List(
        ident("wait"),
        vec![
            InnerArg::NameValue(ident("timeout_ms"), Lit::Int(timeout.to_string())),
            InnerArg::NameValue(ident("interval_ms"), Lit::Int(interval.to_string())),
        ],
    ))
}

fn generic(name: &str, arg: Vec<&str>) -> Path {
    Path {
        leading_colon: false,
        segments: vec![PathSegment {
            ident: name.to_string(),
            args: SegmentArgs::AngleBracketed(vec![GenericArg::TypePath(
                arg.iter().map(|s| s.to_string()).collect(),
            )]),
        }],
    }
}

fn single_ty() -> Path {
    generic("ElementResolver", vec!["WebElement"])
}

fn compile(args: Vec<ByArg>, ty: &Path) -> Result<ConstructionExpr, CompileError> {
    let tokens = ByTokens::from_attr(&ByAttr::List(args)).map_err(|e| e.1)?;
    compile_field(tokens, ty)
}

fn opts_call(r: Result<ConstructionExpr, CompileError>) -> (Constructor, SelectorKind, String, bool, Option<String>, Option<WaitOptions>) {
    match r {
        Ok(ConstructionExpr::ParameterizedCall { constructor, selector, opts }) => (
            constructor,
            selector.kind,
            selector.value,
            opts.ignore_errors,
            opts.description,
            opts.wait,
        ),
        other => panic!("expected a parameterized call, got {:?}", other),
    }
}

#[test]
fn single_selector_gives_single_opts() {
    let (c, kind, value, ignore, desc, wait) = opts_call(compile(vec![kv("css", "div.a")], &single_ty()));
    assert_eq!(c, Constructor::NewSingleOpts);
    assert_eq!(kind, SelectorKind::Css);
    assert_eq!(value, "div.a");
    assert!(!ignore);
    assert_eq!(desc, None);
    assert_eq!(wait, None);
    assert_eq!(c.name(), "new_single_opts");
}

#[test]
fn each_selector_key_maps_to_its_kind() {
    let cases = [
        ("id", SelectorKind::Id),
        ("tag", SelectorKind::Tag),
        ("link", SelectorKind::LinkText),
        ("css", SelectorKind::Css),
        ("xpath", SelectorKind::XPath),
        ("name", SelectorKind::Name),
    ];
    for (key, kind) in cases {
        let (_, k, v, _, _, _) = opts_call(compile(vec![kv(key, "q")], &single_ty()));
        assert_eq!(k, kind);
        assert_eq!(v, "q");
    }
}

#[test]
fn first_gives_first_opts() {
    let (c, kind, value, ignore, desc, wait) =
        opts_call(compile(vec![kv("id", "x"), flag("first")], &single_ty()));
    assert_eq!(c, Constructor::NewFirstOpts);
    assert_eq!(c.name(), "new_first_opts");
    assert_eq!((kind, value.as_str(), ignore, desc, wait), (SelectorKind::Id, "x", false, None, None));
}

#[test]
fn multi_flag_gives_not_empty_opts() {
    let (c, kind, value, _, _, _) = opts_call(compile(vec![kv("id", "x"), flag("multi")], &single_ty()));
    assert_eq!(c, Constructor::NewNotEmptyOpts);
    assert_eq!(c.name(), "new_not_empty_opts");
    assert_eq!((kind, value.as_str()), (SelectorKind::Id, "x"));
}

#[test]
fn allow_empty_gives_allow_empty_opts() {
    let (c, _, _, _, _, _) =
        opts_call(compile(vec![flag("multi"), kv("id", "x"), flag("allow_empty")], &single_ty()));
    assert_eq!(c, Constructor::NewAllowEmptyOpts);
    assert_eq!(c.name(), "new_allow_empty_opts");
}

#[test]
fn vec_wrapped_type_is_multi() {
    for spelling in [vec!["Vec"], vec!["vec", "Vec"], vec!["std", "vec", "Vec"], vec!["alloc", "vec", "Vec"]] {
        let ty = generic("ElementResolver", spelling);
        assert!(is_multi_resolver(&ty));
        let (c, _, _, _, _, _) = opts_call(compile(vec![kv("css", "li")], &ty));
        assert_eq!(c, Constructor::NewNotEmptyOpts);
    }
    assert!(!is_multi_resolver(&generic("ElementResolver", vec!["core", "vec", "Vec"])));
    assert!(!is_multi_resolver(&generic("Resolver", vec!["Vec"])));
}

#[test]
fn multi_alias_type_is_multi() {
    let ty = ident("ElementResolverMulti");
    let (c, kind, value, ignore, desc, wait) = opts_call(compile(vec![kv("css", "li")], &ty));
    assert_eq!(c, Constructor::NewNotEmptyOpts);
    assert_eq!((kind, value.as_str(), ignore, desc, wait), (SelectorKind::Css, "li", false, None, None));
}

#[test]
fn mode_prefers_explicit_flag() {
    let tokens = ByTokens::from_attr(&ByAttr::List(vec![kv("css", "a"), flag("multi")])).unwrap();
    assert_eq!(resolution_mode(&tokens, &single_ty()), ResolutionMode::Multi);
    let tokens = ByTokens::from_attr(&ByAttr::List(vec![kv("css", "a")])).unwrap();
    assert_eq!(resolution_mode(&tokens, &single_ty()), ResolutionMode::Single);
}

#[test]
fn custom_alone_gives_new_custom() {
    match compile(vec![kv("custom", "myFn")], &single_ty()) {
        Ok(e) => {
            assert_eq!(e.constructor(), Constructor::NewCustom);
            assert_eq!(e.constructor().name(), "new_custom");
            match e {
                ConstructionExpr::CustomCall(f) => assert_eq!(f, "myFn"),
                other => panic!("unexpected {:?}", other),
            }
        }
        Err(e) => panic!("unexpected {:?}", e),
    }
    match compile(vec![kv("custom", "myFn")], &ident("ElementResolverMulti")) {
        Ok(ConstructionExpr::CustomCall(f)) => assert_eq!(f, "myFn"),
        other => panic!("unexpected {:?}", other),
    }
}

#[test]
fn custom_with_wait_is_a_conflict() {
    let r = ByTokens::from_attr(&ByAttr::List(vec![kv("custom", "myFn"), wait_arg("30000", "500")]));
    assert_eq!(r.unwrap_err().1, CompileError::Conflict(Category::Custom, Category::Wait));
    assert_eq!(Category::Custom.name(), "custom");
    assert_eq!(Category::Wait.name(), "wait");
    let r = ByTokens::from_attr(&ByAttr::List(vec![wait_arg("30000", "500"), kv("custom", "myFn")]));
    assert_eq!(r.unwrap_err().1, CompileError::Conflict(Category::Wait, Category::Custom));
}

#[test]
fn custom_with_selector_is_left_over() {
    let r = compile(vec![kv("custom", "myFn"), kv("css", "a")], &single_ty());
    assert_eq!(r.unwrap_err(), CompileError::UnrecognisedArgs);
}

#[test]
fn first_with_multi_is_a_conflict() {
    let r = ByTokens::from_attr(&ByAttr::List(vec![kv("css", "a"), flag("first"), flag("multi")]));
    assert_eq!(r.unwrap_err().1, CompileError::Conflict(Category::First, Category::Multi));
}

#[test]
fn duplicate_selector_is_refused() {
    let r = ByTokens::from_attr(&ByAttr::List(vec![kv("css", "a"), kv("css", "b")]));
    assert_eq!(r.unwrap_err().1, CompileError::Duplicate(Category::Selector));
    assert_eq!(Category::Selector.name(), "selector");
    let r = ByTokens::from_attr(&ByAttr::List(vec![kv("css", "a"), kv("xpath", "//b")]));
    assert_eq!(r.unwrap_err().1, CompileError::Duplicate(Category::Selector));
}

#[test]
fn wait_values_round_trip() {
    let (_, _, _, _, _, wait) = opts_call(compile(vec![kv("css", "a"), wait_arg("30000", "500")], &single_ty()));
    assert_eq!(wait, Some(WaitOptions { timeout_ms: 30000, interval_ms: 500 }));
}

#[test]
fn options_are_forwarded() {
    let (c, _, _, ignore, desc, wait) = opts_call(compile(
        vec![kv("name", "q"), flag("ignore_errors"), kv("description", "the box")],
        &single_ty(),
    ));
    assert_eq!(c, Constructor::NewSingleOpts);
    assert!(ignore);
    assert_eq!(desc, Some("the box".to_string()));
    assert_eq!(wait, None);
}

#[test]
fn wait_errors() {
    let meta = |args: Vec<InnerArg>| ByToken::from_meta(&Meta::List(ident("wait"), args));
    let t = |v: &str| InnerArg::NameValue(ident("timeout_ms"), Lit::Int(v.to_string()));
    let i = |v: &str| InnerArg::NameValue(ident("interval_ms"), Lit::Int(v.to_string()));
    assert_eq!(meta(vec![t("1")]).unwrap_err(), CompileError::WaitMissingArgs);
    assert_eq!(meta(vec![i("1")]).unwrap_err(), CompileError::WaitMissingArgs);
    assert_eq!(meta(vec![t("1"), t("2"), i("3")]).unwrap_err(), CompileError::TimeoutTwice);
    assert_eq!(meta(vec![i("1"), t("2"), i("3")]).unwrap_err(), CompileError::IntervalTwice);
    assert_eq!(meta(vec![t("4294967296"), i("3")]).unwrap_err(), CompileError::InvalidTimeout);
    assert_eq!(meta(vec![t("1"), i("x")]).unwrap_err(), CompileError::InvalidInterval);
    assert_eq!(
        meta(vec![InnerArg::NameValue(ident("delay"), Lit::Int("1".to_string()))]).unwrap_err(),
        CompileError::UnknownWaitArg
    );
    assert_eq!(
        meta(vec![InnerArg::NameValue(ident("timeout_ms"), Lit::Str("1".to_string()))]).unwrap_err(),
        CompileError::UnknownWaitArg
    );
    assert_eq!(meta(vec![InnerArg::Other]).unwrap_err(), CompileError::MalformedWaitArg);
    match meta(vec![t("4294967295"), i("0")]) {
        Ok(ByToken::Wait(w)) => assert_eq!(w, WaitOptions { timeout_ms: 4294967295, interval_ms: 0 }),
        other => panic!("unexpected {:?}", other),
    }
}

#[test]
fn unknown_attributes_are_refused() {
    let r = ByTokens::from_attr(&ByAttr::List(vec![flag("many")]));
    assert_eq!(r.unwrap_err().1, CompileError::UnknownAttribute);
    let r = ByTokens::from_attr(&ByAttr::List(vec![kv("class", "a")]));
    assert_eq!(r.unwrap_err().1, CompileError::UnknownAttribute);
    let r = ByTokens::from_attr(&ByAttr::List(vec![ByArg::Meta(Meta::NameValue(ident("css"), Lit::Int("1".to_string())))]));
    assert_eq!(r.unwrap_err().1, CompileError::UnknownAttribute);
    let r = ByTokens::from_attr(&ByAttr::List(vec![ByArg::Meta(Meta::List(ident("pause"), vec![]))]));
    assert_eq!(r.unwrap_err().1, CompileError::UnknownAttribute);
    let qualified = Path { leading_colon: true, segments: vec![seg("multi")] };
    let r = ByTokens::from_attr(&ByAttr::List(vec![ByArg::Meta(Meta::Path(qualified))]));
    assert_eq!(r.unwrap_err().1, CompileError::UnknownAttribute);
    let r = ByTokens::from_attr(&ByAttr::List(vec![ByArg::Lit(Lit::Str("a".to_string()))]));
    assert_eq!(r.unwrap_err().1, CompileError::UnrecognisedToken);
    let r = ByTokens::from_attr(&ByAttr::Malformed);
    assert_eq!(r.unwrap_err().1, CompileError::MalformedByAttr);
}

#[test]
fn missing_selector_is_refused() {
    assert_eq!(compile(vec![flag("first")], &single_ty()).unwrap_err(), CompileError::NoSelector);
    assert_eq!(compile(vec![], &single_ty()).unwrap_err(), CompileError::NoSelector);
}

#[test]
fn two_selectors_are_ambiguous() {
    let sel = |v: &str| ByToken::Selector(Selector { kind: SelectorKind::Css, value: v.to_string() });
    let bag = ByTokens { tokens: vec![sel("a"), ByToken::First, sel("b")] };
    assert!(component_attrs::bag::has_second(&bag, Category::Selector));
    assert_eq!(SingleResolverArgs::from_tokens(bag).unwrap_err(), CompileError::MultipleSelectors);
    let bag = ByTokens { tokens: vec![sel("a"), sel("b")] };
    assert_eq!(MultiResolverArgs::from_tokens(bag).unwrap_err(), CompileError::MultipleSelectors);
    let bag = ByTokens { tokens: vec![sel("a"), ByToken::First] };
    assert!(!component_attrs::bag::has_second(&bag, Category::Selector));
}

#[test]
fn allow_empty_on_single_is_left_over() {
    assert_eq!(
        compile(vec![kv("css", "a"), flag("allow_empty")], &single_ty()).unwrap_err(),
        CompileError::UnrecognisedArgs
    );
}

#[test]
fn validate_and_takes() {
    let mut b = ByTokens::from_attr(&ByAttr::List(vec![flag("ignore_errors"), kv("css", "a"), flag("first")])).unwrap();
    assert!(b.validate().is_ok());
    assert!(!b.is_multi());
    assert_eq!(b.take_first(), Some(true));
    assert_eq!(b.take_first(), None);
    assert_eq!(b.take_multi(), None);
    let sel = b.take_quote();
    assert_eq!((sel.kind, sel.value.as_str()), (SelectorKind::Css, "a"));
    assert_eq!(b.tokens.len(), 1);
    assert_eq!(b.take_ignore_errors(), Some(true));
    assert!(b.tokens.is_empty());
    assert_eq!(b.take_description(), None);
    assert_eq!(b.take_wait_options(), None);
    assert_eq!(b.take_custom(), None);
    assert_eq!(b.take_allow_empty(), None);
    let bad = ByTokens { tokens: vec![ByToken::First, ByToken::Multi] };
    assert_eq!(bad.validate().unwrap_err(), CompileError::Conflict(Category::First, Category::Multi));
    let dup = ByTokens { tokens: vec![ByToken::Multi, ByToken::First, ByToken::Multi] };
    assert_eq!(dup.validate().unwrap_err(), CompileError::Duplicate(Category::Multi));
    let t = ByToken::CustomFn("f".to_string());
    assert_eq!(t.get_unique_type(), Category::Custom);
    assert_eq!(t.get_disallowed_types().len(), 6);
    assert_eq!(ByToken::First.get_disallowed_types(), vec![Category::Multi, Category::Custom]);
}

#[test]
fn take_one_removes_first_match_only() {
    let mut b = ByTokens { tokens: vec![ByToken::First, ByToken::Multi, ByToken::First] };
    assert!(b.is_multi());
    assert!(matches!(b.take_one(Category::First), Some(ByToken::First)));
    assert_eq!(b.tokens.len(), 2);
    assert!(matches!(b.tokens[0], ByToken::Multi));
    assert!(b.take_one(Category::Wait).is_none());
    assert_eq!(b.tokens.len(), 2);
}

#[test]
fn type_paths_become_call_targets() {
    let plain = Path { leading_colon: false, segments: vec![seg("a"), seg("Plain")] };
    let t = fix_type(plain).unwrap();
    assert_eq!(t.prefix.len(), 1);
    assert_eq!(t.ident, "Plain");
    assert!(matches!(t.turbofish, SegmentArgs::Empty));
    let g = fix_type(generic("ElementResolver", vec!["Vec"])).unwrap();
    assert!(g.prefix.is_empty());
    assert_eq!(g.ident, "ElementResolver");
    assert!(matches!(g.turbofish, SegmentArgs::AngleBracketed(ref a) if a.len() == 1));
    let q = Path {
        leading_colon: true,
        segments: vec![seg("x"), PathSegment { ident: "R".to_string(), args: SegmentArgs::AngleBracketed(vec![]) }],
    };
    let q = fix_type(q).unwrap();
    assert!(q.leading_colon);
    assert!(matches!(q.turbofish, SegmentArgs::Empty));
    assert!(fix_type(Path { leading_colon: false, segments: vec![] }).is_none());
}

fn field(name: &str, ty: FieldType, base_marked: bool, by_attrs: Vec<ByAttr>) -> FieldDecl {
    FieldDecl { name: name.to_string(), ty, base_marked, by_attrs }
}

#[test]
fn component_with_base_and_fields() {
    let fields = vec![
        field("base", FieldType::Path(ident("WebElement")), false, vec![]),
        field("button", FieldType::Path(single_ty()), false, vec![ByAttr::List(vec![kv("id", "go")])]),
        field("count", FieldType::Path(ident("u32")), false, vec![]),
        field("other", FieldType::Other, false, vec![ByAttr::List(vec![kv("id", "x")])]),
    ];
    let plan = compile_component(fields).unwrap();
    assert_eq!(plan.base, "base");
    assert_eq!(plan.fields.len(), 3);
    match &plan.fields[0] {
        FieldInit::Resolver { name, target, expr } => {
            assert_eq!(name, "button");
            assert_eq!(target.as_ref().unwrap().ident, "ElementResolver");
            assert_eq!(expr.constructor(), Constructor::NewSingleOpts);
        }
        other => panic!("unexpected {:?}", other),
    }
    assert!(matches!(&plan.fields[1], FieldInit::Default { name } if name == "count"));
    assert!(matches!(&plan.fields[2], FieldInit::Default { name } if name == "other"));
}

#[test]
fn marked_base_field_wins() {
    let fields = vec![
        field("base", FieldType::Path(ident("WebElement")), false, vec![]),
        field("root", FieldType::Path(ident("WebElement")), true, vec![]),
    ];
    assert_eq!(compile_component(fields).unwrap().base, "root");
}

#[test]
fn missing_base_is_refused_first() {
    let fields = vec![field("a", FieldType::Path(single_ty()), false, vec![ByAttr::List(vec![flag("bogus")])])];
    assert_eq!(compile_component(fields).unwrap_err().error, CompileError::BaseMissing);
    assert_eq!(compile_component(vec![]).unwrap_err().error, CompileError::BaseMissing);
}

#[test]
fn errors_name_their_field() {
    let fields = vec![
        field("base", FieldType::Path(ident("WebElement")), false, vec![]),
        field("ok", FieldType::Path(single_ty()), false, vec![ByAttr::List(vec![kv("css", "a")])]),
        field("bad", FieldType::Path(single_ty()), false, vec![ByAttr::List(vec![flag("first")])]),
    ];
    let e = compile_component(fields).unwrap_err();
    assert_eq!(e.field, Some(2));
    assert_eq!(e.error, CompileError::NoSelector);
    let e = compile_component(vec![field("a", FieldType::Other, false, vec![])]).unwrap_err();
    assert_eq!(e.field, None);
    let fields = vec![field("x", FieldType::Other, false, vec![]), field("base", FieldType::Other, false, vec![])];
    let e = compile_component(fields).unwrap_err();
    assert_eq!((e.field, e.error), (Some(1), CompileError::BaseNotWebElement));
}

#[test]
fn base_must_be_web_element() {
    let fields = vec![field("base", FieldType::Path(ident("String")), false, vec![])];
    assert_eq!(compile_component(fields).unwrap_err().error, CompileError::BaseNotWebElement);
    let fields = vec![field("root", FieldType::Other, true, vec![])];
    assert_eq!(compile_component(fields).unwrap_err().error, CompileError::BaseNotWebElement);
}

#[test]
fn field_errors_reach_the_component() {
    let fields = vec![
        field("base", FieldType::Path(ident("WebElement")), false, vec![]),
        field("a", FieldType::Path(single_ty()), false, vec![ByAttr::List(vec![kv("css", "a"), kv("css", "b")])]),
    ];
    assert_eq!(compile_component(fields).unwrap_err().error, CompileError::Duplicate(Category::Selector));
}

#[test]
fn by_attributes_share_one_bag() {
    let base = || field("base", FieldType::Path(ident("WebElement")), false, vec![]);
    let fields = vec![
        base(),
        field(
            "a",
            FieldType::Path(single_ty()),
            false,
            vec![ByAttr::List(vec![kv("css", "a")]), ByAttr::List(vec![kv("css", "b")])],
        ),
    ];
    assert_eq!(compile_component(fields).unwrap_err().error, CompileError::Duplicate(Category::Selector));
    let fields = vec![
        base(),
        field(
            "a",
            FieldType::Path(single_ty()),
            false,
            vec![ByAttr::List(vec![kv("css", "b")]), ByAttr::List(vec![flag("first")])],
        ),
    ];
    let plan = compile_component(fields).unwrap();
    match &plan.fields[0] {
        FieldInit::Resolver { expr: ConstructionExpr::ParameterizedCall { constructor, selector, .. }, .. } => {
            assert_eq!(*constructor, Constructor::NewFirstOpts);
            assert_eq!(selector.value, "b");
        }
        other => panic!("unexpected {:?}", other),
    }
    let fields = vec![
        base(),
        field(
            "a",
            FieldType::Path(single_ty()),
            false,
            vec![ByAttr::List(vec![kv("custom", "f")]), ByAttr::List(vec![flag("multi")])],
        ),
    ];
    assert_eq!(compile_component(fields).unwrap_err().error, CompileError::Conflict(Category::Custom, Category::Multi));
    let fields = vec![
        base(),
        field("a", FieldType::Path(single_ty()), false, vec![ByAttr::List(vec![kv("css", "b")]), ByAttr::Malformed]),
    ];
    assert_eq!(compile_component(fields).unwrap_err().error, CompileError::MalformedByAttr);
}

#[test]
fn errors_name_their_argument() {
    let r = ByTokens::from_attr(&ByAttr::List(vec![kv("custom", "myFn"), wait_arg("30000", "500")]));
    assert_eq!(r.unwrap_err(), (Some(1), CompileError::Conflict(Category::Custom, Category::Wait)));
    let r = ByTokens::from_attr(&ByAttr::List(vec![kv("css", "a"), kv("css", "b"), flag("bogus")]));
    assert_eq!(r.unwrap_err(), (Some(1), CompileError::Duplicate(Category::Selector)));
    let r = ByTokens::from_args(&vec![flag("first"), kv("id", "x"), flag("bogus"), kv("id", "y")]);
    assert_eq!(r.unwrap_err(), (2, CompileError::UnknownAttribute));
    assert_eq!(ByTokens::from_attr(&ByAttr::Malformed).unwrap_err(), (None, CompileError::MalformedByAttr));
    let fields = vec![
        field("base", FieldType::Path(ident("WebElement")), false, vec![]),
        field(
            "a",
            FieldType::Path(single_ty()),
            false,
            vec![ByAttr::List(vec![kv("css", "a")]), ByAttr::List(vec![flag("first"), kv("css", "b")])],
        ),
    ];
    let e = compile_component(fields).unwrap_err();
    assert_eq!((e.field, e.attr, e.arg, e.error), (Some(1), Some(1), Some(1), CompileError::Duplicate(Category::Selector)));
    let fields = vec![
        field("base", FieldType::Path(ident("WebElement")), false, vec![]),
        field("a", FieldType::Path(single_ty()), false, vec![ByAttr::List(vec![flag("first")])]),
    ];
    let e = compile_component(fields).unwrap_err();
    assert_eq!((e.field, e.attr, e.arg, e.error), (Some(1), None, None, CompileError::NoSelector));
}

#[test]
fn extend_validates_against_existing_tokens() {
    let mut b = ByTokens::from_args(&vec![kv("css", "a")]).unwrap();
    assert_eq!(b.extend_from_args(&vec![kv("id", "x")]).unwrap_err(), (0, CompileError::Duplicate(Category::Selector)));
    let mut b = ByTokens::from_args(&vec![kv("css", "a")]).unwrap();
    assert!(b.extend_from_args(&vec![flag("ignore_errors")]).is_ok());
    assert_eq!(b.tokens.len(), 2);
}

#[test]
fn text_helpers() {
    assert_eq!(parse_u32("0"), Some(0));
    assert_eq!(parse_u32("30000"), Some(30000));
    assert_eq!(parse_u32("4294967295"), Some(u32::MAX));
    assert_eq!(parse_u32("4294967296"), None);
    assert_eq!(parse_u32(""), None);
    assert_eq!(parse_u32("12a"), None);
    assert!(str_eq("wait", "wait"));
    assert!(!str_eq("wait", "waits"));
    assert!(!str_eq("é", "e"));
}
