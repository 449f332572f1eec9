use graphql_core::codegen::args::{
    Argument, CacheControl, Entity, Enum, EnumItem, Field, InputField, InputObject, Interface,
    InterfaceField, InterfaceFieldArgument, Object, Scalar, UnionItem,
};
use graphql_core::codegen::utils::{
    BuildParams, DefaultExpr, GuardExpr, GuardParam, ValidatorExpr, generate_default,
    generate_guards, generate_nested_validator, generate_validator, get_cfg_attrs,
    get_crate_name, get_param_getter_ident, get_rustdoc,
};
use graphql_core::codegen::{Attribute, DeriveError, Lit, Meta, MetaList, MetaPath, NestedMeta};

fn path(seg: &str) -> MetaPath {
    MetaPath { segments: vec![seg.to_string()] }
}

fn p(seg: &str) -> NestedMeta {
    NestedMeta::Meta(Meta::Path(path(seg)))
}

fn nv(name: &str, lit: Lit) -> NestedMeta {
    NestedMeta::Meta(Meta::NameValue { path: path(name), lit })
}

fn sv(name: &str, value: &str) -> NestedMeta {
    nv(name, Lit::Str(value.to_string()))
}

fn list(name: &str, nested: Vec<NestedMeta>) -> MetaList {
    MetaList { path: path(name), nested }
}

fn nlist(name: &str, nested: Vec<NestedMeta>) -> NestedMeta {
    NestedMeta::Meta(Meta::List(list(name, nested)))
}

fn attr(name: &str, meta: Meta) -> Attribute {
    Attribute { path: path(name), meta: Some(meta) }
}

#[test]
fn cache_control_reads_scope_and_age() {
    let got = CacheControl::parse(list(
        "cache_control",
        vec![nv("max_age", Lit::Int(30)), p("private")],
    ))
    .unwrap();
    assert_eq!(got.public, false);
    assert_eq!(got.max_age, 30);
}

#[test]
fn cache_control_rejects_non_integer_age() {
    let got = CacheControl::parse(list("cache_control", vec![sv("max_age", "soon")]));
    assert!(matches!(got, Err(DeriveError::MaxAgeMustBeInt)));
    let huge = CacheControl::parse(list("cache_control", vec![nv("max_age", Lit::Int(-1))]));
    assert!(matches!(huge, Err(DeriveError::MaxAgeOutOfRange)));
}

#[test]
fn object_reads_flags_names_and_cache_hint() {
    let got = Object::parse(vec![
        p("internal"),
        p("extends"),
        sv("name", "Thing"),
        sv("desc", "a thing"),
        nlist("cache_control", vec![nv("max_age", Lit::Int(5))]),
    ])
    .unwrap();
    assert!(got.internal);
    assert!(got.extends);
    assert_eq!(got.name.as_deref(), Some("Thing"));
    assert_eq!(got.desc.as_deref(), Some("a thing"));
    assert_eq!(got.cache_control.max_age, 5);
    let bad = Object::parse(vec![nv("name", Lit::Bool(true))]);
    assert!(matches!(bad, Err(DeriveError::NameMustBeString)));
}

#[test]
fn enum_reads_remote() {
    let got = Enum::parse(vec![sv("remote", "other::Kind"), sv("name", "Kind")]).unwrap();
    assert_eq!(got.remote.as_deref(), Some("other::Kind"));
    assert_eq!(got.name.as_deref(), Some("Kind"));
    assert!(!got.internal);
}

#[test]
fn enum_item_falls_back_to_docs() {
    let attrs = vec![
        Attribute {
            path: path("doc"),
            meta: Some(Meta::NameValue {
                path: path("doc"),
                lit: Lit::Str("  first line  ".to_string()),
            }),
        },
        attr("item", Meta::List(list("item", vec![sv("name", "RED")]))),
        Attribute {
            path: path("doc"),
            meta: Some(Meta::NameValue {
                path: path("doc"),
                lit: Lit::Str(" second ".to_string()),
            }),
        },
    ];
    let got = EnumItem::parse(attrs).unwrap();
    assert_eq!(got.name.as_deref(), Some("RED"));
    assert_eq!(got.desc.as_deref(), Some("first line\nsecond"));
}

#[test]
fn union_item_detects_flatten() {
    let got = UnionItem::parse(vec![attr("item", Meta::List(list("item", vec![p("flatten")])))])
        .unwrap();
    assert!(got.flatten);
    let got = UnionItem::parse(vec![]).unwrap();
    assert!(!got.flatten);
}

#[test]
fn entity_marker_is_detected() {
    let got = Entity::parse(vec![attr("entity", Meta::Path(path("entity")))]).unwrap();
    assert!(got.is_some());
    let got = Entity::parse(vec![attr("other", Meta::Path(path("other")))]).unwrap();
    assert!(got.is_none());
}

#[test]
fn argument_keeps_the_whole_list_for_validation() {
    let got = Argument::parse(vec![attr(
        "arg",
        Meta::List(list(
            "arg",
            vec![p("default"), p("key"), sv("name", "id"), nv("default_value", Lit::Int(7))],
        )),
    )])
    .unwrap();
    assert!(got.default);
    assert!(got.key);
    assert_eq!(got.name.as_deref(), Some("id"));
    assert!(matches!(got.default_value, Some(Lit::Int(7))));
    let ls = got.validator.expect("validator list kept");
    assert_eq!(ls.nested.len(), 4);
}

#[test]
fn input_field_rejects_skip() {
    let got = InputField::parse(vec![attr(
        "field",
        Meta::List(list("field", vec![p("skip")])),
    )]);
    assert!(matches!(got, Err(DeriveError::SkipNotAllowedHere)));
}

#[test]
fn input_object_reads_names() {
    let got = InputObject::parse(vec![sv("name", "In"), p("internal")]).unwrap();
    assert_eq!(got.name.as_deref(), Some("In"));
    assert!(got.internal);
}

#[test]
fn scalar_reads_names() {
    let got = Scalar::parse(vec![sv("name", "Time"), sv("desc", "a time")]).unwrap();
    assert_eq!(got.name.as_deref(), Some("Time"));
    assert_eq!(got.desc.as_deref(), Some("a time"));
}

#[test]
fn field_skip_reads_as_nothing() {
    let got = Field::parse(vec![attr("field", Meta::List(list("field", vec![p("skip")])))])
        .unwrap();
    assert!(got.is_none());
}

#[test]
fn field_ref_flag_was_removed() {
    let got = Field::parse(vec![attr("field", Meta::List(list("field", vec![p("ref")])))]);
    assert!(matches!(got, Err(DeriveError::RefNoLongerSupported)));
}

#[test]
fn field_reads_federation_flags_and_guards() {
    let got = Field::parse(vec![attr(
        "field",
        Meta::List(list(
            "field",
            vec![
                p("external"),
                p("owned"),
                sv("name", "user"),
                sv("deprecation", "old"),
                sv("provides", "name"),
                sv("requires", "id"),
                nlist(
                    "guard",
                    vec![nlist("RoleGuard", vec![sv("role", "\"admin\""), sv("who", "@name")])],
                ),
            ],
        )),
    )])
    .unwrap()
    .unwrap();
    assert!(got.external);
    assert!(got.owned);
    assert_eq!(got.name.as_deref(), Some("user"));
    assert_eq!(got.deprecation.as_deref(), Some("old"));
    assert_eq!(got.provides_fields.as_deref(), Some("name"));
    assert_eq!(got.requires_fields.as_deref(), Some("id"));
    match got.guard.expect("guard read") {
        GuardExpr::One(build) => {
            assert_eq!(build.path.segments[0], "RoleGuard");
            match build.params {
                BuildParams::Cons { name, value, rest } => {
                    assert_eq!(name.segments[0], "role");
                    assert!(matches!(value, GuardParam::Expr(_)));
                    match *rest {
                        BuildParams::Cons { name, value, .. } => {
                            assert_eq!(name.segments[0], "who");
                            match value {
                                GuardParam::Getter(s) => assert_eq!(s, "@name"),
                                _ => panic!("expected a getter"),
                            }
                        }
                        _ => panic!("expected a second parameter"),
                    }
                }
                _ => panic!("expected parameters"),
            }
        }
        _ => panic!("expected one guard"),
    }
}

#[test]
fn interface_field_requires_name_and_type() {
    let got = InterfaceField::parse(list("field", vec![sv("name", "id")]));
    assert!(matches!(got, Err(DeriveError::MissingType)));
    let got = InterfaceField::parse(list("field", vec![sv("type", "String")]));
    assert!(matches!(got, Err(DeriveError::MissingName)));
}

#[test]
fn interface_collects_fields_and_arguments() {
    let got = Interface::parse(vec![
        sv("name", "Node"),
        nlist(
            "field",
            vec![
                sv("name", "id"),
                sv("type", "String"),
                sv("method", "get_id"),
                nlist("arg", vec![sv("name", "version"), sv("type", "i32"), p("default")]),
            ],
        ),
    ])
    .unwrap();
    assert_eq!(got.name.as_deref(), Some("Node"));
    assert_eq!(got.fields.len(), 1);
    let f = &got.fields[0];
    assert_eq!(f.name, "id");
    assert_eq!(f.ty, "String");
    assert_eq!(f.method.as_deref(), Some("get_id"));
    assert_eq!(f.args.len(), 1);
    let a = &f.args[0];
    assert_eq!(a.name, "version");
    assert_eq!(a.ty, "i32");
    assert!(matches!(a.default, Some(DefaultExpr::TypeDefault)));
}

#[test]
fn interface_field_argument_rejects_bad_types() {
    let got = InterfaceFieldArgument::parse(list(
        "arg",
        vec![sv("name", "v"), sv("type", "not a type @@@")],
    ));
    assert!(matches!(got, Err(DeriveError::ExpectedType)));
}

#[test]
fn validator_requires_exactly_one() {
    assert!(matches!(generate_validator(None), Ok(None)));
    let none = generate_validator(Some(list("validator", vec![])));
    assert!(matches!(none, Err(DeriveError::AtLeastOneValidator)));
    let two = generate_validator(Some(list(
        "validator",
        vec![p("IntRange"), p("StringMinLength")],
    )));
    assert!(matches!(two, Err(DeriveError::OnlyOneValidator)));
}

#[test]
fn validators_combine_left_to_right() {
    let got = generate_nested_validator(nlist(
        "and",
        vec![
            p("A"),
            nlist("B", vec![sv("len", "3")]),
            p("C"),
        ],
    ))
    .unwrap();
    match got {
        ValidatorExpr::And(left, right) => {
            match *right {
                ValidatorExpr::Build { path, .. } => assert_eq!(path.segments[0], "C"),
                _ => panic!("expected the last member on the right"),
            }
            match *left {
                ValidatorExpr::And(a, b) => {
                    assert!(matches!(*a, ValidatorExpr::Build { .. }));
                    match *b {
                        ValidatorExpr::Build { path, params } => {
                            assert_eq!(path.segments[0], "B");
                            assert!(matches!(params, BuildParams::Cons { .. }));
                        }
                        _ => panic!("expected a build"),
                    }
                }
                _ => panic!("expected a nested combination"),
            }
        }
        _ => panic!("expected a conjunction"),
    }
}

#[test]
fn guards_wrap_earlier_ones() {
    let got = generate_guards(list(
        "field",
        vec![nlist("guard", vec![nlist("A", vec![]), nlist("B", vec![])])],
    ))
    .unwrap()
    .unwrap();
    match got {
        GuardExpr::And(build, rest) => {
            assert_eq!(build.path.segments[0], "B");
            match *rest {
                GuardExpr::One(first) => assert_eq!(first.path.segments[0], "A"),
                _ => panic!("expected the first guard inside"),
            }
        }
        _ => panic!("expected a combination"),
    }
}

#[test]
fn defaults_choose_the_strongest_source() {
    assert!(matches!(generate_default(false, None, None), Ok(None)));
    assert!(matches!(
        generate_default(true, None, None),
        Ok(Some(DefaultExpr::TypeDefault)),
    ));
    assert!(matches!(
        generate_default(true, Some(Lit::Int(3)), None),
        Ok(Some(DefaultExpr::Int(3))),
    ));
    match generate_default(true, Some(Lit::Int(3)), Some("1 + 2".to_string())) {
        Ok(Some(DefaultExpr::WithExpr(s))) => assert_eq!(s, "1 + 2"),
        _ => panic!("expected the explicit expression"),
    }
    assert!(matches!(
        generate_default(false, Some(Lit::Other), None),
        Err(DeriveError::UnsupportedDefaultLiteral),
    ));
    assert!(matches!(
        generate_default(false, Some(Lit::Int(i128::MAX)), None),
        Err(DeriveError::UnsupportedDefaultLiteral),
    ));
}

#[test]
fn getter_ident_is_prefixed_and_suffixed() {
    assert_eq!(get_param_getter_ident("role"), "__role_getter");
}

#[test]
fn crate_name_for_internal_types_is_crate() {
    assert_eq!(get_crate_name(true), "crate");
}

#[test]
fn cfg_attributes_are_kept_in_order() {
    let attrs = vec![
        Attribute { path: path("cfg"), meta: None },
        Attribute { path: path("doc"), meta: None },
        Attribute {
            path: MetaPath { segments: vec!["cfg".to_string(), "attr".to_string()] },
            meta: None,
        },
    ];
    let got = get_cfg_attrs(attrs);
    assert_eq!(got.len(), 2);
    assert_eq!(got[0].path.segments[0], "cfg");
    assert_eq!(got[1].path.segments.len(), 2);
}

#[test]
fn rustdoc_joins_trimmed_lines() {
    let attrs = vec![
        Attribute {
            path: path("doc"),
            meta: Some(Meta::NameValue {
                path: path("doc"),
                lit: Lit::Str("  one ".to_string()),
            }),
        },
        Attribute {
            path: path("doc"),
            meta: Some(Meta::NameValue {
                path: path("doc"),
                lit: Lit::Str("two  ".to_string()),
            }),
        },
    ];
    let got = get_rustdoc(&attrs).unwrap();
    assert_eq!(got.as_deref(), Some("one\ntwo"));
    assert_eq!(get_rustdoc(&Vec::new()).unwrap(), None);
}

#[test]
fn unparseable_attributes_are_errors() {
    let got = get_rustdoc(&vec![Attribute { path: path("doc"), meta: None }]);
    assert!(matches!(got, Err(DeriveError::InvalidAttribute)));
}

#[test]
fn validator_values_must_be_expressions() {
    let got = generate_nested_validator(nlist("IntRange", vec![sv("min", "@@@ not an expression")]));
    assert!(matches!(got, Err(DeriveError::InvalidExpression)));
}

#[test]
fn default_with_must_lex() {
    let got = generate_default(false, None, Some("(".to_string()));
    assert!(matches!(got, Err(DeriveError::InvalidExpression)));
}

#[test]
fn argument_default_with_must_lex() {
    let got = Argument::parse(vec![attr(
        "arg",
        Meta::List(list("arg", vec![sv("default_with", "(")])),
    )]);
    assert!(matches!(got, Err(DeriveError::InvalidExpression)));
    let got = InputField::parse(vec![attr(
        "field",
        Meta::List(list("field", vec![sv("default_with", "(")])),
    )]);
    assert!(matches!(got, Err(DeriveError::InvalidExpression)));
}
