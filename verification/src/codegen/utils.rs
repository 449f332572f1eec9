//! Shared readers and builders for the code-generation attributes: documents
//! collected from doc comments, default-value expressions, validator and
//! guard constructions, and the name the generated code refers to this
//! library by.

use vstd::prelude::*;
use vstd::string::StringExecFns;
use vstd::string::StrSliceExecFns;
use crate::codegen::Attribute;
use crate::codegen::DeriveError;
use crate::codegen::Lit;
use crate::codegen::Meta;
use crate::codegen::MetaList;
use crate::codegen::MetaPath;
use crate::codegen::NestedMeta;
use crate::codegen::check_expr_text;
use crate::codegen::parses_as_expr;
use crate::codegen::path_is;

verus! {

broadcast use vstd::std_specs::vec::group_vec_axioms;

/// The named parameters of a validator or guard construction, in
/// declaration order.
pub enum BuildParams<P> {
    Nil,
    Cons { name: MetaPath, value: P, rest: Box<BuildParams<P>> },
}

/// A validator construction for generated code: a combinator over named
/// validator types built with named parameters, each parameter given as
/// expression text.
pub enum ValidatorExpr {
    And(Box<ValidatorExpr>, Box<ValidatorExpr>),
    Or(Box<ValidatorExpr>, Box<ValidatorExpr>),
    Build { path: MetaPath, params: BuildParams<String> },
}

/// One parameter of a guard construction: either a named parameter getter
/// (its text still carrying the leading marker), or plain expression text.
pub enum GuardParam {
    Getter(String),
    Expr(String),
}

/// A guard construction for generated code.
pub struct GuardBuild {
    pub path: MetaPath,
    pub params: BuildParams<GuardParam>,
}

/// Guards combined as declared: each further guard wraps the ones already
/// gathered.
pub enum GuardExpr {
    One(GuardBuild),
    And(GuardBuild, Box<GuardExpr>),
}

/// What leading and trailing whitespace removal leaves of a text.
/// The meaning of the `trim_text` wrapper below.
pub uninterp spec fn trimmed(s: Seq<char>) -> Seq<char>;

/// Relies on str::trim: the trimmed text is a function of the text alone.
#[verifier::external_body]
fn trim_text(s: &String) -> (r: String)
    ensures
        r@ == trimmed(s@),
{
    s.trim().to_string()
}

/// Whether a text starts with the parameter-getter marker.
pub open spec fn starts_with_marker(s: Seq<char>) -> bool {
    s.len() >= 1 && s[0] == '@'
}

/// Whether the first character of a text is the marker.
fn text_starts_with_marker(s: &String) -> (r: bool)
    ensures
        r == starts_with_marker(s@),
{
    let st = s.as_str();
    if st.unicode_len() == 0 {
        false
    } else {
        st.get_char(0) == '@'
    }
}

/// Whether a text lexes as a token stream of the host language.
/// The meaning of the `check_tokens_text` wrapper below.
pub uninterp spec fn parses_as_tokens(s: Seq<char>) -> bool;

/// Relies on str::parse::<proc_macro2::TokenStream>: whether the text lexes
/// is a function of the text alone.
#[verifier::external_body]
pub fn check_tokens_str(s: &str) -> (r: bool)
    ensures
        r == parses_as_tokens(s@),
{
    s.parse::<proc_macro2::TokenStream>().is_ok()
}

/// Relies on proc_macro_crate::crate_name: how the host crate's manifest
/// names this library. The answer depends on the manifest on disk, so
/// nothing is promised of it: the crate itself maps to an absent name, a
/// renamed dependency maps to the name found, and a failed lookup maps to
/// nothing at all.
#[verifier::external_body]
fn lookup_host_crate(orig: &str) -> (r: Option<Option<String>>)
{
    match proc_macro_crate::crate_name(orig) {
        Ok(proc_macro_crate::FoundCrate::Itself) => Some(None),
        Ok(proc_macro_crate::FoundCrate::Name(n)) => Some(Some(n)),
        Err(_) => None,
    }
}

/// The name generated code refers to this library by: `crate` for internal
/// types, else whatever the host manifest calls the library, with the plain
/// library name as the fallback.
pub fn get_crate_name(internal: bool) -> (r: String)
    ensures
        internal ==> r@ == "crate"@,
{
    if internal {
        String::from_str("crate")
    } else {
        match lookup_host_crate("graphql-core") {
            Some(Some(n)) => n,
            Some(None) => String::from_str("crate"),
            None => String::from_str("graphql_core"),
        }
    }
}

/// The getter identifier generated for a named parameter.
pub fn get_param_getter_ident(name: &str) -> (r: String)
    ensures
        r@ == "__"@ + name@ + "_getter"@,
{
    let mut s = String::from_str("__");
    s.append(name);
    s.append("_getter");
    s
}

/// The attributes whose path starts with `cfg`, kept in order.
pub open spec fn spec_cfg_attrs(attrs: Seq<Attribute>) -> Seq<Attribute>
    decreases attrs,
{
    if attrs.len() == 0 {
        Seq::empty()
    } else {
        let rest = spec_cfg_attrs(attrs.skip(1));
        if attrs[0].path.segments@.len() > 0 && attrs[0].path.segments@[0]@ == "cfg"@ {
            seq![attrs[0]] + rest
        } else {
            rest
        }
    }
}

/// Keep the conditional-compilation attributes of an item, in order.
pub fn get_cfg_attrs(mut attrs: Vec<Attribute>) -> (r: Vec<Attribute>)
    ensures
        r@ == spec_cfg_attrs(attrs@),
    decreases attrs@.len(),
{
    if attrs.len() == 0 {
        proof {
            assert(spec_cfg_attrs(attrs@) =~= Seq::<Attribute>::empty());
        }
        return Vec::new();
    }
    let ghost orig = attrs@;
    let head = attrs.remove(0);
    proof {
        assert(attrs@ =~= orig.skip(1));
        assert(head == orig[0]);
    }
    let cfg_name = String::from_str("cfg");
    let keep = head.path.segments.len() > 0 && head.path.segments[0] == cfg_name;
    let mut rest = get_cfg_attrs(attrs);
    if keep {
        rest.insert(0, head);
        proof {
            assert(rest@ =~= seq![orig[0]] + spec_cfg_attrs(orig.skip(1)));
        }
        rest
    } else {
        rest
    }
}

/// The documentation text of an item: each doc line trimmed, the lines
/// joined by newlines; nothing when there are no doc lines. An attribute
/// whose tokens are not structured metadata is an error.
pub open spec fn spec_rustdoc(attrs: Seq<Attribute>, acc: Seq<char>)
    -> Result<Seq<char>, DeriveError>
    decreases attrs,
{
    if attrs.len() == 0 {
        Ok(acc)
    } else {
        match attrs[0].meta {
            None => Err(DeriveError::InvalidAttribute),
            Some(m) => {
                let acc2 = match m {
                    Meta::NameValue { path, lit } => if path_is(path, "doc"@) {
                        match lit {
                            Lit::Str(doc) => if acc.len() == 0 {
                                trimmed(doc@)
                            } else {
                                acc + "\n"@ + trimmed(doc@)
                            },
                            _ => acc,
                        }
                    } else {
                        acc
                    },
                    _ => acc,
                };
                spec_rustdoc(attrs.skip(1), acc2)
            },
        }
    }
}

/// Collect an item's documentation from its doc attributes.
pub fn get_rustdoc(attrs: &Vec<Attribute>) -> (r: Result<Option<String>, DeriveError>)
    ensures
        match r {
            Ok(opt) => {
                &&& spec_rustdoc(attrs@, Seq::empty()) is Ok
                &&& match opt {
                    Some(s) => s@ == spec_rustdoc(attrs@, Seq::empty())->Ok_0
                        && s@.len() > 0,
                    None => spec_rustdoc(attrs@, Seq::empty())->Ok_0.len() == 0,
                }
            },
            Err(e) => spec_rustdoc(attrs@, Seq::empty()) == Err::<Seq<char>, DeriveError>(e),
        },
{
    let mut full = String::new();
    let n = attrs.len();
    let mut i: usize = 0;
    proof {
        assert(attrs@.skip(0) =~= attrs@);
    }
    while i < n
        invariant
            n == attrs@.len(),
            i <= n,
            spec_rustdoc(attrs@, Seq::empty()) == spec_rustdoc(attrs@.skip(i as int), full@),
        decreases n - i,
    {
        proof {
            assert(attrs@.skip(i as int)[0] == attrs@[i as int]);
            assert(attrs@.skip(i as int).skip(1) =~= attrs@.skip(i as int + 1));
        }
        match &attrs[i].meta {
            None => {
                return Err(DeriveError::InvalidAttribute);
            },
            Some(m) => {
                match m {
                    Meta::NameValue { path, lit } => {
                        if path.is_ident("doc") {
                            match lit {
                                Lit::Str(doc) => {
                                    let t = trim_text(doc);
                                    if full.as_str().is_empty() {
                                        full = t;
                                    } else {
                                        full.append("\n");
                                        full.append(t.as_str());
                                    }
                                },
                                _ => {},
                            }
                        }
                    },
                    _ => {},
                }
            },
        }
        i = i + 1;
    }
    proof {
        assert(attrs@.skip(n as int).len() == 0);
    }
    if full.as_str().is_empty() {
        Ok(None)
    } else {
        Ok(Some(full))
    }
}


/// The parameters of one validator construction: every element must be a
/// name-value pair whose value is a string holding an expression.
pub open spec fn spec_validator_params(items: Seq<NestedMeta>)
    -> Result<BuildParams<String>, DeriveError>
    decreases items,
{
    if items.len() == 0 {
        Ok(BuildParams::Nil)
    } else {
        match items[0] {
            NestedMeta::Meta(m) => match m {
                Meta::NameValue { path, lit } => match lit {
                    Lit::Str(value) => if parses_as_expr(value@) {
                        match spec_validator_params(items.skip(1)) {
                            Ok(rest) => Ok(BuildParams::Cons {
                                name: path,
                                value: value,
                                rest: Box::new(rest),
                            }),
                            Err(e) => Err(e),
                        }
                    } else {
                        Err(DeriveError::InvalidExpression)
                    },
                    _ => Err(DeriveError::ValidatorValueMustBeString),
                },
                _ => Err(DeriveError::InvalidValidatorProperty),
            },
            _ => Err(DeriveError::InvalidValidatorProperty),
        }
    }
}

/// One validator: `and`/`or` lists combine their members left to right, any
/// other list is a construction with named parameters, and a bare path is a
/// construction without parameters.
pub open spec fn spec_nested_validator(nm: NestedMeta) -> Result<ValidatorExpr, DeriveError>
    decreases nm, 1int,
{
    match nm {
        NestedMeta::Meta(m) => match m {
            Meta::List(ls) => if path_is(ls.path, "and"@) {
                spec_validator_chain(ls.nested@, true, None)
            } else if path_is(ls.path, "or"@) {
                spec_validator_chain(ls.nested@, false, None)
            } else {
                match spec_validator_params(ls.nested@) {
                    Ok(params) => Ok(ValidatorExpr::Build { path: ls.path, params }),
                    Err(e) => Err(e),
                }
            },
            Meta::Path(ty) => Ok(ValidatorExpr::Build { path: ty, params: BuildParams::Nil }),
            Meta::NameValue { .. } => Err(DeriveError::InvalidValidator),
        },
        NestedMeta::Lit(_) => Err(DeriveError::InvalidValidator),
    }
}

/// Combine member validators left to right with `and` or with `or`; an empty
/// combinator is malformed.
pub open spec fn spec_validator_chain(
    items: Seq<NestedMeta>,
    conjunction: bool,
    acc: Option<ValidatorExpr>,
) -> Result<ValidatorExpr, DeriveError>
    decreases items, 2int,
{
    if items.len() == 0 {
        match acc {
            Some(v) => Ok(v),
            None => Err(DeriveError::InvalidValidator),
        }
    } else {
        match spec_nested_validator(items[0]) {
            Err(e) => Err(e),
            Ok(item) => {
                let acc2 = match acc {
                    None => item,
                    Some(prev) => if conjunction {
                        ValidatorExpr::And(Box::new(prev), Box::new(item))
                    } else {
                        ValidatorExpr::Or(Box::new(prev), Box::new(item))
                    },
                };
                spec_validator_chain(items.skip(1), conjunction, Some(acc2))
            },
        }
    }
}

/// What a validator attribute list means: exactly one validator.
pub open spec fn spec_validator(args: Option<MetaList>)
    -> Result<Option<ValidatorExpr>, DeriveError>
{
    match args {
        None => Ok(None),
        Some(ls) => if ls.nested@.len() > 1 {
            Err(DeriveError::OnlyOneValidator)
        } else if ls.nested@.len() == 0 {
            Err(DeriveError::AtLeastOneValidator)
        } else {
            match spec_nested_validator(ls.nested@[0]) {
                Ok(v) => Ok(Some(v)),
                Err(e) => Err(e),
            }
        },
    }
}

/// Read the parameters of one validator construction.
fn validator_params(mut items: Vec<NestedMeta>) -> (r: Result<BuildParams<String>, DeriveError>)
    ensures
        r == spec_validator_params(items@),
    decreases items@.len(),
{
    if items.len() == 0 {
        return Ok(BuildParams::Nil);
    }
    let ghost orig = items@;
    let head = items.remove(0);
    proof {
        assert(items@ =~= orig.skip(1));
        assert(head == orig[0]);
    }
    match head {
        NestedMeta::Meta(m) => match m {
            Meta::NameValue { path, lit } => match lit {
                Lit::Str(value) => {
                    if check_expr_text(value.as_str()) {
                        match validator_params(items) {
                            Ok(rest) => Ok(BuildParams::Cons {
                                name: path,
                                value: value,
                                rest: Box::new(rest),
                            }),
                            Err(e) => Err(e),
                        }
                    } else {
                        Err(DeriveError::InvalidExpression)
                    }
                },
                _ => Err(DeriveError::ValidatorValueMustBeString),
            },
            _ => Err(DeriveError::InvalidValidatorProperty),
        },
        _ => Err(DeriveError::InvalidValidatorProperty),
    }
}

/// Read one validator.
pub fn generate_nested_validator(nm: NestedMeta) -> (r: Result<ValidatorExpr, DeriveError>)
    ensures
        r == spec_nested_validator(nm),
    decreases nm, 1int,
{
    match nm {
        NestedMeta::Meta(m) => match m {
            Meta::List(ls) => {
                if ls.path.is_ident("and") {
                    validator_chain(ls.nested, true, None)
                } else if ls.path.is_ident("or") {
                    validator_chain(ls.nested, false, None)
                } else {
                    match validator_params(ls.nested) {
                        Ok(params) => Ok(ValidatorExpr::Build { path: ls.path, params }),
                        Err(e) => Err(e),
                    }
                }
            },
            Meta::Path(ty) => Ok(ValidatorExpr::Build { path: ty, params: BuildParams::Nil }),
            Meta::NameValue { .. } => Err(DeriveError::InvalidValidator),
        },
        NestedMeta::Lit(_) => Err(DeriveError::InvalidValidator),
    }
}

/// Combine member validators left to right.
fn validator_chain(mut items: Vec<NestedMeta>, conjunction: bool, acc: Option<ValidatorExpr>)
    -> (r: Result<ValidatorExpr, DeriveError>)
    ensures
        r == spec_validator_chain(items@, conjunction, acc),
    decreases items@, 2int,
{
    if items.len() == 0 {
        return match acc {
            Some(v) => Ok(v),
            None => Err(DeriveError::InvalidValidator),
        };
    }
    let ghost orig = items@;
    let head = items.remove(0);
    proof {
        assert(items@ =~= orig.skip(1));
        assert(head == orig[0]);
    }
    match generate_nested_validator(head) {
        Err(e) => Err(e),
        Ok(item) => {
            let acc2 = match acc {
                None => item,
                Some(prev) => if conjunction {
                    ValidatorExpr::And(Box::new(prev), Box::new(item))
                } else {
                    ValidatorExpr::Or(Box::new(prev), Box::new(item))
                },
            };
            validator_chain(items, conjunction, Some(acc2))
        },
    }
}

/// Read a validator attribute list: exactly one validator must be declared;
/// validators are combined with `and` or `or` inside it.
pub fn generate_validator(args: Option<MetaList>)
    -> (r: Result<Option<ValidatorExpr>, DeriveError>)
    ensures
        r == spec_validator(args),
{
    match args {
        None => Ok(None),
        Some(ls) => {
            if ls.nested.len() > 1 {
                Err(DeriveError::OnlyOneValidator)
            } else if ls.nested.len() == 0 {
                Err(DeriveError::AtLeastOneValidator)
            } else {
                let mut nested = ls.nested;
                let head = nested.remove(0);
                match generate_nested_validator(head) {
                    Ok(v) => Ok(Some(v)),
                    Err(e) => Err(e),
                }
            }
        },
    }
}

/// The parameters of one guard construction: every element must be a
/// name-value pair whose string value is a parameter getter (marked text) or
/// an expression.
pub open spec fn spec_guard_params(items: Seq<NestedMeta>)
    -> Result<BuildParams<GuardParam>, DeriveError>
    decreases items,
{
    if items.len() == 0 {
        Ok(BuildParams::Nil)
    } else {
        match items[0] {
            NestedMeta::Meta(m) => match m {
                Meta::NameValue { path, lit } => match lit {
                    Lit::Str(value) => {
                        let param = if starts_with_marker(value@) {
                            Ok(GuardParam::Getter(value))
                        } else if parses_as_expr(value@) {
                            Ok(GuardParam::Expr(value))
                        } else {
                            Err(DeriveError::InvalidExpression)
                        };
                        match param {
                            Err(e) => Err(e),
                            Ok(p) => match spec_guard_params(items.skip(1)) {
                                Ok(rest) => Ok(BuildParams::Cons {
                                    name: path,
                                    value: p,
                                    rest: Box::new(rest),
                                }),
                                Err(e) => Err(e),
                            },
                        }
                    },
                    _ => Err(DeriveError::GuardValueMustBeString),
                },
                _ => Err(DeriveError::InvalidGuardProperty),
            },
            _ => Err(DeriveError::InvalidGuardProperty),
        }
    }
}

/// Combine the guards listed under one guard list: each listed guard must be
/// a construction, and later guards wrap the ones already gathered.
pub open spec fn spec_guard_chain(items: Seq<NestedMeta>, acc: Option<GuardExpr>)
    -> Result<Option<GuardExpr>, DeriveError>
    decreases items,
{
    if items.len() == 0 {
        Ok(acc)
    } else {
        match items[0] {
            NestedMeta::Meta(m) => match m {
                Meta::List(ls) => match spec_guard_params(ls.nested@) {
                    Err(e) => Err(e),
                    Ok(params) => {
                        let build = GuardBuild { path: ls.path, params };
                        let acc2 = match acc {
                            None => GuardExpr::One(build),
                            Some(prev) => GuardExpr::And(build, Box::new(prev)),
                        };
                        spec_guard_chain(items.skip(1), Some(acc2))
                    },
                },
                _ => Err(DeriveError::InvalidGuard),
            },
            _ => Err(DeriveError::InvalidGuard),
        }
    }
}

/// What a field's attribute list says about guards: the first list named as
/// the guard key is read as the guard chain; without one there is no guard.
pub open spec fn spec_guards(items: Seq<NestedMeta>, key: Seq<char>)
    -> Result<Option<GuardExpr>, DeriveError>
    decreases items,
{
    if items.len() == 0 {
        Ok(None)
    } else {
        match items[0] {
            NestedMeta::Meta(m) => match m {
                Meta::List(ls) => if path_is(ls.path, key) {
                    spec_guard_chain(ls.nested@, None)
                } else {
                    spec_guards(items.skip(1), key)
                },
                _ => spec_guards(items.skip(1), key),
            },
            _ => spec_guards(items.skip(1), key),
        }
    }
}

/// Read the parameters of one guard construction.
fn guard_params(mut items: Vec<NestedMeta>) -> (r: Result<BuildParams<GuardParam>, DeriveError>)
    ensures
        r == spec_guard_params(items@),
    decreases items@.len(),
{
    if items.len() == 0 {
        return Ok(BuildParams::Nil);
    }
    let ghost orig = items@;
    let head = items.remove(0);
    proof {
        assert(items@ =~= orig.skip(1));
        assert(head == orig[0]);
    }
    match head {
        NestedMeta::Meta(m) => match m {
            Meta::NameValue { path, lit } => match lit {
                Lit::Str(value) => {
                    let param = if text_starts_with_marker(&value) {
                        Ok(GuardParam::Getter(value))
                    } else if check_expr_text(value.as_str()) {
                        Ok(GuardParam::Expr(value))
                    } else {
                        Err(DeriveError::InvalidExpression)
                    };
                    match param {
                        Err(e) => Err(e),
                        Ok(p) => match guard_params(items) {
                            Ok(rest) => Ok(BuildParams::Cons {
                                name: path,
                                value: p,
                                rest: Box::new(rest),
                            }),
                            Err(e) => Err(e),
                        },
                    }
                },
                _ => Err(DeriveError::GuardValueMustBeString),
            },
            _ => Err(DeriveError::InvalidGuardProperty),
        },
        _ => Err(DeriveError::InvalidGuardProperty),
    }
}

/// Combine the guards of one guard list.
fn guard_chain(mut items: Vec<NestedMeta>, acc: Option<GuardExpr>)
    -> (r: Result<Option<GuardExpr>, DeriveError>)
    ensures
        r == spec_guard_chain(items@, acc),
    decreases items@.len(),
{
    if items.len() == 0 {
        return Ok(acc);
    }
    let ghost orig = items@;
    let head = items.remove(0);
    proof {
        assert(items@ =~= orig.skip(1));
        assert(head == orig[0]);
    }
    match head {
        NestedMeta::Meta(m) => match m {
            Meta::List(ls) => match guard_params(ls.nested) {
                Err(e) => Err(e),
                Ok(params) => {
                    let build = GuardBuild { path: ls.path, params };
                    let acc2 = match acc {
                        None => GuardExpr::One(build),
                        Some(prev) => GuardExpr::And(build, Box::new(prev)),
                    };
                    guard_chain(items, Some(acc2))
                },
            },
            _ => Err(DeriveError::InvalidGuard),
        },
        _ => Err(DeriveError::InvalidGuard),
    }
}

/// Read the guards a field declares before its resolver runs.
pub fn generate_guards(args: MetaList) -> (r: Result<Option<GuardExpr>, DeriveError>)
    ensures
        r == spec_guards(args.nested@, "guard"@),
{
    guards_scan(args.nested, String::from_str("guard"))
}

/// Read the guards a field declares on its resolved value.
pub fn generate_post_guards(args: MetaList) -> (r: Result<Option<GuardExpr>, DeriveError>)
    ensures
        r == spec_guards(args.nested@, "post_guard"@),
{
    guards_scan(args.nested, String::from_str("post_guard"))
}

/// Read one guard list's chain.
pub fn generate_guards_list(items: Vec<NestedMeta>) -> (r: Result<Option<GuardExpr>, DeriveError>)
    ensures
        r == spec_guard_chain(items@, None),
{
    guard_chain(items, None)
}

/// Find the first guard list under the given key and read it.
fn guards_scan(mut items: Vec<NestedMeta>, key: String)
    -> (r: Result<Option<GuardExpr>, DeriveError>)
    ensures
        r == spec_guards(items@, key@),
    decreases items@.len(),
{
    if items.len() == 0 {
        return Ok(None);
    }
    let ghost orig = items@;
    let head = items.remove(0);
    proof {
        assert(items@ =~= orig.skip(1));
        assert(head == orig[0]);
    }
    match head {
        NestedMeta::Meta(m) => match m {
            Meta::List(ls) => {
                if ls.path.is_ident(key.as_str()) {
                    guard_chain(ls.nested, None)
                } else {
                    guards_scan(items, key)
                }
            },
            _ => guards_scan(items, key),
        },
        _ => guards_scan(items, key),
    }
}

/// A default-value expression for generated code.
pub enum DefaultExpr {
    /// A string literal's text.
    Str(String),
    /// An integer literal.
    Int(i32),
    /// A float literal's text.
    Float(String),
    /// A boolean literal.
    Bool(bool),
    /// The type's own default.
    TypeDefault,
    /// Caller-given expression text.
    WithExpr(String),
}

/// What a default-value literal means for generated code.
pub open spec fn spec_default_value(lit: Lit) -> Result<DefaultExpr, DeriveError> {
    match lit {
        Lit::Str(v) => Ok(DefaultExpr::Str(v)),
        Lit::Int(i) => if i32::MIN <= i <= i32::MAX {
            Ok(DefaultExpr::Int(i as i32))
        } else {
            Err(DeriveError::UnsupportedDefaultLiteral)
        },
        Lit::Float(t) => Ok(DefaultExpr::Float(t)),
        Lit::Bool(b) => Ok(DefaultExpr::Bool(b)),
        Lit::Other => Err(DeriveError::UnsupportedDefaultLiteral),
    }
}

/// What the three default-related attributes together mean: explicit
/// expression text wins, then a literal default value, then the type's own
/// default, else no default at all.
pub open spec fn spec_default(
    default: bool,
    default_value: Option<Lit>,
    default_with: Option<String>,
) -> Result<Option<DefaultExpr>, DeriveError> {
    match default_with {
        Some(text) => if parses_as_tokens(text@) {
            Ok(Some(DefaultExpr::WithExpr(text)))
        } else {
            Err(DeriveError::InvalidExpression)
        },
        None => match default_value {
            Some(lit) => match spec_default_value(lit) {
                Ok(d) => Ok(Some(d)),
                Err(e) => Err(e),
            },
            None => if default {
                Ok(Some(DefaultExpr::TypeDefault))
            } else {
                Ok(None)
            },
        },
    }
}

/// Build the default-value expression of a literal.
pub fn generate_default_value(lit: Lit) -> (r: Result<DefaultExpr, DeriveError>)
    ensures
        r == spec_default_value(lit),
{
    match lit {
        Lit::Str(v) => Ok(DefaultExpr::Str(v)),
        Lit::Int(i) => {
            if i32::MIN as i128 <= i && i <= i32::MAX as i128 {
                Ok(DefaultExpr::Int(i as i32))
            } else {
                Err(DeriveError::UnsupportedDefaultLiteral)
            }
        },
        Lit::Float(t) => Ok(DefaultExpr::Float(t)),
        Lit::Bool(b) => Ok(DefaultExpr::Bool(b)),
        Lit::Other => Err(DeriveError::UnsupportedDefaultLiteral),
    }
}

/// Build caller-given default expression text.
pub fn generate_default_with(text: String) -> (r: Result<DefaultExpr, DeriveError>)
    ensures
        match r {
            Ok(d) => parses_as_tokens(text@) && d == DefaultExpr::WithExpr(text),
            Err(e) => !parses_as_tokens(text@) && e == DeriveError::InvalidExpression,
        },
{
    if check_tokens_str(text.as_str()) {
        Ok(DefaultExpr::WithExpr(text))
    } else {
        Err(DeriveError::InvalidExpression)
    }
}

/// Build the default-value expression of a field, from the three
/// default-related attributes.
pub fn generate_default(
    default: bool,
    default_value: Option<Lit>,
    default_with: Option<String>,
) -> (r: Result<Option<DefaultExpr>, DeriveError>)
    ensures
        r == spec_default(default, default_value, default_with),
{
    match default_with {
        Some(text) => match generate_default_with(text) {
            Ok(d) => Ok(Some(d)),
            Err(e) => Err(e),
        },
        None => match default_value {
            Some(lit) => match generate_default_value(lit) {
                Ok(d) => Ok(Some(d)),
                Err(e) => Err(e),
            },
            None => {
                if default {
                    Ok(Some(DefaultExpr::TypeDefault))
                } else {
                    Ok(None)
                }
            },
        },
    }
}

} // verus!
