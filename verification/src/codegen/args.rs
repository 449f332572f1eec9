//! The arguments of the code-generation attributes: one reader per derive
//! target, each verified against a specification fold over the attribute
//! tree. Property values are taken as written; a later occurrence of the
//! same property overrides an earlier one, exactly as the fold says.

use vstd::prelude::*;
use crate::codegen::Attribute;
use crate::codegen::DeriveError;
use crate::codegen::Lit;
use crate::codegen::Meta;
use crate::codegen::MetaList;
use crate::codegen::NestedMeta;
use crate::codegen::path_is;
use crate::codegen::utils::DefaultExpr;
use crate::codegen::utils::spec_default_value;
use crate::codegen::utils::parses_as_tokens;
use crate::codegen::utils::check_tokens_str;
use crate::codegen::utils::GuardExpr;
use crate::codegen::utils::generate_guards_list;
use crate::codegen::utils::spec_guard_chain;
pub use crate::registry::CacheControl;

verus! {

broadcast use vstd::std_specs::vec::group_vec_axioms;

/// One step of reading a cache hint.
pub open spec fn spec_cache_control_step(acc: CacheControl, arg: NestedMeta)
    -> Result<CacheControl, DeriveError> {
    match arg {
        NestedMeta::Meta(m) => match m {
            Meta::NameValue { path, lit } => if path_is(path, "max_age"@) {
                match lit {
                    Lit::Int(n) => if 0 <= n <= usize::MAX {
                        Ok(CacheControl { max_age: n as usize, ..acc })
                    } else {
                        Err(DeriveError::MaxAgeOutOfRange)
                    },
                    _ => Err(DeriveError::MaxAgeMustBeInt),
                }
            } else {
                Ok(acc)
            },
            Meta::Path(p) => if path_is(p, "public"@) {
                Ok(CacheControl { public: true, ..acc })
            } else if path_is(p, "private"@) {
                Ok(CacheControl { public: false, ..acc })
            } else {
                Ok(acc)
            },
            _ => Ok(acc),
        },
        _ => Ok(acc),
    }
}

/// Reading a cache hint: a fold of the steps over the list.
pub open spec fn spec_cache_control(acc: CacheControl, args: Seq<NestedMeta>)
    -> Result<CacheControl, DeriveError>
    decreases args,
{
    if args.len() == 0 {
        Ok(acc)
    } else {
        match spec_cache_control_step(acc, args[0]) {
            Err(e) => Err(e),
            Ok(acc2) => spec_cache_control(acc2, args.skip(1)),
        }
    }
}

impl CacheControl {
    /// Read a cache hint from its attribute list: `public`/`private` choose
    /// the scope, `max_age` the age in seconds.
    pub fn parse(ls: MetaList) -> (r: Result<CacheControl, DeriveError>)
        ensures
            r == spec_cache_control(CacheControl { public: true, max_age: 0 }, ls.nested@),
    {
        cache_control_fold(CacheControl { public: true, max_age: 0 }, ls.nested)
    }
}

fn cache_control_fold(acc: CacheControl, mut args: Vec<NestedMeta>)
    -> (r: Result<CacheControl, DeriveError>)
    ensures
        r == spec_cache_control(acc, args@),
    decreases args@.len(),
{
    if args.len() == 0 {
        return Ok(acc);
    }
    let ghost orig = args@;
    let head = args.remove(0);
    proof {
        assert(args@ =~= orig.skip(1));
        assert(head == orig[0]);
    }
    let step = match head {
        NestedMeta::Meta(m) => match m {
            Meta::NameValue { path, lit } => {
                if path.is_ident("max_age") {
                    match lit {
                        Lit::Int(n) => {
                            if 0 <= n && n <= usize::MAX as i128 {
                                Ok(CacheControl { max_age: n as usize, ..acc })
                            } else {
                                Err(DeriveError::MaxAgeOutOfRange)
                            }
                        },
                        _ => Err(DeriveError::MaxAgeMustBeInt),
                    }
                } else {
                    Ok(acc)
                }
            },
            Meta::Path(p) => {
                if p.is_ident("public") {
                    Ok(CacheControl { public: true, ..acc })
                } else if p.is_ident("private") {
                    Ok(CacheControl { public: false, ..acc })
                } else {
                    Ok(acc)
                }
            },
            _ => Ok(acc),
        },
        _ => Ok(acc),
    };
    match step {
        Err(e) => Err(e),
        Ok(acc2) => cache_control_fold(acc2, args),
    }
}

/// The arguments of an object derive.
pub struct Object {
    pub internal: bool,
    pub name: Option<String>,
    pub desc: Option<String>,
    pub cache_control: CacheControl,
    pub extends: bool,
}

/// One step of reading object arguments.
pub open spec fn spec_object_step(acc: Object, arg: NestedMeta) -> Result<Object, DeriveError> {
    match arg {
        NestedMeta::Meta(m) => match m {
            Meta::Path(p) => if path_is(p, "internal"@) {
                Ok(Object { internal: true, ..acc })
            } else if path_is(p, "extends"@) {
                Ok(Object { extends: true, ..acc })
            } else {
                Ok(acc)
            },
            Meta::NameValue { path, lit } => if path_is(path, "name"@) {
                match lit {
                    Lit::Str(s) => Ok(Object { name: Some(s), ..acc }),
                    _ => Err(DeriveError::NameMustBeString),
                }
            } else if path_is(path, "desc"@) {
                match lit {
                    Lit::Str(s) => Ok(Object { desc: Some(s), ..acc }),
                    _ => Err(DeriveError::DescMustBeString),
                }
            } else {
                Ok(acc)
            },
            Meta::List(ls) => if path_is(ls.path, "cache_control"@) {
                match spec_cache_control(CacheControl { public: true, max_age: 0 }, ls.nested@) {
                    Ok(cc) => Ok(Object { cache_control: cc, ..acc }),
                    Err(e) => Err(e),
                }
            } else {
                Ok(acc)
            },
        },
        _ => Ok(acc),
    }
}

/// Reading object arguments: a fold of the steps.
pub open spec fn spec_object(acc: Object, args: Seq<NestedMeta>) -> Result<Object, DeriveError>
    decreases args,
{
    if args.len() == 0 {
        Ok(acc)
    } else {
        match spec_object_step(acc, args[0]) {
            Err(e) => Err(e),
            Ok(acc2) => spec_object(acc2, args.skip(1)),
        }
    }
}

/// The object arguments before any attribute is read.
pub open spec fn object_defaults() -> Object {
    Object {
        internal: false,
        name: None,
        desc: None,
        cache_control: CacheControl { public: true, max_age: 0 },
        extends: false,
    }
}

impl Object {
    /// Read the arguments of an object derive.
    pub fn parse(args: Vec<NestedMeta>) -> (r: Result<Object, DeriveError>)
        ensures
            r == spec_object(object_defaults(), args@),
    {
        object_fold(
            Object {
                internal: false,
                name: None,
                desc: None,
                cache_control: CacheControl { public: true, max_age: 0 },
                extends: false,
            },
            args,
        )
    }
}

fn object_fold(acc: Object, mut args: Vec<NestedMeta>) -> (r: Result<Object, DeriveError>)
    ensures
        r == spec_object(acc, args@),
    decreases args@.len(),
{
    if args.len() == 0 {
        return Ok(acc);
    }
    let ghost orig = args@;
    let head = args.remove(0);
    proof {
        assert(args@ =~= orig.skip(1));
        assert(head == orig[0]);
    }
    let step = match head {
        NestedMeta::Meta(m) => match m {
            Meta::Path(p) => {
                if p.is_ident("internal") {
                    Ok(Object { internal: true, ..acc })
                } else if p.is_ident("extends") {
                    Ok(Object { extends: true, ..acc })
                } else {
                    Ok(acc)
                }
            },
            Meta::NameValue { path, lit } => {
                if path.is_ident("name") {
                    match lit {
                        Lit::Str(s) => Ok(Object { name: Some(s), ..acc }),
                        _ => Err(DeriveError::NameMustBeString),
                    }
                } else if path.is_ident("desc") {
                    match lit {
                        Lit::Str(s) => Ok(Object { desc: Some(s), ..acc }),
                        _ => Err(DeriveError::DescMustBeString),
                    }
                } else {
                    Ok(acc)
                }
            },
            Meta::List(ls) => {
                if ls.path.is_ident("cache_control") {
                    match CacheControl::parse(ls) {
                        Ok(cc) => Ok(Object { cache_control: cc, ..acc }),
                        Err(e) => Err(e),
                    }
                } else {
                    Ok(acc)
                }
            },
        },
        _ => Ok(acc),
    };
    match step {
        Err(e) => Err(e),
        Ok(acc2) => object_fold(acc2, args),
    }
}

/// The arguments of an enum derive.
pub struct Enum {
    pub internal: bool,
    pub name: Option<String>,
    pub desc: Option<String>,
    pub remote: Option<String>,
}

/// One step of reading enum arguments.
pub open spec fn spec_enum_step(acc: Enum, arg: NestedMeta) -> Result<Enum, DeriveError> {
    match arg {
        NestedMeta::Meta(m) => match m {
            Meta::Path(p) => if path_is(p, "internal"@) {
                Ok(Enum { internal: true, ..acc })
            } else {
                Ok(acc)
            },
            Meta::NameValue { path, lit } => if path_is(path, "name"@) {
                match lit {
                    Lit::Str(s) => Ok(Enum { name: Some(s), ..acc }),
                    _ => Err(DeriveError::NameMustBeString),
                }
            } else if path_is(path, "desc"@) {
                match lit {
                    Lit::Str(s) => Ok(Enum { desc: Some(s), ..acc }),
                    _ => Err(DeriveError::DescMustBeString),
                }
            } else if path_is(path, "remote"@) {
                match lit {
                    Lit::Str(s) => Ok(Enum { remote: Some(s), ..acc }),
                    _ => Err(DeriveError::RemoteMustBeString),
                }
            } else {
                Ok(acc)
            },
            _ => Ok(acc),
        },
        _ => Ok(acc),
    }
}

/// Reading enum arguments: a fold of the steps.
pub open spec fn spec_enum(acc: Enum, args: Seq<NestedMeta>) -> Result<Enum, DeriveError>
    decreases args,
{
    if args.len() == 0 {
        Ok(acc)
    } else {
        match spec_enum_step(acc, args[0]) {
            Err(e) => Err(e),
            Ok(acc2) => spec_enum(acc2, args.skip(1)),
        }
    }
}

/// The enum arguments before any attribute is read.
pub open spec fn enum_defaults() -> Enum {
    Enum { internal: false, name: None, desc: None, remote: None }
}

impl Enum {
    /// Read the arguments of an enum derive.
    pub fn parse(args: Vec<NestedMeta>) -> (r: Result<Enum, DeriveError>)
        ensures
            r == spec_enum(enum_defaults(), args@),
    {
        enum_fold(Enum { internal: false, name: None, desc: None, remote: None }, args)
    }
}

fn enum_fold(acc: Enum, mut args: Vec<NestedMeta>) -> (r: Result<Enum, DeriveError>)
    ensures
        r == spec_enum(acc, args@),
    decreases args@.len(),
{
    if args.len() == 0 {
        return Ok(acc);
    }
    let ghost orig = args@;
    let head = args.remove(0);
    proof {
        assert(args@ =~= orig.skip(1));
        assert(head == orig[0]);
    }
    let step = match head {
        NestedMeta::Meta(m) => match m {
            Meta::Path(p) => {
                if p.is_ident("internal") {
                    Ok(Enum { internal: true, ..acc })
                } else {
                    Ok(acc)
                }
            },
            Meta::NameValue { path, lit } => {
                if path.is_ident("name") {
                    match lit {
                        Lit::Str(s) => Ok(Enum { name: Some(s), ..acc }),
                        _ => Err(DeriveError::NameMustBeString),
                    }
                } else if path.is_ident("desc") {
                    match lit {
                        Lit::Str(s) => Ok(Enum { desc: Some(s), ..acc }),
                        _ => Err(DeriveError::DescMustBeString),
                    }
                } else if path.is_ident("remote") {
                    match lit {
                        Lit::Str(s) => Ok(Enum { remote: Some(s), ..acc }),
                        _ => Err(DeriveError::RemoteMustBeString),
                    }
                } else {
                    Ok(acc)
                }
            },
            _ => Ok(acc),
        },
        _ => Ok(acc),
    };
    match step {
        Err(e) => Err(e),
        Ok(acc2) => enum_fold(acc2, args),
    }
}

/// The arguments of an input-object derive.
pub struct InputObject {
    pub internal: bool,
    pub name: Option<String>,
    pub desc: Option<String>,
}

/// One step of reading input-object arguments.
pub open spec fn spec_input_object_step(acc: InputObject, arg: NestedMeta)
    -> Result<InputObject, DeriveError> {
    match arg {
        NestedMeta::Meta(m) => match m {
            Meta::Path(p) => if path_is(p, "internal"@) {
                Ok(InputObject { internal: true, ..acc })
            } else {
                Ok(acc)
            },
            Meta::NameValue { path, lit } => if path_is(path, "name"@) {
                match lit {
                    Lit::Str(s) => Ok(InputObject { name: Some(s), ..acc }),
                    _ => Err(DeriveError::NameMustBeString),
                }
            } else if path_is(path, "desc"@) {
                match lit {
                    Lit::Str(s) => Ok(InputObject { desc: Some(s), ..acc }),
                    _ => Err(DeriveError::DescMustBeString),
                }
            } else {
                Ok(acc)
            },
            _ => Ok(acc),
        },
        _ => Ok(acc),
    }
}

/// Reading input-object arguments: a fold of the steps.
pub open spec fn spec_input_object(acc: InputObject, args: Seq<NestedMeta>)
    -> Result<InputObject, DeriveError>
    decreases args,
{
    if args.len() == 0 {
        Ok(acc)
    } else {
        match spec_input_object_step(acc, args[0]) {
            Err(e) => Err(e),
            Ok(acc2) => spec_input_object(acc2, args.skip(1)),
        }
    }
}

/// The input-object arguments before any attribute is read.
pub open spec fn input_object_defaults() -> InputObject {
    InputObject { internal: false, name: None, desc: None }
}

impl InputObject {
    /// Read the arguments of an input-object derive.
    pub fn parse(args: Vec<NestedMeta>) -> (r: Result<InputObject, DeriveError>)
        ensures
            r == spec_input_object(input_object_defaults(), args@),
    {
        input_object_fold(InputObject { internal: false, name: None, desc: None }, args)
    }
}

fn input_object_fold(acc: InputObject, mut args: Vec<NestedMeta>)
    -> (r: Result<InputObject, DeriveError>)
    ensures
        r == spec_input_object(acc, args@),
    decreases args@.len(),
{
    if args.len() == 0 {
        return Ok(acc);
    }
    let ghost orig = args@;
    let head = args.remove(0);
    proof {
        assert(args@ =~= orig.skip(1));
        assert(head == orig[0]);
    }
    let step = match head {
        NestedMeta::Meta(m) => match m {
            Meta::Path(p) => {
                if p.is_ident("internal") {
                    Ok(InputObject { internal: true, ..acc })
                } else {
                    Ok(acc)
                }
            },
            Meta::NameValue { path, lit } => {
                if path.is_ident("name") {
                    match lit {
                        Lit::Str(s) => Ok(InputObject { name: Some(s), ..acc }),
                        _ => Err(DeriveError::NameMustBeString),
                    }
                } else if path.is_ident("desc") {
                    match lit {
                        Lit::Str(s) => Ok(InputObject { desc: Some(s), ..acc }),
                        _ => Err(DeriveError::DescMustBeString),
                    }
                } else {
                    Ok(acc)
                }
            },
            _ => Ok(acc),
        },
        _ => Ok(acc),
    };
    match step {
        Err(e) => Err(e),
        Ok(acc2) => input_object_fold(acc2, args),
    }
}

/// The arguments of a scalar declaration.
pub struct Scalar {
    pub internal: bool,
    pub name: Option<String>,
    pub desc: Option<String>,
}

/// One step of reading scalar arguments.
pub open spec fn spec_scalar_step(acc: Scalar, arg: NestedMeta) -> Result<Scalar, DeriveError> {
    match arg {
        NestedMeta::Meta(m) => match m {
            Meta::Path(p) => if path_is(p, "internal"@) {
                Ok(Scalar { internal: true, ..acc })
            } else {
                Ok(acc)
            },
            Meta::NameValue { path, lit } => if path_is(path, "name"@) {
                match lit {
                    Lit::Str(s) => Ok(Scalar { name: Some(s), ..acc }),
                    _ => Err(DeriveError::NameMustBeString),
                }
            } else if path_is(path, "desc"@) {
                match lit {
                    Lit::Str(s) => Ok(Scalar { desc: Some(s), ..acc }),
                    _ => Err(DeriveError::DescMustBeString),
                }
            } else {
                Ok(acc)
            },
            _ => Ok(acc),
        },
        _ => Ok(acc),
    }
}

/// Reading scalar arguments: a fold of the steps.
pub open spec fn spec_scalar(acc: Scalar, args: Seq<NestedMeta>) -> Result<Scalar, DeriveError>
    decreases args,
{
    if args.len() == 0 {
        Ok(acc)
    } else {
        match spec_scalar_step(acc, args[0]) {
            Err(e) => Err(e),
            Ok(acc2) => spec_scalar(acc2, args.skip(1)),
        }
    }
}

/// The scalar arguments before any attribute is read.
pub open spec fn scalar_defaults() -> Scalar {
    Scalar { internal: false, name: None, desc: None }
}

impl Scalar {
    /// Read the arguments of a scalar declaration.
    pub fn parse(args: Vec<NestedMeta>) -> (r: Result<Scalar, DeriveError>)
        ensures
            r == spec_scalar(scalar_defaults(), args@),
    {
        scalar_fold(Scalar { internal: false, name: None, desc: None }, args)
    }
}

fn scalar_fold(acc: Scalar, mut args: Vec<NestedMeta>) -> (r: Result<Scalar, DeriveError>)
    ensures
        r == spec_scalar(acc, args@),
    decreases args@.len(),
{
    if args.len() == 0 {
        return Ok(acc);
    }
    let ghost orig = args@;
    let head = args.remove(0);
    proof {
        assert(args@ =~= orig.skip(1));
        assert(head == orig[0]);
    }
    let step = match head {
        NestedMeta::Meta(m) => match m {
            Meta::Path(p) => {
                if p.is_ident("internal") {
                    Ok(Scalar { internal: true, ..acc })
                } else {
                    Ok(acc)
                }
            },
            Meta::NameValue { path, lit } => {
                if path.is_ident("name") {
                    match lit {
                        Lit::Str(s) => Ok(Scalar { name: Some(s), ..acc }),
                        _ => Err(DeriveError::NameMustBeString),
                    }
                } else if path.is_ident("desc") {
                    match lit {
                        Lit::Str(s) => Ok(Scalar { desc: Some(s), ..acc }),
                        _ => Err(DeriveError::DescMustBeString),
                    }
                } else {
                    Ok(acc)
                }
            },
            _ => Ok(acc),
        },
        _ => Ok(acc),
    };
    match step {
        Err(e) => Err(e),
        Ok(acc2) => scalar_fold(acc2, args),
    }
}

/// The arguments of one union member.
pub struct UnionItem {
    pub flatten: bool,
}

/// Whether any `item` attribute of the member carries the `flatten` flag; an
/// attribute whose tokens are not structured metadata is an error.
pub open spec fn spec_union_item(attrs: Seq<Attribute>, acc: bool) -> Result<bool, DeriveError>
    decreases attrs,
{
    if attrs.len() == 0 {
        Ok(acc)
    } else if path_is(attrs[0].path, "item"@) {
        match attrs[0].meta {
            None => Err(DeriveError::InvalidAttribute),
            Some(m) => match m {
                Meta::List(ls) => spec_union_item(attrs.skip(1), acc || has_flatten(ls.nested@)),
                _ => spec_union_item(attrs.skip(1), acc),
            },
        }
    } else {
        spec_union_item(attrs.skip(1), acc)
    }
}

/// Whether a list carries a bare `flatten` path.
pub open spec fn has_flatten(items: Seq<NestedMeta>) -> bool
    decreases items,
{
    if items.len() == 0 {
        false
    } else {
        let here = match items[0] {
            NestedMeta::Meta(m) => match m {
                Meta::Path(p) => path_is(p, "flatten"@),
                _ => false,
            },
            _ => false,
        };
        here || has_flatten(items.skip(1))
    }
}

impl UnionItem {
    /// Read the arguments of one union member.
    pub fn parse(attrs: Vec<Attribute>) -> (r: Result<UnionItem, DeriveError>)
        ensures
            match r {
                Ok(u) => spec_union_item(attrs@, false) == Ok::<bool, DeriveError>(u.flatten),
                Err(e) => spec_union_item(attrs@, false) == Err::<bool, DeriveError>(e),
            },
    {
        match union_item_fold(attrs, false) {
            Ok(flatten) => Ok(UnionItem { flatten }),
            Err(e) => Err(e),
        }
    }
}

fn union_item_fold(mut attrs: Vec<Attribute>, acc: bool) -> (r: Result<bool, DeriveError>)
    ensures
        r == spec_union_item(attrs@, acc),
    decreases attrs@.len(),
{
    if attrs.len() == 0 {
        return Ok(acc);
    }
    let ghost orig = attrs@;
    let head = attrs.remove(0);
    proof {
        assert(attrs@ =~= orig.skip(1));
        assert(head == orig[0]);
    }
    if head.path.is_ident("item") {
        match head.meta {
            None => Err(DeriveError::InvalidAttribute),
            Some(m) => match m {
                Meta::List(ls) => {
                    let found = flatten_scan(ls.nested);
                    union_item_fold(attrs, acc || found)
                },
                _ => union_item_fold(attrs, acc),
            },
        }
    } else {
        union_item_fold(attrs, acc)
    }
}

fn flatten_scan(mut items: Vec<NestedMeta>) -> (r: bool)
    ensures
        r == has_flatten(items@),
    decreases items@.len(),
{
    if items.len() == 0 {
        return false;
    }
    let ghost orig = items@;
    let head = items.remove(0);
    proof {
        assert(items@ =~= orig.skip(1));
        assert(head == orig[0]);
    }
    let here = match head {
        NestedMeta::Meta(m) => match m {
            Meta::Path(p) => p.is_ident("flatten"),
            _ => false,
        },
        _ => false,
    };
    if here {
        true
    } else {
        flatten_scan(items)
    }
}

/// A federation entity marker on a resolver.
pub struct Entity {
}

/// Whether any attribute is the entity marker, as a path or as a list; an
/// attribute whose tokens are not structured metadata is an error.
pub open spec fn spec_entity(attrs: Seq<Attribute>) -> Result<bool, DeriveError>
    decreases attrs,
{
    if attrs.len() == 0 {
        Ok(false)
    } else {
        match attrs[0].meta {
            None => Err(DeriveError::InvalidAttribute),
            Some(m) => {
                let here = match m {
                    Meta::List(ls) => path_is(ls.path, "entity"@),
                    Meta::Path(p) => path_is(p, "entity"@),
                    _ => false,
                };
                if here {
                    Ok(true)
                } else {
                    spec_entity(attrs.skip(1))
                }
            },
        }
    }
}

impl Entity {
    /// Detect the entity marker among a resolver's attributes.
    pub fn parse(attrs: Vec<Attribute>) -> (r: Result<Option<Entity>, DeriveError>)
        ensures
            match r {
                Ok(opt) => spec_entity(attrs@) == Ok::<bool, DeriveError>(opt is Some),
                Err(e) => spec_entity(attrs@) == Err::<bool, DeriveError>(e),
            },
        decreases attrs@.len(),
    {
        let mut attrs = attrs;
        if attrs.len() == 0 {
            return Ok(None);
        }
        let ghost orig = attrs@;
        let head = attrs.remove(0);
        proof {
            assert(attrs@ =~= orig.skip(1));
            assert(head == orig[0]);
        }
        match head.meta {
            None => Err(DeriveError::InvalidAttribute),
            Some(m) => {
                let here = match m {
                    Meta::List(ls) => ls.path.is_ident("entity"),
                    Meta::Path(p) => p.is_ident("entity"),
                    _ => false,
                };
                if here {
                    Ok(Some(Entity {}))
                } else {
                    Entity::parse(attrs)
                }
            },
        }
    }
}


/// A copy of a literal with the same value.
pub fn clone_lit(l: &Lit) -> (r: Lit)
    ensures
        r == *l,
{
    match l {
        Lit::Str(s) => Lit::Str(s.clone()),
        Lit::Int(i) => Lit::Int(*i),
        Lit::Float(t) => Lit::Float(t.clone()),
        Lit::Bool(b) => Lit::Bool(*b),
        Lit::Other => Lit::Other,
    }
}

/// The arguments of one enum value.
pub struct EnumItem {
    pub name: Option<String>,
    pub desc: Option<String>,
    pub deprecation: Option<String>,
}

/// One step of reading an enum value's `item` list.
pub open spec fn spec_enum_item_step(acc: EnumItem, arg: NestedMeta)
    -> Result<EnumItem, DeriveError> {
    match arg {
        NestedMeta::Meta(m) => match m {
            Meta::NameValue { path, lit } => if path_is(path, "name"@) {
                match lit {
                    Lit::Str(s) => Ok(EnumItem { name: Some(s), ..acc }),
                    _ => Err(DeriveError::NameMustBeString),
                }
            } else if path_is(path, "desc"@) {
                match lit {
                    Lit::Str(s) => Ok(EnumItem { desc: Some(s), ..acc }),
                    _ => Err(DeriveError::DescMustBeString),
                }
            } else if path_is(path, "deprecation"@) {
                match lit {
                    Lit::Str(s) => Ok(EnumItem { deprecation: Some(s), ..acc }),
                    _ => Err(DeriveError::DeprecationMustBeString),
                }
            } else {
                Ok(acc)
            },
            _ => Ok(acc),
        },
        _ => Ok(acc),
    }
}

/// Reading an enum value's `item` list: a fold of the steps.
pub open spec fn spec_enum_item_list(acc: EnumItem, items: Seq<NestedMeta>)
    -> Result<EnumItem, DeriveError>
    decreases items,
{
    if items.len() == 0 {
        Ok(acc)
    } else {
        match spec_enum_item_step(acc, items[0]) {
            Err(e) => Err(e),
            Ok(acc2) => spec_enum_item_list(acc2, items.skip(1)),
        }
    }
}

/// Reading an enum value's attributes: each `item` attribute must carry
/// structured metadata; its list entries are folded in order.
pub open spec fn spec_enum_item(acc: EnumItem, attrs: Seq<Attribute>)
    -> Result<EnumItem, DeriveError>
    decreases attrs,
{
    if attrs.len() == 0 {
        Ok(acc)
    } else if path_is(attrs[0].path, "item"@) {
        match attrs[0].meta {
            None => Err(DeriveError::InvalidAttribute),
            Some(m) => match m {
                Meta::List(ls) => match spec_enum_item_list(acc, ls.nested@) {
                    Err(e) => Err(e),
                    Ok(acc2) => spec_enum_item(acc2, attrs.skip(1)),
                },
                _ => spec_enum_item(acc, attrs.skip(1)),
            },
        }
    } else {
        spec_enum_item(acc, attrs.skip(1))
    }
}

/// The enum-value arguments before any attribute is read.
pub open spec fn enum_item_defaults() -> EnumItem {
    EnumItem { name: None, desc: None, deprecation: None }
}

impl EnumItem {
    /// Read the arguments of one enum value; a missing description falls
    /// back to the value's documentation text.
    pub fn parse(attrs: Vec<Attribute>) -> (r: Result<EnumItem, DeriveError>)
        ensures
            ({
                let base = spec_enum_item(enum_item_defaults(), attrs@);
                let docs = crate::codegen::utils::spec_rustdoc(attrs@, Seq::empty());
                match r {
                    Err(e) => base == Err::<EnumItem, DeriveError>(e) || (base is Ok
                        && base->Ok_0.desc is None && docs == Err::<Seq<char>, DeriveError>(e)),
                    Ok(item) => {
                        &&& base is Ok
                        &&& item.name == base->Ok_0.name
                        &&& item.deprecation == base->Ok_0.deprecation
                        &&& match base->Ok_0.desc {
                            Some(d) => item.desc == Some(d),
                            None => {
                                &&& docs is Ok
                                &&& match item.desc {
                                    Some(s) => s@ == docs->Ok_0 && s@.len() > 0,
                                    None => docs->Ok_0.len() == 0,
                                }
                            },
                        }
                    },
                }
            }),
    {
        let docs = match crate::codegen::utils::get_rustdoc(&attrs) {
            Ok(d) => d,
            Err(e) => {
                match enum_item_fold(EnumItem { name: None, desc: None, deprecation: None }, attrs)
                {
                    Err(e2) => {
                        return Err(e2);
                    },
                    Ok(item) => {
                        if matches!(item.desc, Some(_)) {
                            return Ok(item);
                        }
                        return Err(e);
                    },
                }
            },
        };
        match enum_item_fold(EnumItem { name: None, desc: None, deprecation: None }, attrs) {
            Err(e) => Err(e),
            Ok(item) => {
                if matches!(item.desc, Some(_)) {
                    Ok(item)
                } else {
                    match docs {
                        Some(s) => Ok(EnumItem { desc: Some(s), ..item }),
                        None => Ok(item),
                    }
                }
            },
        }
    }
}

fn enum_item_fold(acc: EnumItem, mut attrs: Vec<Attribute>) -> (r: Result<EnumItem, DeriveError>)
    ensures
        r == spec_enum_item(acc, attrs@),
    decreases attrs@.len(),
{
    if attrs.len() == 0 {
        return Ok(acc);
    }
    let ghost orig = attrs@;
    let head = attrs.remove(0);
    proof {
        assert(attrs@ =~= orig.skip(1));
        assert(head == orig[0]);
    }
    if head.path.is_ident("item") {
        match head.meta {
            None => Err(DeriveError::InvalidAttribute),
            Some(m) => match m {
                Meta::List(ls) => match enum_item_list_fold(acc, ls.nested) {
                    Err(e) => Err(e),
                    Ok(acc2) => enum_item_fold(acc2, attrs),
                },
                _ => enum_item_fold(acc, attrs),
            },
        }
    } else {
        enum_item_fold(acc, attrs)
    }
}

fn enum_item_list_fold(acc: EnumItem, mut items: Vec<NestedMeta>)
    -> (r: Result<EnumItem, DeriveError>)
    ensures
        r == spec_enum_item_list(acc, items@),
    decreases items@.len(),
{
    if items.len() == 0 {
        return Ok(acc);
    }
    let ghost orig = items@;
    let head = items.remove(0);
    proof {
        assert(items@ =~= orig.skip(1));
        assert(head == orig[0]);
    }
    let step = match head {
        NestedMeta::Meta(m) => match m {
            Meta::NameValue { path, lit } => {
                if path.is_ident("name") {
                    match lit {
                        Lit::Str(s) => Ok(EnumItem { name: Some(s), ..acc }),
                        _ => Err(DeriveError::NameMustBeString),
                    }
                } else if path.is_ident("desc") {
                    match lit {
                        Lit::Str(s) => Ok(EnumItem { desc: Some(s), ..acc }),
                        _ => Err(DeriveError::DescMustBeString),
                    }
                } else if path.is_ident("deprecation") {
                    match lit {
                        Lit::Str(s) => Ok(EnumItem { deprecation: Some(s), ..acc }),
                        _ => Err(DeriveError::DeprecationMustBeString),
                    }
                } else {
                    Ok(acc)
                }
            },
            _ => Ok(acc),
        },
        _ => Ok(acc),
    };
    match step {
        Err(e) => Err(e),
        Ok(acc2) => enum_item_list_fold(acc2, items),
    }
}


/// The arguments of one resolver argument.
pub struct Argument {
    pub name: Option<String>,
    pub desc: Option<String>,
    pub default: bool,
    pub default_value: Option<Lit>,
    pub default_with: Option<String>,
    pub validator: Option<MetaList>,
    /// Federation: the argument is part of the entity key.
    pub key: bool,
}

/// One step of reading an `arg` list entry.
pub open spec fn spec_argument_step(acc: Argument, arg: NestedMeta)
    -> Result<Argument, DeriveError> {
    match arg {
        NestedMeta::Meta(m) => match m {
            Meta::Path(p) => if path_is(p, "default"@) {
                Ok(Argument { default: true, ..acc })
            } else if path_is(p, "key"@) {
                Ok(Argument { key: true, ..acc })
            } else {
                Ok(acc)
            },
            Meta::NameValue { path, lit } => if path_is(path, "name"@) {
                match lit {
                    Lit::Str(s) => Ok(Argument { name: Some(s), ..acc }),
                    _ => Err(DeriveError::NameMustBeString),
                }
            } else if path_is(path, "desc"@) {
                match lit {
                    Lit::Str(s) => Ok(Argument { desc: Some(s), ..acc }),
                    _ => Err(DeriveError::DescMustBeString),
                }
            } else if path_is(path, "default_value"@) {
                Ok(Argument { default_value: Some(lit), ..acc })
            } else if path_is(path, "default_with"@) {
                match lit {
                    Lit::Str(s) => if parses_as_tokens(s@) {
                        Ok(Argument { default_with: Some(s), ..acc })
                    } else {
                        Err(DeriveError::InvalidExpression)
                    },
                    _ => Err(DeriveError::DefaultWithMustBeString),
                }
            } else {
                Ok(acc)
            },
            _ => Ok(acc),
        },
        _ => Ok(acc),
    }
}

/// Reading an `arg` list: a fold of the steps.
pub open spec fn spec_argument_list(acc: Argument, items: Seq<NestedMeta>)
    -> Result<Argument, DeriveError>
    decreases items,
{
    if items.len() == 0 {
        Ok(acc)
    } else {
        match spec_argument_step(acc, items[0]) {
            Err(e) => Err(e),
            Ok(acc2) => spec_argument_list(acc2, items.skip(1)),
        }
    }
}

/// Reading a resolver argument's attributes: each attribute must carry
/// structured metadata; an `arg` list is folded and then kept whole as the
/// validator source.
pub open spec fn spec_argument(acc: Argument, attrs: Seq<Attribute>)
    -> Result<Argument, DeriveError>
    decreases attrs,
{
    if attrs.len() == 0 {
        Ok(acc)
    } else {
        match attrs[0].meta {
            None => Err(DeriveError::InvalidAttribute),
            Some(m) => match m {
                Meta::List(ls) => if path_is(ls.path, "arg"@) {
                    match spec_argument_list(acc, ls.nested@) {
                        Err(e) => Err(e),
                        Ok(acc2) => spec_argument(
                            Argument { validator: Some(ls), ..acc2 },
                            attrs.skip(1),
                        ),
                    }
                } else {
                    spec_argument(acc, attrs.skip(1))
                },
                _ => spec_argument(acc, attrs.skip(1)),
            },
        }
    }
}

/// The argument description before any attribute is read.
pub open spec fn argument_defaults() -> Argument {
    Argument {
        name: None,
        desc: None,
        default: false,
        default_value: None,
        default_with: None,
        validator: None,
        key: false,
    }
}

impl Argument {
    /// Read the arguments of one resolver argument.
    pub fn parse(attrs: Vec<Attribute>) -> (r: Result<Argument, DeriveError>)
        ensures
            r == spec_argument(argument_defaults(), attrs@),
    {
        argument_fold(
            Argument {
                name: None,
                desc: None,
                default: false,
                default_value: None,
                default_with: None,
                validator: None,
                key: false,
            },
            attrs,
        )
    }
}

fn argument_fold(acc: Argument, mut attrs: Vec<Attribute>) -> (r: Result<Argument, DeriveError>)
    ensures
        r == spec_argument(acc, attrs@),
    decreases attrs@.len(),
{
    if attrs.len() == 0 {
        return Ok(acc);
    }
    let ghost orig = attrs@;
    let head = attrs.remove(0);
    proof {
        assert(attrs@ =~= orig.skip(1));
        assert(head == orig[0]);
    }
    match head.meta {
        None => Err(DeriveError::InvalidAttribute),
        Some(m) => match m {
            Meta::List(ls) => {
                if ls.path.is_ident("arg") {
                    proof {
                        assert(ls.nested@.skip(0) =~= ls.nested@);
                    }
                    match argument_scan(acc, &ls.nested, 0) {
                        Err(e) => Err(e),
                        Ok(acc2) => argument_fold(
                            Argument { validator: Some(ls), ..acc2 },
                            attrs,
                        ),
                    }
                } else {
                    argument_fold(acc, attrs)
                }
            },
            _ => argument_fold(acc, attrs),
        },
    }
}

fn argument_scan(acc: Argument, items: &Vec<NestedMeta>, i: usize)
    -> (r: Result<Argument, DeriveError>)
    requires
        i <= items@.len(),
    ensures
        r == spec_argument_list(acc, items@.skip(i as int)),
    decreases items@.len() - i,
{
    if i == items.len() {
        return Ok(acc);
    }
    proof {
        assert(items@.skip(i as int)[0] == items@[i as int]);
        assert(items@.skip(i as int).skip(1) =~= items@.skip(i as int + 1));
    }
    let step = match &items[i] {
        NestedMeta::Meta(m) => match m {
            Meta::Path(p) => {
                if p.is_ident("default") {
                    Ok(Argument { default: true, ..acc })
                } else if p.is_ident("key") {
                    Ok(Argument { key: true, ..acc })
                } else {
                    Ok(acc)
                }
            },
            Meta::NameValue { path, lit } => {
                if path.is_ident("name") {
                    match lit {
                        Lit::Str(s) => Ok(Argument { name: Some(s.clone()), ..acc }),
                        _ => Err(DeriveError::NameMustBeString),
                    }
                } else if path.is_ident("desc") {
                    match lit {
                        Lit::Str(s) => Ok(Argument { desc: Some(s.clone()), ..acc }),
                        _ => Err(DeriveError::DescMustBeString),
                    }
                } else if path.is_ident("default_value") {
                    Ok(Argument { default_value: Some(clone_lit(lit)), ..acc })
                } else if path.is_ident("default_with") {
                    match lit {
                        Lit::Str(s) => {
                            if check_tokens_str(s.as_str()) {
                                Ok(Argument { default_with: Some(s.clone()), ..acc })
                            } else {
                                Err(DeriveError::InvalidExpression)
                            }
                        },
                        _ => Err(DeriveError::DefaultWithMustBeString),
                    }
                } else {
                    Ok(acc)
                }
            },
            _ => Ok(acc),
        },
        _ => Ok(acc),
    };
    match step {
        Err(e) => Err(e),
        Ok(acc2) => argument_scan(acc2, items, i + 1),
    }
}

/// The arguments of one input-object field.
pub struct InputField {
    pub name: Option<String>,
    pub desc: Option<String>,
    pub default: bool,
    pub default_value: Option<Lit>,
    pub default_with: Option<String>,
    pub validator: Option<MetaList>,
    pub flatten: bool,
}

/// One step of reading an input field's `field` list entry; input fields
/// cannot be skipped.
pub open spec fn spec_input_field_step(acc: InputField, arg: NestedMeta)
    -> Result<InputField, DeriveError> {
    match arg {
        NestedMeta::Meta(m) => match m {
            Meta::Path(p) => if path_is(p, "skip"@) {
                Err(DeriveError::SkipNotAllowedHere)
            } else if path_is(p, "default"@) {
                Ok(InputField { default: true, ..acc })
            } else if path_is(p, "flatten"@) {
                Ok(InputField { flatten: true, ..acc })
            } else {
                Ok(acc)
            },
            Meta::NameValue { path, lit } => if path_is(path, "name"@) {
                match lit {
                    Lit::Str(s) => Ok(InputField { name: Some(s), ..acc }),
                    _ => Err(DeriveError::NameMustBeString),
                }
            } else if path_is(path, "desc"@) {
                match lit {
                    Lit::Str(s) => Ok(InputField { desc: Some(s), ..acc }),
                    _ => Err(DeriveError::DescMustBeString),
                }
            } else if path_is(path, "default_value"@) {
                Ok(InputField { default_value: Some(lit), ..acc })
            } else if path_is(path, "default_with"@) {
                match lit {
                    Lit::Str(s) => if parses_as_tokens(s@) {
                        Ok(InputField { default_with: Some(s), ..acc })
                    } else {
                        Err(DeriveError::InvalidExpression)
                    },
                    _ => Err(DeriveError::DefaultWithMustBeString),
                }
            } else {
                Ok(acc)
            },
            _ => Ok(acc),
        },
        _ => Ok(acc),
    }
}

/// Reading an input field's `field` list: a fold of the steps.
pub open spec fn spec_input_field_list(acc: InputField, items: Seq<NestedMeta>)
    -> Result<InputField, DeriveError>
    decreases items,
{
    if items.len() == 0 {
        Ok(acc)
    } else {
        match spec_input_field_step(acc, items[0]) {
            Err(e) => Err(e),
            Ok(acc2) => spec_input_field_list(acc2, items.skip(1)),
        }
    }
}

/// Reading an input field's attributes: each `field` attribute must carry
/// structured metadata; its list is folded and then kept whole as the
/// validator source.
pub open spec fn spec_input_field(acc: InputField, attrs: Seq<Attribute>)
    -> Result<InputField, DeriveError>
    decreases attrs,
{
    if attrs.len() == 0 {
        Ok(acc)
    } else if path_is(attrs[0].path, "field"@) {
        match attrs[0].meta {
            None => Err(DeriveError::InvalidAttribute),
            Some(m) => match m {
                Meta::List(ls) => match spec_input_field_list(acc, ls.nested@) {
                    Err(e) => Err(e),
                    Ok(acc2) => spec_input_field(
                        InputField { validator: Some(ls), ..acc2 },
                        attrs.skip(1),
                    ),
                },
                _ => spec_input_field(acc, attrs.skip(1)),
            },
        }
    } else {
        spec_input_field(acc, attrs.skip(1))
    }
}

/// The input-field description before any attribute is read.
pub open spec fn input_field_defaults() -> InputField {
    InputField {
        name: None,
        desc: None,
        default: false,
        default_value: None,
        default_with: None,
        validator: None,
        flatten: false,
    }
}

impl InputField {
    /// Read the arguments of one input-object field; a missing description
    /// falls back to the field's documentation text.
    pub fn parse(attrs: Vec<Attribute>) -> (r: Result<InputField, DeriveError>)
        ensures
            ({
                let base = spec_input_field(input_field_defaults(), attrs@);
                let docs = crate::codegen::utils::spec_rustdoc(attrs@, Seq::empty());
                match r {
                    Err(e) => base == Err::<InputField, DeriveError>(e) || (base is Ok
                        && base->Ok_0.desc is None && docs == Err::<Seq<char>, DeriveError>(e)),
                    Ok(item) => {
                        &&& base is Ok
                        &&& item.name == base->Ok_0.name
                        &&& item.default == base->Ok_0.default
                        &&& item.default_value == base->Ok_0.default_value
                        &&& item.default_with == base->Ok_0.default_with
                        &&& item.validator == base->Ok_0.validator
                        &&& item.flatten == base->Ok_0.flatten
                        &&& match base->Ok_0.desc {
                            Some(d) => item.desc == Some(d),
                            None => {
                                &&& docs is Ok
                                &&& match item.desc {
                                    Some(s) => s@ == docs->Ok_0 && s@.len() > 0,
                                    None => docs->Ok_0.len() == 0,
                                }
                            },
                        }
                    },
                }
            }),
    {
        let docs = match crate::codegen::utils::get_rustdoc(&attrs) {
            Ok(d) => d,
            Err(e) => {
                match input_field_fold(input_field_empty(), attrs) {
                    Err(e2) => {
                        return Err(e2);
                    },
                    Ok(item) => {
                        if matches!(item.desc, Some(_)) {
                            return Ok(item);
                        }
                        return Err(e);
                    },
                }
            },
        };
        match input_field_fold(input_field_empty(), attrs) {
            Err(e) => Err(e),
            Ok(item) => {
                if matches!(item.desc, Some(_)) {
                    Ok(item)
                } else {
                    match docs {
                        Some(s) => Ok(InputField { desc: Some(s), ..item }),
                        None => Ok(item),
                    }
                }
            },
        }
    }
}

fn input_field_empty() -> (r: InputField)
    ensures
        r == input_field_defaults(),
{
    InputField {
        name: None,
        desc: None,
        default: false,
        default_value: None,
        default_with: None,
        validator: None,
        flatten: false,
    }
}

fn input_field_fold(acc: InputField, mut attrs: Vec<Attribute>)
    -> (r: Result<InputField, DeriveError>)
    ensures
        r == spec_input_field(acc, attrs@),
    decreases attrs@.len(),
{
    if attrs.len() == 0 {
        return Ok(acc);
    }
    let ghost orig = attrs@;
    let head = attrs.remove(0);
    proof {
        assert(attrs@ =~= orig.skip(1));
        assert(head == orig[0]);
    }
    if head.path.is_ident("field") {
        match head.meta {
            None => Err(DeriveError::InvalidAttribute),
            Some(m) => match m {
                Meta::List(ls) => {
                    proof {
                        assert(ls.nested@.skip(0) =~= ls.nested@);
                    }
                    match input_field_scan(acc, &ls.nested, 0) {
                        Err(e) => Err(e),
                        Ok(acc2) => input_field_fold(
                            InputField { validator: Some(ls), ..acc2 },
                            attrs,
                        ),
                    }
                },
                _ => input_field_fold(acc, attrs),
            },
        }
    } else {
        input_field_fold(acc, attrs)
    }
}

fn input_field_scan(acc: InputField, items: &Vec<NestedMeta>, i: usize)
    -> (r: Result<InputField, DeriveError>)
    requires
        i <= items@.len(),
    ensures
        r == spec_input_field_list(acc, items@.skip(i as int)),
    decreases items@.len() - i,
{
    if i == items.len() {
        return Ok(acc);
    }
    proof {
        assert(items@.skip(i as int)[0] == items@[i as int]);
        assert(items@.skip(i as int).skip(1) =~= items@.skip(i as int + 1));
    }
    let step = match &items[i] {
        NestedMeta::Meta(m) => match m {
            Meta::Path(p) => {
                if p.is_ident("skip") {
                    Err(DeriveError::SkipNotAllowedHere)
                } else if p.is_ident("default") {
                    Ok(InputField { default: true, ..acc })
                } else if p.is_ident("flatten") {
                    Ok(InputField { flatten: true, ..acc })
                } else {
                    Ok(acc)
                }
            },
            Meta::NameValue { path, lit } => {
                if path.is_ident("name") {
                    match lit {
                        Lit::Str(s) => Ok(InputField { name: Some(s.clone()), ..acc }),
                        _ => Err(DeriveError::NameMustBeString),
                    }
                } else if path.is_ident("desc") {
                    match lit {
                        Lit::Str(s) => Ok(InputField { desc: Some(s.clone()), ..acc }),
                        _ => Err(DeriveError::DescMustBeString),
                    }
                } else if path.is_ident("default_value") {
                    Ok(InputField { default_value: Some(clone_lit(lit)), ..acc })
                } else if path.is_ident("default_with") {
                    match lit {
                        Lit::Str(s) => {
                            if check_tokens_str(s.as_str()) {
                                Ok(InputField { default_with: Some(s.clone()), ..acc })
                            } else {
                                Err(DeriveError::InvalidExpression)
                            }
                        },
                        _ => Err(DeriveError::DefaultWithMustBeString),
                    }
                } else {
                    Ok(acc)
                }
            },
            _ => Ok(acc),
        },
        _ => Ok(acc),
    };
    match step {
        Err(e) => Err(e),
        Ok(acc2) => input_field_scan(acc2, items, i + 1),
    }
}


/// The arguments of one object field's resolver.
pub struct Field {
    pub name: Option<String>,
    pub desc: Option<String>,
    pub deprecation: Option<String>,
    pub cache_control: CacheControl,
    /// Federation: the field comes from another service.
    pub external: bool,
    /// Federation: fields of the return type this service provides.
    pub provides_fields: Option<String>,
    /// Federation: fields of other types this field needs.
    pub requires_fields: Option<String>,
    pub owned: bool,
    pub guard: Option<GuardExpr>,
    pub post_guard: Option<GuardExpr>,
}

/// One step of reading a `field` list entry; a skipped field ends the read
/// with no field at all, and the removed `ref` flag is an error.
pub open spec fn spec_field_step(acc: Field, arg: NestedMeta)
    -> Result<Option<Field>, DeriveError> {
    match arg {
        NestedMeta::Meta(m) => match m {
            Meta::Path(p) => if path_is(p, "skip"@) {
                Ok(None)
            } else if path_is(p, "external"@) {
                Ok(Some(Field { external: true, ..acc }))
            } else if path_is(p, "owned"@) {
                Ok(Some(Field { owned: true, ..acc }))
            } else if path_is(p, "ref"@) {
                Err(DeriveError::RefNoLongerSupported)
            } else {
                Ok(Some(acc))
            },
            Meta::NameValue { path, lit } => if path_is(path, "name"@) {
                match lit {
                    Lit::Str(s) => Ok(Some(Field { name: Some(s), ..acc })),
                    _ => Err(DeriveError::NameMustBeString),
                }
            } else if path_is(path, "desc"@) {
                match lit {
                    Lit::Str(s) => Ok(Some(Field { desc: Some(s), ..acc })),
                    _ => Err(DeriveError::DescMustBeString),
                }
            } else if path_is(path, "deprecation"@) {
                match lit {
                    Lit::Str(s) => Ok(Some(Field { deprecation: Some(s), ..acc })),
                    _ => Err(DeriveError::DeprecationMustBeString),
                }
            } else if path_is(path, "provides"@) {
                match lit {
                    Lit::Str(s) => Ok(Some(Field { provides_fields: Some(s), ..acc })),
                    _ => Err(DeriveError::ProvidesMustBeString),
                }
            } else if path_is(path, "requires"@) {
                match lit {
                    Lit::Str(s) => Ok(Some(Field { requires_fields: Some(s), ..acc })),
                    _ => Err(DeriveError::RequiresMustBeString),
                }
            } else {
                Ok(Some(acc))
            },
            Meta::List(ls) => if path_is(ls.path, "cache_control"@) {
                match spec_cache_control(CacheControl { public: true, max_age: 0 }, ls.nested@) {
                    Ok(cc) => Ok(Some(Field { cache_control: cc, ..acc })),
                    Err(e) => Err(e),
                }
            } else if path_is(ls.path, "guard"@) {
                match spec_guard_chain(ls.nested@, None) {
                    Ok(g) => Ok(Some(Field { guard: g, ..acc })),
                    Err(e) => Err(e),
                }
            } else if path_is(ls.path, "post_guard"@) {
                match spec_guard_chain(ls.nested@, None) {
                    Ok(g) => Ok(Some(Field { post_guard: g, ..acc })),
                    Err(e) => Err(e),
                }
            } else {
                Ok(Some(acc))
            },
        },
        _ => Ok(Some(acc)),
    }
}

/// Reading a `field` list: a fold of the steps, stopping at a skip.
pub open spec fn spec_field_list(acc: Field, items: Seq<NestedMeta>)
    -> Result<Option<Field>, DeriveError>
    decreases items,
{
    if items.len() == 0 {
        Ok(Some(acc))
    } else {
        match spec_field_step(acc, items[0]) {
            Err(e) => Err(e),
            Ok(None) => Ok(None),
            Ok(Some(acc2)) => spec_field_list(acc2, items.skip(1)),
        }
    }
}

/// Reading a resolver's attributes: each attribute must carry structured
/// metadata, and each `field` list is folded in order.
pub open spec fn spec_field(acc: Field, attrs: Seq<Attribute>)
    -> Result<Option<Field>, DeriveError>
    decreases attrs,
{
    if attrs.len() == 0 {
        Ok(Some(acc))
    } else {
        match attrs[0].meta {
            None => Err(DeriveError::InvalidAttribute),
            Some(m) => match m {
                Meta::List(ls) => if path_is(ls.path, "field"@) {
                    match spec_field_list(acc, ls.nested@) {
                        Err(e) => Err(e),
                        Ok(None) => Ok(None),
                        Ok(Some(acc2)) => spec_field(acc2, attrs.skip(1)),
                    }
                } else {
                    spec_field(acc, attrs.skip(1))
                },
                _ => spec_field(acc, attrs.skip(1)),
            },
        }
    }
}

/// The field arguments before any attribute is read.
pub open spec fn field_defaults() -> Field {
    Field {
        name: None,
        desc: None,
        deprecation: None,
        cache_control: CacheControl { public: true, max_age: 0 },
        external: false,
        provides_fields: None,
        requires_fields: None,
        owned: false,
        guard: None,
        post_guard: None,
    }
}

impl Field {
    /// Read the arguments of one resolver; a skipped field reads as nothing,
    /// and a missing description falls back to the resolver's documentation
    /// text.
    pub fn parse(attrs: Vec<Attribute>) -> (r: Result<Option<Field>, DeriveError>)
        ensures
            ({
                let base = spec_field(field_defaults(), attrs@);
                let docs = crate::codegen::utils::spec_rustdoc(attrs@, Seq::empty());
                match r {
                    Err(e) => base == Err::<Option<Field>, DeriveError>(e) || (base is Ok
                        && base->Ok_0 is Some && base->Ok_0->0.desc is None
                        && docs == Err::<Seq<char>, DeriveError>(e)),
                    Ok(opt) => match opt {
                        None => base == Ok::<Option<Field>, DeriveError>(None),
                        Some(item) => {
                            &&& base is Ok
                            &&& base->Ok_0 is Some
                            &&& ({
                                let b = base->Ok_0->0;
                                &&& item.name == b.name
                                &&& item.deprecation == b.deprecation
                                &&& item.cache_control == b.cache_control
                                &&& item.external == b.external
                                &&& item.provides_fields == b.provides_fields
                                &&& item.requires_fields == b.requires_fields
                                &&& item.owned == b.owned
                                &&& item.guard == b.guard
                                &&& item.post_guard == b.post_guard
                                &&& match b.desc {
                                    Some(d) => item.desc == Some(d),
                                    None => {
                                        &&& docs is Ok
                                        &&& match item.desc {
                                            Some(s) => s@ == docs->Ok_0 && s@.len() > 0,
                                            None => docs->Ok_0.len() == 0,
                                        }
                                    },
                                }
                            })
                        },
                    },
                }
            }),
    {
        let docs = match crate::codegen::utils::get_rustdoc(&attrs) {
            Ok(d) => d,
            Err(e) => {
                match field_fold(field_empty(), attrs) {
                    Err(e2) => {
                        return Err(e2);
                    },
                    Ok(None) => {
                        return Ok(None);
                    },
                    Ok(Some(item)) => {
                        if matches!(item.desc, Some(_)) {
                            return Ok(Some(item));
                        }
                        return Err(e);
                    },
                }
            },
        };
        match field_fold(field_empty(), attrs) {
            Err(e) => Err(e),
            Ok(None) => Ok(None),
            Ok(Some(item)) => {
                if matches!(item.desc, Some(_)) {
                    Ok(Some(item))
                } else {
                    match docs {
                        Some(s) => Ok(Some(Field { desc: Some(s), ..item })),
                        None => Ok(Some(item)),
                    }
                }
            },
        }
    }
}

fn field_empty() -> (r: Field)
    ensures
        r == field_defaults(),
{
    Field {
        name: None,
        desc: None,
        deprecation: None,
        cache_control: CacheControl { public: true, max_age: 0 },
        external: false,
        provides_fields: None,
        requires_fields: None,
        owned: false,
        guard: None,
        post_guard: None,
    }
}

fn field_fold(acc: Field, mut attrs: Vec<Attribute>) -> (r: Result<Option<Field>, DeriveError>)
    ensures
        r == spec_field(acc, attrs@),
    decreases attrs@.len(),
{
    if attrs.len() == 0 {
        return Ok(Some(acc));
    }
    let ghost orig = attrs@;
    let head = attrs.remove(0);
    proof {
        assert(attrs@ =~= orig.skip(1));
        assert(head == orig[0]);
    }
    match head.meta {
        None => Err(DeriveError::InvalidAttribute),
        Some(m) => match m {
            Meta::List(ls) => {
                if ls.path.is_ident("field") {
                    match field_list_fold(acc, ls.nested) {
                        Err(e) => Err(e),
                        Ok(None) => Ok(None),
                        Ok(Some(acc2)) => field_fold(acc2, attrs),
                    }
                } else {
                    field_fold(acc, attrs)
                }
            },
            _ => field_fold(acc, attrs),
        },
    }
}

fn field_list_fold(acc: Field, mut items: Vec<NestedMeta>)
    -> (r: Result<Option<Field>, DeriveError>)
    ensures
        r == spec_field_list(acc, items@),
    decreases items@.len(),
{
    if items.len() == 0 {
        return Ok(Some(acc));
    }
    let ghost orig = items@;
    let head = items.remove(0);
    proof {
        assert(items@ =~= orig.skip(1));
        assert(head == orig[0]);
    }
    let step = match head {
        NestedMeta::Meta(m) => match m {
            Meta::Path(p) => {
                if p.is_ident("skip") {
                    Ok(None)
                } else if p.is_ident("external") {
                    Ok(Some(Field { external: true, ..acc }))
                } else if p.is_ident("owned") {
                    Ok(Some(Field { owned: true, ..acc }))
                } else if p.is_ident("ref") {
                    Err(DeriveError::RefNoLongerSupported)
                } else {
                    Ok(Some(acc))
                }
            },
            Meta::NameValue { path, lit } => {
                if path.is_ident("name") {
                    match lit {
                        Lit::Str(s) => Ok(Some(Field { name: Some(s), ..acc })),
                        _ => Err(DeriveError::NameMustBeString),
                    }
                } else if path.is_ident("desc") {
                    match lit {
                        Lit::Str(s) => Ok(Some(Field { desc: Some(s), ..acc })),
                        _ => Err(DeriveError::DescMustBeString),
                    }
                } else if path.is_ident("deprecation") {
                    match lit {
                        Lit::Str(s) => Ok(Some(Field { deprecation: Some(s), ..acc })),
                        _ => Err(DeriveError::DeprecationMustBeString),
                    }
                } else if path.is_ident("provides") {
                    match lit {
                        Lit::Str(s) => Ok(Some(Field { provides_fields: Some(s), ..acc })),
                        _ => Err(DeriveError::ProvidesMustBeString),
                    }
                } else if path.is_ident("requires") {
                    match lit {
                        Lit::Str(s) => Ok(Some(Field { requires_fields: Some(s), ..acc })),
                        _ => Err(DeriveError::RequiresMustBeString),
                    }
                } else {
                    Ok(Some(acc))
                }
            },
            Meta::List(ls) => {
                if ls.path.is_ident("cache_control") {
                    match CacheControl::parse(ls) {
                        Ok(cc) => Ok(Some(Field { cache_control: cc, ..acc })),
                        Err(e) => Err(e),
                    }
                } else if ls.path.is_ident("guard") {
                    match generate_guards_list(ls.nested) {
                        Ok(g) => Ok(Some(Field { guard: g, ..acc })),
                        Err(e) => Err(e),
                    }
                } else if ls.path.is_ident("post_guard") {
                    match generate_guards_list(ls.nested) {
                        Ok(g) => Ok(Some(Field { post_guard: g, ..acc })),
                        Err(e) => Err(e),
                    }
                } else {
                    Ok(Some(acc))
                }
            },
        },
        _ => Ok(Some(acc)),
    };
    match step {
        Err(e) => Err(e),
        Ok(None) => Ok(None),
        Ok(Some(acc2)) => field_list_fold(acc2, items),
    }
}


/// One declared argument of an interface field.
pub struct InterfaceFieldArgument {
    pub name: String,
    pub desc: Option<String>,
    /// The argument's type, as type text.
    pub ty: String,
    pub default: Option<DefaultExpr>,
}

/// The partial state while reading an interface field argument.
pub struct InterfaceFieldArgumentDraft {
    pub name: Option<String>,
    pub desc: Option<String>,
    pub ty: Option<String>,
    pub default: Option<DefaultExpr>,
}

/// One step of reading an interface field argument's list entry.
pub open spec fn spec_ifa_step(acc: InterfaceFieldArgumentDraft, arg: NestedMeta)
    -> Result<InterfaceFieldArgumentDraft, DeriveError> {
    match arg {
        NestedMeta::Meta(m) => match m {
            Meta::Path(p) => if path_is(p, "default"@) {
                Ok(InterfaceFieldArgumentDraft {
                    default: Some(DefaultExpr::TypeDefault),
                    ..acc
                })
            } else {
                Ok(acc)
            },
            Meta::NameValue { path, lit } => if path_is(path, "name"@) {
                match lit {
                    Lit::Str(s) => Ok(InterfaceFieldArgumentDraft { name: Some(s), ..acc }),
                    _ => Err(DeriveError::NameMustBeString),
                }
            } else if path_is(path, "desc"@) {
                match lit {
                    Lit::Str(s) => Ok(InterfaceFieldArgumentDraft { desc: Some(s), ..acc }),
                    _ => Err(DeriveError::DescMustBeString),
                }
            } else if path_is(path, "type"@) {
                match lit {
                    Lit::Str(s) => if crate::codegen::parses_as_type(s@) {
                        Ok(InterfaceFieldArgumentDraft { ty: Some(s), ..acc })
                    } else {
                        Err(DeriveError::ExpectedType)
                    },
                    _ => Err(DeriveError::TypeMustBeString),
                }
            } else if path_is(path, "default"@) {
                match spec_default_value(lit) {
                    Ok(d) => Ok(InterfaceFieldArgumentDraft { default: Some(d), ..acc }),
                    Err(e) => Err(e),
                }
            } else if path_is(path, "default_with"@) {
                match lit {
                    Lit::Str(s) => if parses_as_tokens(s@) {
                        Ok(InterfaceFieldArgumentDraft {
                            default: Some(DefaultExpr::WithExpr(s)),
                            ..acc
                        })
                    } else {
                        Err(DeriveError::InvalidExpression)
                    },
                    _ => Err(DeriveError::DefaultWithMustBeString),
                }
            } else {
                Ok(acc)
            },
            _ => Ok(acc),
        },
        _ => Ok(acc),
    }
}

/// Reading an interface field argument: a fold of the steps.
pub open spec fn spec_ifa_list(acc: InterfaceFieldArgumentDraft, items: Seq<NestedMeta>)
    -> Result<InterfaceFieldArgumentDraft, DeriveError>
    decreases items,
{
    if items.len() == 0 {
        Ok(acc)
    } else {
        match spec_ifa_step(acc, items[0]) {
            Err(e) => Err(e),
            Ok(acc2) => spec_ifa_list(acc2, items.skip(1)),
        }
    }
}

/// The whole reading of one interface field argument: the fold, then the
/// demand that a name and a type were given.
pub open spec fn spec_ifa(items: Seq<NestedMeta>)
    -> Result<InterfaceFieldArgument, DeriveError> {
    match spec_ifa_list(
        InterfaceFieldArgumentDraft { name: None, desc: None, ty: None, default: None },
        items,
    ) {
        Err(e) => Err(e),
        Ok(d) => match d.name {
            None => Err(DeriveError::MissingName),
            Some(n) => match d.ty {
                None => Err(DeriveError::MissingType),
                Some(t) => Ok(InterfaceFieldArgument {
                    name: n,
                    desc: d.desc,
                    ty: t,
                    default: d.default,
                }),
            },
        },
    }
}

impl InterfaceFieldArgument {
    /// Read one argument declaration of an interface field.
    pub fn parse(ls: MetaList) -> (r: Result<InterfaceFieldArgument, DeriveError>)
        ensures
            r == spec_ifa(ls.nested@),
    {
        match ifa_fold(
            InterfaceFieldArgumentDraft { name: None, desc: None, ty: None, default: None },
            ls.nested,
        ) {
            Err(e) => Err(e),
            Ok(d) => match d.name {
                None => Err(DeriveError::MissingName),
                Some(n) => match d.ty {
                    None => Err(DeriveError::MissingType),
                    Some(t) => Ok(InterfaceFieldArgument {
                        name: n,
                        desc: d.desc,
                        ty: t,
                        default: d.default,
                    }),
                },
            },
        }
    }
}

fn ifa_fold(acc: InterfaceFieldArgumentDraft, mut items: Vec<NestedMeta>)
    -> (r: Result<InterfaceFieldArgumentDraft, DeriveError>)
    ensures
        r == spec_ifa_list(acc, items@),
    decreases items@.len(),
{
    if items.len() == 0 {
        return Ok(acc);
    }
    let ghost orig = items@;
    let head = items.remove(0);
    proof {
        assert(items@ =~= orig.skip(1));
        assert(head == orig[0]);
    }
    let step = match head {
        NestedMeta::Meta(m) => match m {
            Meta::Path(p) => {
                if p.is_ident("default") {
                    Ok(InterfaceFieldArgumentDraft {
                        default: Some(DefaultExpr::TypeDefault),
                        ..acc
                    })
                } else {
                    Ok(acc)
                }
            },
            Meta::NameValue { path, lit } => {
                if path.is_ident("name") {
                    match lit {
                        Lit::Str(s) => Ok(InterfaceFieldArgumentDraft { name: Some(s), ..acc }),
                        _ => Err(DeriveError::NameMustBeString),
                    }
                } else if path.is_ident("desc") {
                    match lit {
                        Lit::Str(s) => Ok(InterfaceFieldArgumentDraft { desc: Some(s), ..acc }),
                        _ => Err(DeriveError::DescMustBeString),
                    }
                } else if path.is_ident("type") {
                    match lit {
                        Lit::Str(s) => {
                            if crate::codegen::check_type_text(s.as_str()) {
                                Ok(InterfaceFieldArgumentDraft { ty: Some(s), ..acc })
                            } else {
                                Err(DeriveError::ExpectedType)
                            }
                        },
                        _ => Err(DeriveError::TypeMustBeString),
                    }
                } else if path.is_ident("default") {
                    match crate::codegen::utils::generate_default_value(lit) {
                        Ok(d) => Ok(InterfaceFieldArgumentDraft { default: Some(d), ..acc }),
                        Err(e) => Err(e),
                    }
                } else if path.is_ident("default_with") {
                    match lit {
                        Lit::Str(s) => {
                            if check_tokens_str(s.as_str()) {
                                Ok(InterfaceFieldArgumentDraft {
                                    default: Some(DefaultExpr::WithExpr(s)),
                                    ..acc
                                })
                            } else {
                                Err(DeriveError::InvalidExpression)
                            }
                        },
                        _ => Err(DeriveError::DefaultWithMustBeString),
                    }
                } else {
                    Ok(acc)
                }
            },
            _ => Ok(acc),
        },
        _ => Ok(acc),
    };
    match step {
        Err(e) => Err(e),
        Ok(acc2) => ifa_fold(acc2, items),
    }
}

/// One declared field of an interface.
pub struct InterfaceField {
    pub name: String,
    pub method: Option<String>,
    pub desc: Option<String>,
    /// The field's return type, as type text.
    pub ty: String,
    pub args: Vec<InterfaceFieldArgument>,
    pub deprecation: Option<String>,
    /// Federation: the field comes from another service.
    pub external: bool,
    /// Federation: fields of the return type this service provides.
    pub provides_fields: Option<String>,
    /// Federation: fields of other types this field needs.
    pub requires_fields: Option<String>,
}

/// The mathematical counterpart of a finished interface field, with the
/// argument vector as a sequence.
pub ghost struct InterfaceFieldModel {
    pub name: String,
    pub method: Option<String>,
    pub desc: Option<String>,
    pub ty: String,
    pub args: Seq<InterfaceFieldArgument>,
    pub deprecation: Option<String>,
    pub external: bool,
    pub provides_fields: Option<String>,
    pub requires_fields: Option<String>,
}

impl InterfaceField {
    pub open spec fn model(self) -> InterfaceFieldModel {
        InterfaceFieldModel {
            name: self.name,
            method: self.method,
            desc: self.desc,
            ty: self.ty,
            args: self.args@,
            deprecation: self.deprecation,
            external: self.external,
            provides_fields: self.provides_fields,
            requires_fields: self.requires_fields,
        }
    }
}

/// The partial state while reading an interface field.
pub struct InterfaceFieldDraft {
    pub name: Option<String>,
    pub method: Option<String>,
    pub desc: Option<String>,
    pub ty: Option<String>,
    pub args: Vec<InterfaceFieldArgument>,
    pub deprecation: Option<String>,
    pub external: bool,
    pub provides_fields: Option<String>,
    pub requires_fields: Option<String>,
}

/// The mathematical counterpart of the partial state.
pub ghost struct InterfaceFieldDraftModel {
    pub name: Option<String>,
    pub method: Option<String>,
    pub desc: Option<String>,
    pub ty: Option<String>,
    pub args: Seq<InterfaceFieldArgument>,
    pub deprecation: Option<String>,
    pub external: bool,
    pub provides_fields: Option<String>,
    pub requires_fields: Option<String>,
}

impl InterfaceFieldDraft {
    pub open spec fn model(self) -> InterfaceFieldDraftModel {
        InterfaceFieldDraftModel {
            name: self.name,
            method: self.method,
            desc: self.desc,
            ty: self.ty,
            args: self.args@,
            deprecation: self.deprecation,
            external: self.external,
            provides_fields: self.provides_fields,
            requires_fields: self.requires_fields,
        }
    }
}

/// One step of reading an interface field's list entry.
pub open spec fn spec_if_step(acc: InterfaceFieldDraftModel, arg: NestedMeta)
    -> Result<InterfaceFieldDraftModel, DeriveError> {
    match arg {
        NestedMeta::Meta(m) => match m {
            Meta::Path(p) => if path_is(p, "external"@) {
                Ok(InterfaceFieldDraftModel { external: true, ..acc })
            } else {
                Ok(acc)
            },
            Meta::NameValue { path, lit } => if path_is(path, "name"@) {
                match lit {
                    Lit::Str(s) => Ok(InterfaceFieldDraftModel { name: Some(s), ..acc }),
                    _ => Err(DeriveError::NameMustBeString),
                }
            } else if path_is(path, "method"@) {
                match lit {
                    Lit::Str(s) => Ok(InterfaceFieldDraftModel { method: Some(s), ..acc }),
                    _ => Err(DeriveError::MethodMustBeString),
                }
            } else if path_is(path, "desc"@) {
                match lit {
                    Lit::Str(s) => Ok(InterfaceFieldDraftModel { desc: Some(s), ..acc }),
                    _ => Err(DeriveError::DescMustBeString),
                }
            } else if path_is(path, "type"@) {
                match lit {
                    Lit::Str(s) => if crate::codegen::parses_as_type(s@) {
                        Ok(InterfaceFieldDraftModel { ty: Some(s), ..acc })
                    } else {
                        Err(DeriveError::ExpectedType)
                    },
                    _ => Err(DeriveError::TypeMustBeString),
                }
            } else if path_is(path, "deprecation"@) {
                match lit {
                    Lit::Str(s) => Ok(InterfaceFieldDraftModel { deprecation: Some(s), ..acc }),
                    _ => Err(DeriveError::DeprecationMustBeString),
                }
            } else if path_is(path, "provides"@) {
                match lit {
                    Lit::Str(s) => Ok(
                        InterfaceFieldDraftModel { provides_fields: Some(s), ..acc },
                    ),
                    _ => Err(DeriveError::ProvidesMustBeString),
                }
            } else if path_is(path, "requires"@) {
                match lit {
                    Lit::Str(s) => Ok(
                        InterfaceFieldDraftModel { requires_fields: Some(s), ..acc },
                    ),
                    _ => Err(DeriveError::RequiresMustBeString),
                }
            } else {
                Ok(acc)
            },
            Meta::List(ls) => if path_is(ls.path, "arg"@) {
                match spec_ifa(ls.nested@) {
                    Err(e) => Err(e),
                    Ok(a) => Ok(InterfaceFieldDraftModel { args: acc.args.push(a), ..acc }),
                }
            } else {
                Ok(acc)
            },
        },
        _ => Ok(acc),
    }
}

/// Reading an interface field's list: a fold of the steps.
pub open spec fn spec_if_list(acc: InterfaceFieldDraftModel, items: Seq<NestedMeta>)
    -> Result<InterfaceFieldDraftModel, DeriveError>
    decreases items,
{
    if items.len() == 0 {
        Ok(acc)
    } else {
        match spec_if_step(acc, items[0]) {
            Err(e) => Err(e),
            Ok(acc2) => spec_if_list(acc2, items.skip(1)),
        }
    }
}

/// The empty partial state.
pub open spec fn if_draft_defaults() -> InterfaceFieldDraftModel {
    InterfaceFieldDraftModel {
        name: None,
        method: None,
        desc: None,
        ty: None,
        args: Seq::empty(),
        deprecation: None,
        external: false,
        provides_fields: None,
        requires_fields: None,
    }
}

/// The whole reading of one interface field: the fold, then the demand that
/// a name and a type were given.
pub open spec fn spec_interface_field(items: Seq<NestedMeta>)
    -> Result<InterfaceFieldModel, DeriveError> {
    match spec_if_list(if_draft_defaults(), items) {
        Err(e) => Err(e),
        Ok(d) => match d.name {
            None => Err(DeriveError::MissingName),
            Some(n) => match d.ty {
                None => Err(DeriveError::MissingType),
                Some(t) => Ok(InterfaceFieldModel {
                    name: n,
                    method: d.method,
                    desc: d.desc,
                    ty: t,
                    args: d.args,
                    deprecation: d.deprecation,
                    external: d.external,
                    provides_fields: d.provides_fields,
                    requires_fields: d.requires_fields,
                }),
            },
        },
    }
}

impl InterfaceField {
    /// Read one field declaration of an interface.
    pub fn parse(ls: MetaList) -> (r: Result<InterfaceField, DeriveError>)
        ensures
            match r {
                Ok(f) => spec_interface_field(ls.nested@)
                    == Ok::<InterfaceFieldModel, DeriveError>(f.model()),
                Err(e) => spec_interface_field(ls.nested@)
                    == Err::<InterfaceFieldModel, DeriveError>(e),
            },
    {
        let draft = InterfaceFieldDraft {
            name: None,
            method: None,
            desc: None,
            ty: None,
            args: Vec::new(),
            deprecation: None,
            external: false,
            provides_fields: None,
            requires_fields: None,
        };
        proof {
            assert(draft.model().args =~= if_draft_defaults().args);
        }
        match if_fold(draft, ls.nested) {
            Err(e) => Err(e),
            Ok(d) => match d.name {
                None => Err(DeriveError::MissingName),
                Some(n) => match d.ty {
                    None => Err(DeriveError::MissingType),
                    Some(t) => Ok(InterfaceField {
                        name: n,
                        method: d.method,
                        desc: d.desc,
                        ty: t,
                        args: d.args,
                        deprecation: d.deprecation,
                        external: d.external,
                        provides_fields: d.provides_fields,
                        requires_fields: d.requires_fields,
                    }),
                },
            },
        }
    }
}

fn if_fold(acc: InterfaceFieldDraft, mut items: Vec<NestedMeta>)
    -> (r: Result<InterfaceFieldDraft, DeriveError>)
    ensures
        match r {
            Ok(d) => spec_if_list(acc.model(), items@)
                == Ok::<InterfaceFieldDraftModel, DeriveError>(d.model()),
            Err(e) => spec_if_list(acc.model(), items@)
                == Err::<InterfaceFieldDraftModel, DeriveError>(e),
        },
    decreases items@.len(),
{
    if items.len() == 0 {
        return Ok(acc);
    }
    let ghost orig = items@;
    let head = items.remove(0);
    proof {
        assert(items@ =~= orig.skip(1));
        assert(head == orig[0]);
    }
    let step: Result<InterfaceFieldDraft, DeriveError> = match head {
        NestedMeta::Meta(m) => match m {
            Meta::Path(p) => {
                if p.is_ident("external") {
                    Ok(InterfaceFieldDraft { external: true, ..acc })
                } else {
                    Ok(acc)
                }
            },
            Meta::NameValue { path, lit } => {
                if path.is_ident("name") {
                    match lit {
                        Lit::Str(s) => Ok(InterfaceFieldDraft { name: Some(s), ..acc }),
                        _ => Err(DeriveError::NameMustBeString),
                    }
                } else if path.is_ident("method") {
                    match lit {
                        Lit::Str(s) => Ok(InterfaceFieldDraft { method: Some(s), ..acc }),
                        _ => Err(DeriveError::MethodMustBeString),
                    }
                } else if path.is_ident("desc") {
                    match lit {
                        Lit::Str(s) => Ok(InterfaceFieldDraft { desc: Some(s), ..acc }),
                        _ => Err(DeriveError::DescMustBeString),
                    }
                } else if path.is_ident("type") {
                    match lit {
                        Lit::Str(s) => {
                            if crate::codegen::check_type_text(s.as_str()) {
                                Ok(InterfaceFieldDraft { ty: Some(s), ..acc })
                            } else {
                                Err(DeriveError::ExpectedType)
                            }
                        },
                        _ => Err(DeriveError::TypeMustBeString),
                    }
                } else if path.is_ident("deprecation") {
                    match lit {
                        Lit::Str(s) => Ok(InterfaceFieldDraft { deprecation: Some(s), ..acc }),
                        _ => Err(DeriveError::DeprecationMustBeString),
                    }
                } else if path.is_ident("provides") {
                    match lit {
                        Lit::Str(s) => Ok(
                            InterfaceFieldDraft { provides_fields: Some(s), ..acc },
                        ),
                        _ => Err(DeriveError::ProvidesMustBeString),
                    }
                } else if path.is_ident("requires") {
                    match lit {
                        Lit::Str(s) => Ok(
                            InterfaceFieldDraft { requires_fields: Some(s), ..acc },
                        ),
                        _ => Err(DeriveError::RequiresMustBeString),
                    }
                } else {
                    Ok(acc)
                }
            },
            Meta::List(ls) => {
                if ls.path.is_ident("arg") {
                    match InterfaceFieldArgument::parse(ls) {
                        Err(e) => Err(e),
                        Ok(a) => {
                            let mut acc2 = acc;
                            acc2.args.push(a);
                            Ok(acc2)
                        },
                    }
                } else {
                    Ok(acc)
                }
            },
        },
        _ => Ok(acc),
    };
    match step {
        Err(e) => Err(e),
        Ok(acc2) => if_fold(acc2, items),
    }
}

/// The arguments of an interface derive.
pub struct Interface {
    pub internal: bool,
    pub name: Option<String>,
    pub desc: Option<String>,
    pub fields: Vec<InterfaceField>,
    pub extends: bool,
}

/// The mathematical counterpart of interface arguments, with the field
/// vector as a sequence of field models.
pub ghost struct InterfaceModel {
    pub internal: bool,
    pub name: Option<String>,
    pub desc: Option<String>,
    pub fields: Seq<InterfaceFieldModel>,
    pub extends: bool,
}

impl Interface {
    pub open spec fn model(self) -> InterfaceModel {
        InterfaceModel {
            internal: self.internal,
            name: self.name,
            desc: self.desc,
            fields: interface_fields_model(self.fields@),
            extends: self.extends,
        }
    }
}

/// The models of a field vector, in order.
pub open spec fn interface_fields_model(fs: Seq<InterfaceField>) -> Seq<InterfaceFieldModel>
    decreases fs,
{
    if fs.len() == 0 {
        Seq::empty()
    } else {
        interface_fields_model(fs.drop_last()).push(fs.last().model())
    }
}

/// One step of reading interface arguments.
pub open spec fn spec_interface_step(acc: InterfaceModel, arg: NestedMeta)
    -> Result<InterfaceModel, DeriveError> {
    match arg {
        NestedMeta::Meta(m) => match m {
            Meta::Path(p) => if path_is(p, "internal"@) {
                Ok(InterfaceModel { internal: true, ..acc })
            } else if path_is(p, "extends"@) {
                Ok(InterfaceModel { extends: true, ..acc })
            } else {
                Ok(acc)
            },
            Meta::NameValue { path, lit } => if path_is(path, "name"@) {
                match lit {
                    Lit::Str(s) => Ok(InterfaceModel { name: Some(s), ..acc }),
                    _ => Err(DeriveError::NameMustBeString),
                }
            } else if path_is(path, "desc"@) {
                match lit {
                    Lit::Str(s) => Ok(InterfaceModel { desc: Some(s), ..acc }),
                    _ => Err(DeriveError::DescMustBeString),
                }
            } else {
                Ok(acc)
            },
            Meta::List(ls) => if path_is(ls.path, "field"@) {
                match spec_interface_field(ls.nested@) {
                    Err(e) => Err(e),
                    Ok(f) => Ok(InterfaceModel { fields: acc.fields.push(f), ..acc }),
                }
            } else {
                Ok(acc)
            },
        },
        _ => Ok(acc),
    }
}

/// Reading interface arguments: a fold of the steps.
pub open spec fn spec_interface(acc: InterfaceModel, args: Seq<NestedMeta>)
    -> Result<InterfaceModel, DeriveError>
    decreases args,
{
    if args.len() == 0 {
        Ok(acc)
    } else {
        match spec_interface_step(acc, args[0]) {
            Err(e) => Err(e),
            Ok(acc2) => spec_interface(acc2, args.skip(1)),
        }
    }
}

/// The interface arguments before any attribute is read.
pub open spec fn interface_defaults() -> InterfaceModel {
    InterfaceModel { internal: false, name: None, desc: None, fields: Seq::empty(), extends: false }
}

impl Interface {
    /// Read the arguments of an interface derive.
    pub fn parse(args: Vec<NestedMeta>) -> (r: Result<Interface, DeriveError>)
        ensures
            match r {
                Ok(i) => spec_interface(interface_defaults(), args@)
                    == Ok::<InterfaceModel, DeriveError>(i.model()),
                Err(e) => spec_interface(interface_defaults(), args@)
                    == Err::<InterfaceModel, DeriveError>(e),
            },
    {
        let acc = Interface {
            internal: false,
            name: None,
            desc: None,
            fields: Vec::new(),
            extends: false,
        };
        proof {
            assert(acc.model().fields =~= interface_defaults().fields);
        }
        interface_fold(acc, args)
    }
}

fn interface_fold(acc: Interface, mut args: Vec<NestedMeta>) -> (r: Result<Interface, DeriveError>)
    ensures
        match r {
            Ok(i) => spec_interface(acc.model(), args@)
                == Ok::<InterfaceModel, DeriveError>(i.model()),
            Err(e) => spec_interface(acc.model(), args@) == Err::<InterfaceModel, DeriveError>(e),
        },
    decreases args@.len(),
{
    if args.len() == 0 {
        return Ok(acc);
    }
    let ghost orig = args@;
    let head = args.remove(0);
    proof {
        assert(args@ =~= orig.skip(1));
        assert(head == orig[0]);
    }
    let step: Result<Interface, DeriveError> = match head {
        NestedMeta::Meta(m) => match m {
            Meta::Path(p) => {
                if p.is_ident("internal") {
                    Ok(Interface { internal: true, ..acc })
                } else if p.is_ident("extends") {
                    Ok(Interface { extends: true, ..acc })
                } else {
                    Ok(acc)
                }
            },
            Meta::NameValue { path, lit } => {
                if path.is_ident("name") {
                    match lit {
                        Lit::Str(s) => Ok(Interface { name: Some(s), ..acc }),
                        _ => Err(DeriveError::NameMustBeString),
                    }
                } else if path.is_ident("desc") {
                    match lit {
                        Lit::Str(s) => Ok(Interface { desc: Some(s), ..acc }),
                        _ => Err(DeriveError::DescMustBeString),
                    }
                } else {
                    Ok(acc)
                }
            },
            Meta::List(ls) => {
                if ls.path.is_ident("field") {
                    match InterfaceField::parse(ls) {
                        Err(e) => Err(e),
                        Ok(f) => {
                            let ghost pre = acc.fields@;
                            let mut acc2 = acc;
                            acc2.fields.push(f);
                            proof {
                                assert(acc2.fields@.drop_last() =~= pre);
                                assert(interface_fields_model(acc2.fields@)
                                    =~= interface_fields_model(pre).push(
                                    acc2.fields@.last().model(),
                                ));
                            }
                            Ok(acc2)
                        },
                    }
                } else {
                    Ok(acc)
                }
            },
        },
        _ => Ok(acc),
    };
    match step {
        Err(e) => Err(e),
        Ok(acc2) => interface_fold(acc2, args),
    }
}

} // verus!
