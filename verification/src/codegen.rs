//! What the code-generation attributes say: a model of the parsed attribute
//! trees that the derive arguments are read from, and the readers
//! themselves. The host-language parsing of attribute tokens into these
//! trees, and the rendering of the results back into generated code, live
//! with the caller; every rule about what the attributes mean is here.

use vstd::prelude::*;

pub mod args;
pub mod utils;

verus! {

/// A literal inside an attribute. Numeric literals carry their parsed value;
/// a float keeps its text, because the library stores it only to hand it
/// back to generated code.
pub enum Lit {
    Str(String),
    Int(i128),
    Float(String),
    Bool(bool),
    Other,
}

/// A (possibly qualified) path inside an attribute.
pub struct MetaPath {
    pub segments: Vec<String>,
}

/// One structured attribute argument.
pub enum Meta {
    Path(MetaPath),
    NameValue { path: MetaPath, lit: Lit },
    List(MetaList),
}

/// A parenthesised list of nested arguments under a path.
pub struct MetaList {
    pub path: MetaPath,
    pub nested: Vec<NestedMeta>,
}

/// An element of a [`MetaList`].
pub enum NestedMeta {
    Meta(Meta),
    Lit(Lit),
}

/// One attribute on an item: its path and its arguments as structured
/// metadata, or nothing where the tokens do not form structured metadata.
pub struct Attribute {
    pub path: MetaPath,
    pub meta: Option<Meta>,
}

/// Whether a path is exactly one given identifier.
pub open spec fn path_is(p: MetaPath, s: Seq<char>) -> bool {
    p.segments@.len() == 1 && p.segments@[0]@ == s
}

impl MetaPath {
    /// Whether this path is exactly the given identifier.
    pub fn is_ident(&self, s: &str) -> (r: bool)
        ensures
            r == path_is(*self, s@),
    {
        if self.segments.len() != 1 {
            return false;
        }
        let owned = s.to_owned();
        self.segments[0] == owned
    }
}

/// Everything that can go wrong while reading derive arguments.
#[derive(Clone, Copy, PartialEq, Eq, Structural, Debug)]
pub enum DeriveError {
    /// An attribute's tokens do not form structured metadata.
    InvalidAttribute,
    /// `name` must be given a string.
    NameMustBeString,
    /// `desc` must be given a string.
    DescMustBeString,
    /// `max_age` must be given an integer.
    MaxAgeMustBeInt,
    /// `max_age` does not fit the cache hint's age field.
    MaxAgeOutOfRange,
    /// `deprecation` must be given a string.
    DeprecationMustBeString,
    /// `provides` must be given a string.
    ProvidesMustBeString,
    /// `requires` must be given a string.
    RequiresMustBeString,
    /// `remote` must be given a string.
    RemoteMustBeString,
    /// `method` must be given a string.
    MethodMustBeString,
    /// The `ref` attribute was removed; resolvers borrow by default.
    RefNoLongerSupported,
    /// Fields of an input object cannot be skipped.
    SkipNotAllowedHere,
    /// `type` must be given a string.
    TypeMustBeString,
    /// The text under `type` is not a type.
    ExpectedType,
    /// A field description is missing its `name`.
    MissingName,
    /// A field description is missing its `type`.
    MissingType,
    /// Only one validator may be given; combine validators with `and`/`or`.
    OnlyOneValidator,
    /// At least one validator must be given.
    AtLeastOneValidator,
    /// A validator property's value must be a string literal.
    ValidatorValueMustBeString,
    /// A validator property has the wrong shape.
    InvalidValidatorProperty,
    /// A validator has the wrong shape.
    InvalidValidator,
    /// A guard property's value must be a string literal.
    GuardValueMustBeString,
    /// A guard property has the wrong shape.
    InvalidGuardProperty,
    /// A guard has the wrong shape.
    InvalidGuard,
    /// The text of an expression property is not an expression.
    InvalidExpression,
    /// `default_with` must be given a string.
    DefaultWithMustBeString,
    /// A default value literal must be a string, integer, float or boolean;
    /// other shapes take `default_with`.
    UnsupportedDefaultLiteral,
}

/// Whether a text parses as a type of the host language.
/// The meaning of the `check_type_text` wrapper below.
pub uninterp spec fn parses_as_type(s: Seq<char>) -> bool;

/// Relies on syn::parse_str::<syn::Type>: whether the text is a type is a
/// function of the text alone.
#[verifier::external_body]
pub fn check_type_text(s: &str) -> (r: bool)
    ensures
        r == parses_as_type(s@),
{
    syn::parse_str::<syn::Type>(s).is_ok()
}

/// Whether a text parses as an expression of the host language.
/// The meaning of the `check_expr_text` wrapper below.
pub uninterp spec fn parses_as_expr(s: Seq<char>) -> bool;

/// Relies on syn::parse_str::<syn::Expr>: whether the text is an expression
/// is a function of the text alone.
#[verifier::external_body]
pub fn check_expr_text(s: &str) -> (r: bool)
    ensures
        r == parses_as_expr(s@),
{
    syn::parse_str::<syn::Expr>(s).is_ok()
}

} // verus!
