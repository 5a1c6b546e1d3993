//! The generated-output model: type and method declarations accumulated by
//! the resolver and the operation synthesizer, in discovery order.

use vstd::prelude::*;

verus! {

/// One field of a generated struct declaration.
#[derive(Debug)]
pub struct FieldDecl {
    /// The chosen field identifier (snake-case form of the wire name).
    pub name: String,
    /// The resolved output type name.
    pub ty: String,
    /// Whether the field's type is wrapped in an optional.
    pub optional: bool,
    /// The original wire name, recorded only when it differs from `name`.
    pub wire_name: Option<String>,
    /// Whether the field collects the open remainder of the object
    /// (`additionalProperties`), flattened into the same declaration.
    pub flatten: bool,
    /// The property's human-readable description, if any.
    pub doc: Option<String>,
}

/// The wire value of one generated enum variant.
#[derive(Debug)]
pub enum VariantValue {
    /// An integer literal value.
    IntVal(i64),
    /// A numeric literal kept as its exact original text.
    NumVal(String),
    /// A string literal kept exactly as it appears in the document.
    StrVal(String),
}

/// One variant of a generated enum declaration.
#[derive(Debug)]
pub struct VariantDecl {
    pub name: String,
    pub value: VariantValue,
}

/// One positional argument of a generated method.
#[derive(Debug)]
pub struct ArgDecl {
    /// The snake-case argument identifier.
    pub name: String,
    /// The resolved output type name.
    pub ty: String,
    /// The parameter's original wire name in the path template.
    pub wire_name: String,
}

/// One callable method emitted for an operation.
#[derive(Debug)]
pub struct MethodDecl {
    /// The snake-case method name.
    pub name: String,
    /// The operation's summary, used as the method's doc comment.
    pub doc: Option<String>,
    /// Positional arguments, one per non-constant path parameter.
    pub args: Vec<ArgDecl>,
    /// The name of the parameter-object type, when the operation has at
    /// least one non-constant query parameter.
    pub params_type: Option<String>,
    /// The resolved output type of the `"200"` response schema.
    pub ret_type: String,
    /// The path template with each parameter placeholder rewritten to the
    /// matching argument identifier.
    pub path: String,
}

/// One declaration of the output scope.
#[derive(Debug)]
pub enum Decl {
    StructDecl { name: String, fields: Vec<FieldDecl> },
    EnumDecl { name: String, repr: Option<String>, variants: Vec<VariantDecl> },
    FnDecl(MethodDecl),
}

/// The name a declaration is keyed by in the output scope.
pub open spec fn decl_name(d: Decl) -> Seq<char> {
    match d {
        Decl::StructDecl { name, .. } => name@,
        Decl::EnumDecl { name, .. } => name@,
        Decl::FnDecl(m) => m.name@,
    }
}

/// Whether the scope holds a declaration keyed by the given name.
pub open spec fn scope_has(scope: Seq<Decl>, name: Seq<char>) -> bool {
    exists|i: int| 0 <= i < scope.len() && decl_name(scope[i]) == name
}

/// All declaration names in the scope are distinct, so each full name is
/// declared at most once.
pub open spec fn scope_wf(scope: Seq<Decl>) -> bool {
    forall|i: int, j: int|
        0 <= i < j < scope.len() ==> decl_name(scope[i]) != decl_name(scope[j])
}

impl Decl {
    /// The name this declaration is keyed by.
    pub fn key<'a>(&'a self) -> (r: &'a String)
        ensures
            r@ == decl_name(*self),
    {
        match self {
            Decl::StructDecl { name, .. } => name,
            Decl::EnumDecl { name, .. } => name,
            Decl::FnDecl(m) => &m.name,
        }
    }
}

/// Whether the scope already holds a declaration keyed by the given name.
pub fn scope_contains(scope: &Vec<Decl>, name: &str) -> (r: bool)
    ensures
        r == scope_has(scope@, name@),
{
    let n = scope.len();
    for i in 0..n
        invariant
            n == scope.len(),
            forall|j: int| 0 <= j < i ==> decl_name(scope@[j]) != name@,
    {
        if crate::text::str_eq(scope[i].key().as_str(), name) {
            return true;
        }
    }
    false
}

/// Declaring under a name already present leaves the scope unchanged;
/// otherwise the declaration is appended. This is the only way the output
/// scope ever grows.
pub open spec fn declare_in(scope: Seq<Decl>, d: Decl) -> Seq<Decl> {
    if scope_has(scope, decl_name(d)) {
        scope
    } else {
        scope.push(d)
    }
}

/// Declaring the same name twice is the same as declaring it once: the
/// output scope deduplicates by full name.
pub proof fn lemma_declare_idempotent(scope: Seq<Decl>, d1: Decl, d2: Decl)
    requires
        decl_name(d1) == decl_name(d2),
    ensures
        declare_in(declare_in(scope, d1), d2) == declare_in(scope, d1),
{
    let s1 = declare_in(scope, d1);
    if scope_has(scope, decl_name(d1)) {
        assert(scope_has(s1, decl_name(d2)));
    } else {
        assert(decl_name(s1.last()) == decl_name(d2));
        assert(scope_has(s1, decl_name(d2)));
    }
}

/// Declaring preserves well-formedness of the scope.
pub proof fn lemma_declare_wf(scope: Seq<Decl>, d: Decl)
    requires
        scope_wf(scope),
    ensures
        scope_wf(declare_in(scope, d)),
        scope_has(declare_in(scope, d), decl_name(d)),
{
    if !scope_has(scope, decl_name(d)) {
        let s2 = scope.push(d);
        assert forall|i: int, j: int| 0 <= i < j < s2.len() implies decl_name(s2[i])
            != decl_name(s2[j]) by {
            if j == scope.len() {
                assert(!scope_has(scope, decl_name(d)));
                assert(decl_name(scope[i]) != decl_name(d));
            }
        }
        assert(decl_name(s2[scope.len() as int]) == decl_name(d));
    }
}

} // verus!
