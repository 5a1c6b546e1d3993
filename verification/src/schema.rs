//! The in-memory model of a parsed API document: schema nodes, operations,
//! parameters, and path templates.

use vstd::prelude::*;

use crate::text::string_push;

verus! {

/// A JSON-pointer-like reference key (`#/definitions/Name`), used only for
/// lookup in the definitions registry.
#[derive(Debug)]
pub struct TypePath(pub String);

/// A fixed-width numeric format tag.
#[derive(Clone, Copy, PartialEq, Eq, Structural, Debug)]
pub enum NumberFormat {
    Int32,
    Int64,
    Float,
    Double,
}

impl NumberFormat {
    /// The output type name this format resolves to.
    pub fn output_name(&self) -> (r: &'static str)
        ensures
            r@ == format_name_of(*self),
    {
        match self {
            NumberFormat::Int32 => "i32",
            NumberFormat::Int64 => "i64",
            NumberFormat::Float => "f32",
            NumberFormat::Double => "f64",
        }
    }
}

/// The output type name of a numeric format.
pub open spec fn format_name_of(f: NumberFormat) -> Seq<char> {
    match f {
        NumberFormat::Int32 => "i32"@,
        NumberFormat::Int64 => "i64"@,
        NumberFormat::Float => "f32"@,
        NumberFormat::Double => "f64"@,
    }
}

/// One literal of a number-typed enumeration: the integer part that names the
/// variant, and the exact literal text that becomes its wire value.
#[derive(Debug)]
pub struct NumberLit {
    pub int_part: i64,
    pub text: String,
}

/// A schema node carrying one of the mutually exclusive type tags.
#[derive(Debug)]
pub enum TypeTagged {
    Number { format: Option<NumberFormat>, enum_values: Option<Vec<NumberLit>> },
    Integer { format: Option<NumberFormat>, enum_values: Option<Vec<i64>> },
    Text { format: Option<String>, enum_values: Option<Vec<String>> },
    Boolean,
    Array { items: Box<Type> },
    Object {
        properties: Option<Vec<(String, Type)>>,
        additional_properties: Option<Box<Type>>,
        required: Option<Vec<String>>,
    },
}

/// A schema node: either an inline tagged node or a reference to a named
/// definition.
#[derive(Debug)]
pub enum TypeUntagged {
    Tagged(TypeTagged),
    Ref { target: TypePath },
}

/// A schema node together with its optional human-readable description.
#[derive(Debug)]
pub struct Type {
    pub description: Option<String>,
    pub schema_object: TypeUntagged,
}

/// One element of a parsed path template.
#[derive(Debug)]
pub enum PathElement {
    Static(String),
    Parameter(String),
}

/// A path template: the raw string, and its parsed elements as a derived
/// view. Identity (equality) is defined on the raw string only.
#[derive(Debug)]
pub struct PathName {
    pub internal: String,
    pub elements: Vec<PathElement>,
}

impl PartialEq for PathName {
    /// Equality on the raw template string alone; the parsed elements are a
    /// derived view and not part of identity.
    fn eq(&self, other: &Self) -> (r: bool) {
        self.internal == other.internal
    }
}

impl vstd::std_specs::cmp::PartialEqSpecImpl for PathName {
    open spec fn obeys_eq_spec() -> bool {
        true
    }

    open spec fn eq_spec(&self, other: &Self) -> bool {
        self.internal@ == other.internal@
    }
}

/// The maximal `'/'`-free prefix length of a character sequence.
pub open spec fn nonslash_prefix_len(s: Seq<char>) -> int
    decreases s.len(),
{
    if s.len() == 0 || s[0] == '/' {
        0
    } else {
        1 + nonslash_prefix_len(s.drop_first())
    }
}

/// The segments of a path string: maximal non-empty runs of characters
/// between `'/'` separators.
pub open spec fn split_slash(s: Seq<char>) -> Seq<Seq<char>>
    decreases s.len(),
    via split_slash_decreases
{
    if s.len() == 0 {
        Seq::empty()
    } else if s[0] == '/' {
        split_slash(s.drop_first())
    } else {
        let n = nonslash_prefix_len(s);
        seq![s.take(n)] + split_slash(s.skip(n))
    }
}

#[via_fn]
proof fn split_slash_decreases(s: Seq<char>) {
    if s.len() > 0 && s[0] != '/' {
        lemma_nonslash_prefix_len_bound(s);
        assert(nonslash_prefix_len(s) == 1 + nonslash_prefix_len(s.drop_first()));
        lemma_nonslash_prefix_len_bound(s.drop_first());
    }
}

/// Whether a path element is the parse of the given raw segment: a segment
/// wrapped in `{ }` is a named parameter, anything else is static text.
pub open spec fn elem_matches(e: PathElement, seg: Seq<char>) -> bool {
    if seg.len() >= 2 && seg[0] == '{' && seg.last() == '}' {
        e is Parameter && e->Parameter_0@ == seg.subrange(1, seg.len() - 1)
    } else {
        e is Static && e->Static_0@ == seg
    }
}

/// Splits a string into its non-empty `'/'`-separated segments.
fn split_path_segments(s: &str) -> (segs: Vec<String>)
    ensures
        segs.deep_view() == split_slash(s@),
{
    let n = s.unicode_len();
    let mut segs: Vec<String> = Vec::new();
    let mut cur = String::new();
    proof {
        assert(s@.skip(0) =~= s@);
    }
    for i in 0..n
        invariant
            n == s@.len(),
            !cur@.contains('/'),
            split_slash(s@) =~= segs.deep_view() + split_cont(cur@, s@.skip(i as int)),
    {
        let c = s.get_char(i);
        proof {
            assert(s@.skip(i as int)[0] == s@[i as int]);
            assert(s@.skip(i as int).drop_first() =~= s@.skip(i + 1));
        }
        if c == '/' {
            proof {
                lemma_split_cont_slash(cur@, s@.skip(i as int));
            }
            if cur.unicode_len() > 0 {
                segs.push(cur);
                cur = String::new();
            }
            proof {
                assert(split_slash(s@) =~= segs.deep_view() + split_cont(
                    cur@,
                    s@.skip(i + 1),
                ));
            }
        } else {
            proof {
                lemma_split_cont_step(cur@, s@.skip(i as int));
            }
            string_push(&mut cur, c);
        }
    }
    proof {
        assert(s@.skip(n as int) =~= Seq::<char>::empty());
        lemma_split_cont_end(cur@);
    }
    if cur.unicode_len() > 0 {
        segs.push(cur);
    }
    segs
}

/// The segments of `cur + rest`, where `cur` is a `'/'`-free run already
/// scanned and `rest` is the unscanned remainder.
pub open spec fn split_cont(cur: Seq<char>, rest: Seq<char>) -> Seq<Seq<char>> {
    if cur.len() == 0 {
        split_slash(rest)
    } else {
        let m = nonslash_prefix_len(rest);
        seq![cur + rest.take(m)] + split_slash(rest.skip(m))
    }
}

proof fn lemma_split_cont_slash(cur: Seq<char>, rest: Seq<char>)
    requires
        rest.len() > 0,
        rest[0] == '/',
        !cur.contains('/'),
    ensures
        split_cont(cur, rest) == if cur.len() == 0 {
            split_cont(Seq::<char>::empty(), rest.drop_first())
        } else {
            seq![cur] + split_cont(Seq::<char>::empty(), rest.drop_first())
        },
{
    if cur.len() == 0 {
    } else {
        assert(nonslash_prefix_len(rest) == 0);
        assert(rest.take(0) =~= Seq::<char>::empty());
        assert(cur + rest.take(0) =~= cur);
        assert(rest.skip(0) =~= rest);
    }
}

proof fn lemma_split_cont_step(cur: Seq<char>, rest: Seq<char>)
    requires
        rest.len() > 0,
        rest[0] != '/',
        !cur.contains('/'),
    ensures
        split_cont(cur, rest) == split_cont(cur.push(rest[0]), rest.drop_first()),
    decreases cur.len(),
{
    let m = nonslash_prefix_len(rest);
    let m2 = nonslash_prefix_len(rest.drop_first());
    assert(m == 1 + m2);
    assert(0 <= m2 <= rest.drop_first().len()) by {
        lemma_nonslash_prefix_len_bound(rest.drop_first());
    }
    if cur.len() == 0 {
        assert(cur =~= Seq::<char>::empty());
        assert(split_slash(rest) == seq![rest.take(m)] + split_slash(rest.skip(m)));
        assert(rest.take(m) =~= seq![rest[0]] + rest.drop_first().take(m2));
        assert(cur.push(rest[0]) + rest.drop_first().take(m2) =~= rest.take(m));
        assert(rest.skip(m) =~= rest.drop_first().skip(m2));
        assert(split_cont(cur.push(rest[0]), rest.drop_first()) == seq![cur.push(rest[0])
            + rest.drop_first().take(m2)] + split_slash(rest.drop_first().skip(m2)));
    } else {
        assert(cur + rest.take(m) =~= cur.push(rest[0]) + rest.drop_first().take(m2));
        assert(rest.skip(m) =~= rest.drop_first().skip(m2));
    }
}

proof fn lemma_split_cont_end(cur: Seq<char>)
    ensures
        split_cont(cur, Seq::<char>::empty()) == if cur.len() == 0 {
            Seq::<Seq<char>>::empty()
        } else {
            seq![cur]
        },
{
    if cur.len() > 0 {
        assert(nonslash_prefix_len(Seq::<char>::empty()) == 0);
        assert(Seq::<char>::empty().take(0) =~= Seq::<char>::empty());
        assert(cur + Seq::<char>::empty() =~= cur);
        assert(Seq::<char>::empty().skip(0) =~= Seq::<char>::empty());
        assert(split_cont(cur, Seq::<char>::empty()) =~= seq![cur]);
    }
}

proof fn lemma_nonslash_prefix_len_bound(s: Seq<char>)
    ensures
        0 <= nonslash_prefix_len(s) <= s.len(),
    decreases s.len(),
{
    if s.len() == 0 || s[0] == '/' {
    } else {
        lemma_nonslash_prefix_len_bound(s.drop_first());
    }
}

impl PathName {
    /// Parses a raw path template: split on `'/'`, drop empty segments, and
    /// treat any segment wrapped in `{ }` as a named parameter. The raw
    /// string is retained unchanged for substitution.
    pub fn parse(s: &str) -> (r: PathName)
        ensures
            r.internal@ == s@,
            r.elements@.len() == split_slash(s@).len(),
            forall|i: int|
                0 <= i < r.elements@.len() ==> elem_matches(
                    #[trigger] r.elements@[i],
                    split_slash(s@)[i],
                ),
    {
        let segs = split_path_segments(s);
        let mut elements: Vec<PathElement> = Vec::new();
        let n = segs.len();
        for i in 0..n
            invariant
                n == segs.len(),
                segs.deep_view() == split_slash(s@),
                elements@.len() == i,
                forall|j: int|
                    0 <= j < i ==> elem_matches(
                        #[trigger] elements@[j],
                        split_slash(s@)[j],
                    ),
        {
            let seg = &segs[i];
            let ln = seg.as_str().unicode_len();
            proof {
                assert(segs.deep_view()[i as int] == segs@[i as int]@);
            }
            if ln >= 2 && seg.as_str().get_char(0) == '{' && seg.as_str().get_char(ln - 1)
                == '}' {
                let inner = seg.as_str().substring_char(1, ln - 1);
                proof {
                    assert(inner@ =~= seg@.subrange(1, seg@.len() - 1));
                }
                elements.push(PathElement::Parameter(inner.to_owned()));
            } else {
                elements.push(PathElement::Static(seg.clone()));
            }
        }
        PathName { internal: s.to_owned(), elements }
    }
}

/// Where an operation parameter appears.
#[derive(Clone, Copy, PartialEq, Eq, Structural, Debug)]
pub enum InLocation {
    Query,
    Header,
    Path,
    Cookie,
}

/// One operation parameter: its wire name, location, requiredness, inlined
/// schema and optional description.
#[derive(Debug)]
pub struct Parameter {
    pub name: String,
    pub in_: InLocation,
    pub required: bool,
    pub schema: Type,
    pub description: Option<String>,
}

/// Operation parameters partitioned by location; header parameters are
/// carried but not used in generation, cookie parameters are dropped.
#[derive(Debug)]
pub struct ParameterLocations {
    pub query: Vec<Parameter>,
    pub header: Vec<Parameter>,
    pub path: Vec<Parameter>,
}

impl Default for ParameterLocations {
    /// Three empty buckets.
    fn default() -> (r: Self)
        ensures
            r.query@.len() == 0,
            r.header@.len() == 0,
            r.path@.len() == 0,
    {
        ParameterLocations { query: Vec::new(), header: Vec::new(), path: Vec::new() }
    }
}

impl ParameterLocations {
    /// Partitions a flat parameter list into the three buckets, preserving
    /// the order within each; cookie parameters are dropped.
    pub fn partition(params: Vec<Parameter>) -> (r: ParameterLocations)
        ensures
            r.query@ == params@.filter(|p: Parameter| p.in_ is Query),
            r.header@ == params@.filter(|p: Parameter| p.in_ is Header),
            r.path@ == params@.filter(|p: Parameter| p.in_ is Path),
    {
        let ghost all = params@;
        let mut rest = params;
        let mut query: Vec<Parameter> = Vec::new();
        let mut header: Vec<Parameter> = Vec::new();
        let mut path: Vec<Parameter> = Vec::new();
        let ghost n = all.len();
        proof {
            assert(all.take(0).filter(|p: Parameter| p.in_ is Query) =~= Seq::<
                Parameter,
            >::empty());
            assert(all.take(0).filter(|p: Parameter| p.in_ is Header) =~= Seq::<
                Parameter,
            >::empty());
            assert(all.take(0).filter(|p: Parameter| p.in_ is Path) =~= Seq::<
                Parameter,
            >::empty());
            assert(all.skip(0) =~= all);
        }
        while rest.len() > 0
            invariant
                rest@.len() <= n,
                all.len() == n,
                rest@ == all.skip(n - rest@.len()),
                query@ == all.take(n - rest@.len()).filter(|p: Parameter| p.in_ is Query),
                header@ == all.take(n - rest@.len()).filter(|p: Parameter| p.in_ is Header),
                path@ == all.take(n - rest@.len()).filter(|p: Parameter| p.in_ is Path),
            decreases rest@.len(),
        {
            let ghost i = n - rest@.len();
            let p = rest.remove(0);
            proof {
                assert(p == all[i]);
                assert(rest@ =~= all.skip(i + 1));
                assert(all.take(i + 1).drop_last() =~= all.take(i as int));
                assert(all.take(i + 1).last() == all[i]);
                reveal_with_fuel(Seq::filter, 2);
            }
            match p.in_ {
                InLocation::Query => query.push(p),
                InLocation::Header => header.push(p),
                InLocation::Path => path.push(p),
                InLocation::Cookie => {},
            }
        }
        proof {
            assert(all.take(n as int) =~= all);
        }
        ParameterLocations { query, header, path }
    }
}

impl ParameterLocations {
    /// Flattens the three buckets back into one list: query parameters
    /// first, then header, then path.
    pub fn flatten(self) -> (r: Vec<Parameter>)
        ensures
            r@ == self.query@ + self.header@ + self.path@,
    {
        let ParameterLocations { mut query, mut header, mut path } = self;
        let ghost q = query@;
        let ghost h = header@;
        let ghost p = path@;
        query.append(&mut header);
        query.append(&mut path);
        proof {
            assert(query@ =~= q + h + p);
        }
        query
    }
}

/// One response entry: an optional description and an optional schema.
#[derive(Debug)]
pub struct Response {
    pub description: Option<String>,
    pub schema: Option<Type>,
}

/// One API operation under a path template.
#[derive(Debug)]
pub struct Operation {
    pub tags: Option<Vec<String>>,
    pub operation_id: Option<String>,
    pub consumes: Option<Vec<String>>,
    pub produces: Option<Vec<String>>,
    pub summary: Option<String>,
    pub description: Option<String>,
    pub parameters: ParameterLocations,
    pub responses: Vec<(String, Response)>,
}

/// The document's version tag.
#[derive(Clone, Copy, PartialEq, Eq, Structural, Debug)]
pub enum SwaggerVersion {
    V2,
    V3,
}

/// A transport scheme the document allows.
#[derive(Clone, Copy, PartialEq, Eq, Structural, Debug)]
pub enum Scheme {
    Http,
    Https,
    Ws,
    Wss,
}

/// Document metadata.
#[derive(Debug)]
pub struct Info {
    pub title: String,
    pub version: String,
    pub description: Option<String>,
    pub terms_of_service: Option<String>,
    pub contact: Option<Contact>,
    pub license: Option<License>,
}

/// Contact metadata of the document.
#[derive(Debug)]
pub struct Contact {
    pub name: Option<String>,
    pub url: Option<String>,
    pub email: Option<String>,
}

/// License metadata of the document.
#[derive(Debug)]
pub struct License {
    pub name: String,
    pub url: Option<String>,
}

/// The operations under one path template, keyed by method.
#[derive(Debug)]
pub struct PathItem {
    pub methods: Vec<(crate::Method, Operation)>,
}

/// The parsed API document.
#[derive(Debug)]
pub struct SwaggerFile {
    pub swagger: SwaggerVersion,
    pub info: Info,
    pub host: String,
    pub schemes: Vec<Scheme>,
    pub paths: Vec<(PathName, PathItem)>,
    pub definitions: Vec<(String, Type)>,
}

} // verus!
