//! The naming context: the per-run mutable state of a generation pass — the
//! nesting-path stack that derives full names, the override table, the
//! constant-parameter set, the definitions registry, and the accumulating
//! output scope.

use vstd::prelude::*;

use crate::output::{scope_wf, Decl};
use crate::text::{str_eq, to_upper_camel, upper_camel_of};

verus! {

/// First-match lookup in an association list of string pairs.
pub open spec fn lookup_of(pairs: Seq<(String, String)>, key: Seq<char>) -> Option<Seq<char>>
    decreases pairs.len(),
{
    if pairs.len() == 0 {
        Option::None
    } else if pairs[0].0@ == key {
        Option::Some(pairs[0].1@)
    } else {
        lookup_of(pairs.drop_first(), key)
    }
}

/// Whether a string list holds the given string.
pub open spec fn contains_str(v: Seq<String>, s: Seq<char>) -> bool {
    exists|i: int| 0 <= i < v.len() && v[i]@ == s
}

/// The full name of a nesting path: each fragment converted to
/// upper-camel-case and concatenated from outermost to innermost, with no
/// separators.
pub open spec fn full_name_of(stack: Seq<Seq<char>>) -> Seq<char>
    decreases stack.len(),
{
    if stack.len() == 0 {
        Seq::empty()
    } else {
        upper_camel_of(stack[0]) + full_name_of(stack.drop_first())
    }
}

/// Extending the nesting path appends the new fragment's camel-case form to
/// the full name.
pub proof fn lemma_full_name_push(stack: Seq<Seq<char>>, x: Seq<char>)
    ensures
        full_name_of(stack.push(x)) == full_name_of(stack) + upper_camel_of(x),
    decreases stack.len(),
{
    if stack.len() == 0 {
        reveal_with_fuel(full_name_of, 2);
        assert(stack.push(x)[0] == x);
        assert(stack.push(x).drop_first() =~= Seq::<Seq<char>>::empty());
        assert(full_name_of(stack.push(x)) == upper_camel_of(x) + Seq::<char>::empty());
        assert(upper_camel_of(x) + Seq::<char>::empty() =~= Seq::<char>::empty()
            + upper_camel_of(x));
    } else {
        assert(stack.push(x).drop_first() =~= stack.drop_first().push(x));
        assert(stack.push(x)[0] == stack[0]);
        lemma_full_name_push(stack.drop_first(), x);
        assert(upper_camel_of(stack[0]) + (full_name_of(stack.drop_first()) + upper_camel_of(
            x,
        )) =~= (upper_camel_of(stack[0]) + full_name_of(stack.drop_first())) + upper_camel_of(
            x,
        ));
    }
}

/// The mutable heart of a generation run. Created once per run, threaded
/// through every resolution call as a single-owner value, and discarded when
/// the output scope has been consumed.
#[derive(Debug)]
pub struct Context {
    /// The definitions registry: reference key to declared output name,
    /// built once before any schema is resolved.
    pub types: Vec<(String, String)>,
    /// The override table: candidate output name to externally supplied type
    /// name. Overrides always win and never trigger synthesis.
    pub extra_types: Vec<(String, String)>,
    /// Parameter names supplied by client configuration rather than by
    /// generated signatures.
    pub constant_parameters: Vec<String>,
    /// The nesting-path stack, outermost first.
    pub name_stack: Vec<String>,
    /// The prefix stripped from definition names when deriving output names.
    pub strip_prefix: Option<String>,
    /// The output scope: all synthesized declarations in discovery order,
    /// keyed by their full name.
    pub scope: Vec<Decl>,
}

impl Context {
    /// The parts of the context that no resolution step may change: the
    /// registry, the override table, the constant-parameter set and the
    /// configured prefix.
    pub open spec fn same_config(&self, other: &Context) -> bool {
        self.types@ == other.types@ && self.extra_types@ == other.extra_types@
            && self.constant_parameters@ == other.constant_parameters@ && self.strip_prefix
            == other.strip_prefix
    }

    /// A fresh context with the given configuration, an empty stack and an
    /// empty scope.
    pub fn new(
        types: Vec<(String, String)>,
        extra_types: Vec<(String, String)>,
        constant_parameters: Vec<String>,
        strip_prefix: Option<String>,
    ) -> (r: Context)
        ensures
            r.types@ == types@,
            r.extra_types@ == extra_types@,
            r.constant_parameters@ == constant_parameters@,
            r.strip_prefix == strip_prefix,
            r.name_stack@.len() == 0,
            r.scope@.len() == 0,
            scope_wf(r.scope@),
    {
        Context {
            types,
            extra_types,
            constant_parameters,
            name_stack: Vec::new(),
            strip_prefix,
            scope: Vec::new(),
        }
    }

    /// Enters one nesting level: pushes a name fragment. Every push is
    /// matched by exactly one `pop_name` on every exit path.
    pub fn handle_with_name(&mut self, name: String)
        ensures
            final(self).name_stack@ == old(self).name_stack@.push(name),
            final(self).scope@ == old(self).scope@,
            final(self).same_config(old(self)),
    {
        self.name_stack.push(name);
    }

    /// Leaves one nesting level: pops the innermost name fragment.
    pub fn pop_name(&mut self)
        requires
            old(self).name_stack@.len() > 0,
        ensures
            final(self).name_stack@ == old(self).name_stack@.drop_last(),
            final(self).scope@ == old(self).scope@,
            final(self).same_config(old(self)),
    {
        let _ = self.name_stack.pop();
    }

    /// The full name of the current nesting path: the stack joined, each
    /// fragment upper-camel-cased, outermost to innermost.
    pub fn get_name(&self) -> (r: String)
        ensures
            r@ == full_name_of(self.name_stack.deep_view()),
    {
        let mut out = String::new();
        let n = self.name_stack.len();
        for i in 0..n
            invariant
                n == self.name_stack.len(),
                out@ == full_name_of(self.name_stack.deep_view().take(i as int)),
        {
            proof {
                lemma_full_name_push(
                    self.name_stack.deep_view().take(i as int),
                    self.name_stack@[i as int]@,
                );
                assert(self.name_stack.deep_view().take(i as int).push(
                    self.name_stack@[i as int]@,
                ) =~= self.name_stack.deep_view().take(i + 1));
            }
            let frag = to_upper_camel(self.name_stack[i].as_str());
            out.append(frag.as_str());
        }
        proof {
            assert(self.name_stack.deep_view().take(n as int) =~= self.name_stack.deep_view());
        }
        out
    }

    /// The innermost name fragment, when one exists.
    pub fn get_top_name(&self) -> (r: Option<String>)
        ensures
            match r {
                Option::Some(s) => self.name_stack@.len() > 0 && s@
                    == self.name_stack@.last()@,
                Option::None => self.name_stack@.len() == 0,
            },
    {
        let n = self.name_stack.len();
        if n == 0 {
            Option::None
        } else {
            Option::Some(self.name_stack[n - 1].clone())
        }
    }

    /// Exact-match lookup in the override table.
    pub fn resolve_override(&self, candidate: &str) -> (r: Option<String>)
        ensures
            match r {
                Option::Some(s) => lookup_of(self.extra_types@, candidate@)
                    == Option::Some(s@),
                Option::None => lookup_of(self.extra_types@, candidate@) is None,
            },
    {
        lookup_pairs(&self.extra_types, candidate)
    }

    /// Lookup in the definitions registry.
    pub fn lookup_definition(&self, key: &str) -> (r: Option<String>)
        ensures
            match r {
                Option::Some(s) => lookup_of(self.types@, key@) == Option::Some(s@),
                Option::None => lookup_of(self.types@, key@) is None,
            },
    {
        lookup_pairs(&self.types, key)
    }

    /// Membership test against the constant-parameter set.
    pub fn is_constant(&self, name: &str) -> (r: bool)
        ensures
            r == contains_str(self.constant_parameters@, name@),
    {
        vec_contains_str(&self.constant_parameters, name)
    }
}

/// Whether the string list holds the given string.
pub fn vec_contains_str(v: &Vec<String>, s: &str) -> (r: bool)
    ensures
        r == contains_str(v@, s@),
{
    let n = v.len();
    for i in 0..n
        invariant
            n == v.len(),
            forall|j: int| 0 <= j < i ==> v@[j]@ != s@,
    {
        if str_eq(v[i].as_str(), s) {
            return true;
        }
    }
    false
}

/// First-match scan of an association list.
fn lookup_pairs(pairs: &Vec<(String, String)>, key: &str) -> (r: Option<String>)
    ensures
        match r {
            Option::Some(s) => lookup_of(pairs@, key@) == Option::Some(s@),
            Option::None => lookup_of(pairs@, key@) is None,
        },
{
    let n = pairs.len();
    proof {
        assert(pairs@.skip(0) =~= pairs@);
    }
    for i in 0..n
        invariant
            n == pairs.len(),
            lookup_of(pairs@, key@) == lookup_of(pairs@.skip(i as int), key@),
    {
        proof {
            assert(pairs@.skip(i as int)[0] == pairs@[i as int]);
            assert(pairs@.skip(i as int).drop_first() =~= pairs@.skip(i + 1));
        }
        if str_eq(pairs[i].0.as_str(), key) {
            return Option::Some(pairs[i].1.clone());
        }
    }
    Option::None
}

} // verus!
