//! The type resolver: maps a schema node to an output type name, synthesizing
//! uniquely-named declarations into the context's output scope on demand,
//! with override lookup and deduplication by full name.

use vstd::prelude::*;

use crate::naming::{contains_str, full_name_of, lookup_of, Context};
use crate::output::{
    decl_name, declare_in, lemma_declare_wf, scope_contains, scope_has, scope_wf, Decl,
    FieldDecl, VariantDecl, VariantValue,
};
use crate::schema::{format_name_of, NumberFormat, NumberLit, Type, TypeTagged, TypeUntagged};
use crate::text::{
    en_words_of, int_to_en_words, singular_of, singularize, snake_of, str_eq, to_snake,
    to_upper_camel, upper_camel_of,
};

verus! {

/// A fatal generation failure; any of these aborts the whole run.
#[derive(Clone, Copy, PartialEq, Eq, Structural, Debug)]
pub enum GenError {
    /// An enumeration or object site required a contextual name, but the
    /// naming stack was empty.
    MissingContextName,
    /// An enumeration literal whose spelling the word converter cannot
    /// produce (the smallest representable integer).
    NumberOutOfRange,
    /// A synthesized declaration's name was already taken: a nested site
    /// claimed its enclosing object's full name, or a parameter-object or
    /// method name collided with an existing declaration.
    DuplicateName,
    /// An operation has no `"200"` response schema.
    MissingSuccessResponse,
}

/// The numeric type name a `number` node resolves to (`f64` when no format
/// is given).
pub open spec fn number_name_of(format: Option<NumberFormat>) -> Seq<char> {
    match format {
        Option::Some(f) => format_name_of(f),
        Option::None => "f64"@,
    }
}

/// The numeric type name an `integer` node resolves to (`i64` when no
/// format is given).
pub open spec fn integer_name_of(format: Option<NumberFormat>) -> Seq<char> {
    match format {
        Option::Some(f) => format_name_of(f),
        Option::None => "i64"@,
    }
}

/// The field identifier chosen for a property: its snake-case form, with the
/// reserved word `type` escaped.
pub open spec fn field_name_of(prop: Seq<char>) -> Seq<char> {
    if snake_of(prop) == "type"@ {
        "type_"@
    } else {
        snake_of(prop)
    }
}

/// The variant identifier chosen for a string literal: escaped with a fixed
/// prefix when it begins with a digit, else its upper-camel-case form.
pub open spec fn text_variant_name_of(s: Seq<char>) -> Seq<char> {
    if s.len() > 0 && '0' <= s[0] <= '9' {
        seq!['_'] + s
    } else {
        upper_camel_of(s)
    }
}

/// The variant identifier chosen for an integer literal: its English
/// spelling, upper-camel-cased.
pub open spec fn int_variant_name_of(v: i64) -> Seq<char> {
    upper_camel_of(en_words_of(v))
}

/// The view of an optional string.
pub open spec fn opt_view(o: Option<String>) -> Option<Seq<char>> {
    match o {
        Option::Some(s) => Option::Some(s@),
        Option::None => Option::None,
    }
}

/// Whether the property's wire name stands in the required list.
pub open spec fn req_contains(required: Option<Vec<String>>, name: Seq<char>) -> bool {
    match required {
        Option::Some(v) => contains_str(v@, name),
        Option::None => false,
    }
}

/// What resolution never changes, and how the scope may change: the
/// configuration is untouched and the output scope grows append-only,
/// remaining uniquely keyed.
pub open spec fn scope_step_ok(old_c: Context, new_c: Context) -> bool {
    &&& new_c.same_config(&old_c)
    &&& old_c.scope@.is_prefix_of(new_c.scope@)
    &&& scope_wf(new_c.scope@)
}

/// The naming stack with its innermost fragment singularized, as an array
/// site leaves it before resolving its item schema.
pub open spec fn singularized_stack(stack: Seq<Seq<char>>) -> Seq<Seq<char>> {
    if stack.len() > 0 {
        stack.update(stack.len() - 1, singular_of(stack.last()))
    } else {
        stack
    }
}

/// The naming stack after resolving a tagged node: only an array site
/// changes it, by singularizing the innermost fragment before resolving its
/// item schema (which may singularize again).
pub open spec fn stack_after_of(t: TypeTagged, stack: Seq<Seq<char>>) -> Seq<Seq<char>>
    decreases t,
{
    match t {
        TypeTagged::Array { items } => stack_after_of_u(
            items.schema_object,
            singularized_stack(stack),
        ),
        TypeTagged::Object { properties: Option::None, additional_properties, .. } => {
            match additional_properties {
                Option::Some(add) => stack_after_of_u(add.schema_object, stack),
                Option::None => stack,
            }
        },
        _ => stack,
    }
}

/// The naming stack after resolving a schema node.
pub open spec fn stack_after_of_u(u: TypeUntagged, stack: Seq<Seq<char>>) -> Seq<Seq<char>>
    decreases u,
{
    match u {
        TypeUntagged::Tagged(t) => stack_after_of(t, stack),
        TypeUntagged::Ref { .. } => stack,
    }
}

/// Resolution touches at most the innermost fragment of the naming stack.
pub proof fn lemma_stack_after_frame(t: TypeTagged, stack: Seq<Seq<char>>)
    ensures
        stack_after_of(t, stack).len() == stack.len(),
        forall|i: int| 0 <= i < stack.len() - 1 ==> stack_after_of(t, stack)[i] == stack[i],
    decreases t,
{
    match t {
        TypeTagged::Array { items } => {
            let st2 = singularized_stack(stack);
            lemma_stack_after_frame_u(items.schema_object, st2);
            assert(stack_after_of(t, stack) == stack_after_of_u(items.schema_object, st2));
            assert forall|i: int|
                0 <= i < stack.len() - 1 implies stack_after_of(t, stack)[i] == stack[i] by {
                assert(st2[i] == stack[i]);
            }
        },
        TypeTagged::Object { properties: Option::None, additional_properties, .. } => {
            match additional_properties {
                Option::Some(add) => {
                    lemma_stack_after_frame_u(add.schema_object, stack);
                },
                Option::None => {},
            }
        },
        _ => {},
    }
}

/// Resolution touches at most the innermost fragment of the naming stack.
pub proof fn lemma_stack_after_frame_u(u: TypeUntagged, stack: Seq<Seq<char>>)
    ensures
        stack_after_of_u(u, stack).len() == stack.len(),
        forall|i: int| 0 <= i < stack.len() - 1 ==> stack_after_of_u(u, stack)[i] == stack[i],
    decreases u,
{
    match u {
        TypeUntagged::Tagged(t) => {
            lemma_stack_after_frame(t, stack);
        },
        TypeUntagged::Ref { .. } => {},
    }
}

/// The scope is unchanged and the result is the expected name.
pub open spec fn unchanged_result(
    old_c: Context,
    new_c: Context,
    r: Result<String, GenError>,
    expect: Seq<char>,
) -> bool {
    &&& new_c.scope@ == old_c.scope@
    &&& r matches Result::Ok(s) && s@ == expect
}

/// The override target for the current site: the innermost stack fragment,
/// upper-camel-cased, looked up in the override table.
pub open spec fn site_override(old_c: Context) -> Option<Seq<char>> {
    lookup_of(old_c.extra_types@, upper_camel_of(old_c.name_stack@.last()@))
}

/// The full name a site declares under: the whole stack, camel-joined, plus
/// a kind-specific suffix.
pub open spec fn site_full_name(old_c: Context, suffix: Seq<char>) -> Seq<char> {
    full_name_of(old_c.name_stack.deep_view()) + suffix
}

/// An integer-enum declaration with the given representation and one variant
/// per literal, named by spelling the literal as words.
pub open spec fn int_enum_decl_matches(d: Decl, repr_name: Seq<char>, values: Seq<i64>) -> bool {
    match d {
        Decl::EnumDecl { name: _, repr, variants } => {
            &&& opt_view(repr) == Option::Some(repr_name)
            &&& variants@.len() == values.len()
            &&& forall|i: int|
                0 <= i < values.len() ==> (#[trigger] variants@[i]).name@ == int_variant_name_of(
                    values[i],
                ) && variants@[i].value == VariantValue::IntVal(values[i])
        },
        _ => false,
    }
}

/// A number-enum declaration: variants named from the integer part of each
/// literal, each carrying its exact literal text as its wire value.
pub open spec fn num_enum_decl_matches(
    d: Decl,
    repr_name: Seq<char>,
    values: Seq<NumberLit>,
) -> bool {
    match d {
        Decl::EnumDecl { name: _, repr, variants } => {
            &&& opt_view(repr) == Option::Some(repr_name)
            &&& variants@.len() == values.len()
            &&& forall|i: int|
                0 <= i < values.len() ==> (#[trigger] variants@[i]).name@ == int_variant_name_of(
                    values[i].int_part,
                ) && (variants@[i].value matches VariantValue::NumVal(s) && s@
                    == values[i].text@)
        },
        _ => false,
    }
}

/// A string-enum declaration: one variant per literal, digit-leading names
/// escaped, each variant carrying its exact original string as its value.
pub open spec fn text_enum_decl_matches(d: Decl, values: Seq<String>) -> bool {
    match d {
        Decl::EnumDecl { name: _, repr, variants } => {
            &&& repr is None
            &&& variants@.len() == values.len()
            &&& forall|i: int|
                0 <= i < values.len() ==> (#[trigger] variants@[i]).name@
                    == text_variant_name_of(values[i]@) && (variants@[i].value
                    matches VariantValue::StrVal(s) && s@ == values[i]@)
        },
        _ => false,
    }
}

/// A struct declaration whose fields mirror the object's properties: chosen
/// identifiers, requiredness, recorded wire names and descriptions, with an
/// open-remainder field appended when `additionalProperties` is present.
/// Each field whose property resolves without a naming context (a reference
/// or primitive) carries exactly that resolved type name.
pub open spec fn object_decl_matches(
    d: Decl,
    props: Seq<(String, Type)>,
    required: Option<Vec<String>>,
    additional: Option<Box<Type>>,
    c: Context,
) -> bool {
    match d {
        Decl::StructDecl { name: _, fields } => {
            &&& fields@.len() == props.len() + (if additional is Some {
                1int
            } else {
                0int
            })
            &&& forall|i: int|
                0 <= i < props.len() ==> {
                    let f = #[trigger] fields@[i];
                    &&& f.name@ == field_name_of(props[i].0@)
                    &&& f.optional == !req_contains(required, props[i].0@)
                    &&& !f.flatten
                    &&& opt_view(f.wire_name) == (if props[i].0@ != field_name_of(props[i].0@) {
                        Option::Some(props[i].0@)
                    } else {
                        Option::<Seq<char>>::None
                    })
                    &&& opt_view(f.doc) == opt_view(props[i].1.description)
                    &&& (shallow_name_of(props[i].1.schema_object, c)
                        matches Option::Some(nm) ==> f.ty@ == nm)
                }
            &&& (additional matches Option::Some(add) ==> {
                let f = fields@[props.len() as int];
                &&& f.name@ == "additional_properties"@
                &&& f.flatten
                &&& !f.optional
                &&& f.wire_name is None
                &&& (shallow_name_of(add.schema_object, c) matches Option::Some(nm)
                    ==> f.ty@ == "std::collections::HashMap<String, "@ + nm + ">"@)
            })
        },
        _ => false,
    }
}

/// The outcome of an integer-enum site.
pub open spec fn int_enum_post(
    old_c: Context,
    new_c: Context,
    r: Result<String, GenError>,
    repr_name: Seq<char>,
    values: Seq<i64>,
) -> bool {
    if old_c.name_stack@.len() == 0 {
        new_c.scope@ == old_c.scope@ && (r matches Result::Err(e) && e is MissingContextName)
    } else if site_override(old_c) is Some {
        new_c.scope@ == old_c.scope@ && (r matches Result::Ok(s) && Option::Some(s@)
            == site_override(old_c))
    } else {
        let full = site_full_name(old_c, Seq::empty());
        if scope_has(old_c.scope@, full) {
            new_c.scope@ == old_c.scope@ && (r matches Result::Ok(s) && s@ == full)
        } else if exists|i: int| 0 <= i < values.len() && values[i] == i64::MIN {
            new_c.scope@ == old_c.scope@ && (r matches Result::Err(e) && e is NumberOutOfRange)
        } else {
            &&& (r matches Result::Ok(s) && s@ == full)
            &&& new_c.scope@.len() == old_c.scope@.len() + 1
            &&& new_c.scope@.drop_last() == old_c.scope@
            &&& decl_name(new_c.scope@.last()) == full
            &&& int_enum_decl_matches(new_c.scope@.last(), repr_name, values)
        }
    }
}

/// The outcome of a number-enum site.
pub open spec fn num_enum_post(
    old_c: Context,
    new_c: Context,
    r: Result<String, GenError>,
    repr_name: Seq<char>,
    values: Seq<NumberLit>,
) -> bool {
    if old_c.name_stack@.len() == 0 {
        new_c.scope@ == old_c.scope@ && (r matches Result::Err(e) && e is MissingContextName)
    } else if site_override(old_c) is Some {
        new_c.scope@ == old_c.scope@ && (r matches Result::Ok(s) && Option::Some(s@)
            == site_override(old_c))
    } else {
        let full = site_full_name(old_c, Seq::empty());
        if scope_has(old_c.scope@, full) {
            new_c.scope@ == old_c.scope@ && (r matches Result::Ok(s) && s@ == full)
        } else if exists|i: int| 0 <= i < values.len() && values[i].int_part == i64::MIN {
            new_c.scope@ == old_c.scope@ && (r matches Result::Err(e) && e is NumberOutOfRange)
        } else {
            &&& (r matches Result::Ok(s) && s@ == full)
            &&& new_c.scope@.len() == old_c.scope@.len() + 1
            &&& new_c.scope@.drop_last() == old_c.scope@
            &&& decl_name(new_c.scope@.last()) == full
            &&& num_enum_decl_matches(new_c.scope@.last(), repr_name, values)
        }
    }
}

/// The outcome of a string-enum site.
pub open spec fn text_enum_post(
    old_c: Context,
    new_c: Context,
    r: Result<String, GenError>,
    values: Seq<String>,
) -> bool {
    if old_c.name_stack@.len() == 0 {
        new_c.scope@ == old_c.scope@ && (r matches Result::Err(e) && e is MissingContextName)
    } else if site_override(old_c) is Some {
        new_c.scope@ == old_c.scope@ && (r matches Result::Ok(s) && Option::Some(s@)
            == site_override(old_c))
    } else {
        let full = site_full_name(old_c, Seq::empty());
        if scope_has(old_c.scope@, full) {
            new_c.scope@ == old_c.scope@ && (r matches Result::Ok(s) && s@ == full)
        } else {
            &&& (r matches Result::Ok(s) && s@ == full)
            &&& new_c.scope@.len() == old_c.scope@.len() + 1
            &&& new_c.scope@.drop_last() == old_c.scope@
            &&& decl_name(new_c.scope@.last()) == full
            &&& text_enum_decl_matches(new_c.scope@.last(), values)
        }
    }
}

/// The outcome of a string node: date formats map to date types (honoring a
/// `"DateTime"` override), an enumeration synthesizes a string enum, and
/// anything else is plain text.
pub open spec fn text_site_post(
    old_c: Context,
    new_c: Context,
    r: Result<String, GenError>,
    format: Option<String>,
    enum_values: Option<Vec<String>>,
) -> bool {
    if format matches Option::Some(f) && f@ == "date-time"@ {
        match lookup_of(old_c.extra_types@, "DateTime"@) {
            Option::Some(t) => unchanged_result(old_c, new_c, r, t),
            Option::None => unchanged_result(old_c, new_c, r, "chrono::NaiveDateTime"@),
        }
    } else if format matches Option::Some(f) && f@ == "date"@ {
        unchanged_result(old_c, new_c, r, "chrono::NaiveDate"@)
    } else {
        match enum_values {
            Option::Some(vs) => text_enum_post(old_c, new_c, r, vs@),
            Option::None => unchanged_result(old_c, new_c, r, "String"@),
        }
    }
}

/// The outcome of an object node: a bare open map, an open map of the
/// resolved `additionalProperties` schema, or a synthesized struct.
pub open spec fn object_post(
    old_c: Context,
    new_c: Context,
    r: Result<String, GenError>,
    properties: Option<Vec<(String, Type)>>,
    additional: Option<Box<Type>>,
    required: Option<Vec<String>>,
) -> bool {
    match properties {
        Option::None => {
            match additional {
                Option::None => unchanged_result(
                    old_c,
                    new_c,
                    r,
                    "std::collections::HashMap<String,serde_json::Value>"@,
                ),
                Option::Some(add) => {
                    &&& (r matches Result::Ok(s) ==> exists|inner: Seq<char>|
                        s@ == "std::collections::HashMap<String, "@ + inner + ">"@)
                    &&& (shallow_name_of(add.schema_object, old_c) matches Option::Some(nm)
                        ==> new_c.scope@ == old_c.scope@ && (r matches Result::Ok(s) && s@
                        == "std::collections::HashMap<String, "@ + nm + ">"@))
                },
            }
        },
        Option::Some(props) => {
            if old_c.name_stack@.len() == 0 {
                new_c.scope@ == old_c.scope@ && (r matches Result::Err(e)
                    && e is MissingContextName)
            } else if site_override(old_c) is Some {
                new_c.scope@ == old_c.scope@ && (r matches Result::Ok(s) && Option::Some(s@)
                    == site_override(old_c))
            } else {
                let full = site_full_name(old_c, Seq::empty());
                if scope_has(old_c.scope@, full) {
                    new_c.scope@ == old_c.scope@ && (r matches Result::Ok(s) && s@ == full)
                } else {
                    &&& (r matches Result::Ok(s) ==> {
                        &&& s@ == full
                        &&& new_c.scope@.len() > old_c.scope@.len()
                        &&& decl_name(new_c.scope@.last()) == full
                        &&& object_decl_matches(
                            new_c.scope@.last(),
                            props@,
                            required,
                            additional,
                            old_c,
                        )
                    })
                    &&& ((forall|i: int|
                        0 <= i < props@.len() ==> shallow_name_of(
                            (#[trigger] props@[i]).1.schema_object,
                            old_c,
                        ) is Some) && (additional matches Option::Some(add)
                        ==> shallow_name_of(add.schema_object, old_c) is Some) ==> r is Ok)
                }
            }
        },
    }
}

/// What a reference to a definition resolves to in a given context: the
/// registered output name, subject to override, or the generic open value
/// type when unregistered.
pub open spec fn ref_result_of(c: Context, key: Seq<char>) -> Seq<char> {
    match lookup_of(c.types@, key) {
        Option::Some(nm) => match lookup_of(c.extra_types@, nm) {
            Option::Some(ov) => ov,
            Option::None => nm,
        },
        Option::None => "serde_json::Value"@,
    }
}

/// The output name of a schema node that resolves without consulting the
/// naming stack or the scope: references, primitives, and arrays and open
/// maps built from them. Named synthesis sites have no such name.
pub open spec fn shallow_name_of(u: TypeUntagged, c: Context) -> Option<Seq<char>>
    decreases u,
{
    match u {
        TypeUntagged::Ref { target } => Option::Some(ref_result_of(c, target.0@)),
        TypeUntagged::Tagged(t) => match t {
            TypeTagged::Boolean => Option::Some("bool"@),
            TypeTagged::Number { format, enum_values } => match enum_values {
                Option::None => Option::Some(number_name_of(format)),
                Option::Some(_) => Option::None,
            },
            TypeTagged::Integer { format, enum_values } => match enum_values {
                Option::None => Option::Some(integer_name_of(format)),
                Option::Some(_) => Option::None,
            },
            TypeTagged::Text { format, enum_values } => {
                if format matches Option::Some(f) && f@ == "date-time"@ {
                    Option::Some(
                        match lookup_of(c.extra_types@, "DateTime"@) {
                            Option::Some(t2) => t2,
                            Option::None => "chrono::NaiveDateTime"@,
                        },
                    )
                } else if format matches Option::Some(f) && f@ == "date"@ {
                    Option::Some("chrono::NaiveDate"@)
                } else {
                    match enum_values {
                        Option::Some(_) => Option::None,
                        Option::None => Option::Some("String"@),
                    }
                }
            },
            TypeTagged::Array { items } => match shallow_name_of(items.schema_object, c) {
                Option::Some(nm) => Option::Some("Vec<"@ + nm + ">"@),
                Option::None => Option::None,
            },
            TypeTagged::Object {
                properties: Option::None,
                additional_properties,
                ..
            } => match additional_properties {
                Option::None => Option::Some(
                    "std::collections::HashMap<String,serde_json::Value>"@,
                ),
                Option::Some(add) => match shallow_name_of(add.schema_object, c) {
                    Option::Some(nm) => Option::Some(
                        "std::collections::HashMap<String, "@ + nm + ">"@,
                    ),
                    Option::None => Option::None,
                },
            },
            _ => Option::None,
        },
    }
}

/// The shallow name of a node reads only the registry and the override
/// table, so two contexts with the same configuration agree on it.
pub proof fn lemma_shallow_same_config(u: TypeUntagged, c1: Context, c2: Context)
    requires
        c1.types@ == c2.types@,
        c1.extra_types@ == c2.extra_types@,
    ensures
        shallow_name_of(u, c1) == shallow_name_of(u, c2),
    decreases u,
{
    match u {
        TypeUntagged::Tagged(t) => match t {
            TypeTagged::Array { items } => {
                lemma_shallow_same_config(items.schema_object, c1, c2);
            },
            TypeTagged::Object { properties: Option::None, additional_properties, .. } => {
                match additional_properties {
                    Option::Some(add) => {
                        lemma_shallow_same_config(add.schema_object, c1, c2);
                    },
                    Option::None => {},
                }
            },
            _ => {},
        },
        TypeUntagged::Ref { .. } => {},
    }
}

/// A node with a shallow name always resolves to exactly that name without
/// touching the output scope.
pub proof fn lemma_shallow_post(
    u: TypeUntagged,
    old_c: Context,
    new_c: Context,
    r: Result<String, GenError>,
)
    requires
        untagged_post(u, old_c, new_c, r),
        shallow_name_of(u, old_c) is Some,
    ensures
        new_c.scope@ == old_c.scope@,
        r matches Result::Ok(s) && Option::Some(s@) == shallow_name_of(u, old_c),
{
}

/// The outcome of resolving a tagged schema node, by node kind.
pub open spec fn tagged_post(
    t: TypeTagged,
    old_c: Context,
    new_c: Context,
    r: Result<String, GenError>,
) -> bool {
    match t {
        TypeTagged::Number { format, enum_values } => match enum_values {
            Option::None => unchanged_result(old_c, new_c, r, number_name_of(format)),
            Option::Some(vs) => num_enum_post(old_c, new_c, r, number_name_of(format), vs@),
        },
        TypeTagged::Integer { format, enum_values } => match enum_values {
            Option::None => unchanged_result(old_c, new_c, r, integer_name_of(format)),
            Option::Some(vs) => int_enum_post(old_c, new_c, r, integer_name_of(format), vs@),
        },
        TypeTagged::Text { format, enum_values } => text_site_post(
            old_c,
            new_c,
            r,
            format,
            enum_values,
        ),
        TypeTagged::Boolean => unchanged_result(old_c, new_c, r, "bool"@),
        TypeTagged::Array { items } => {
            let st2 = singularized_stack(old_c.name_stack.deep_view());
            &&& (r matches Result::Ok(s) ==> exists|inner: Seq<char>|
                s@ == "Vec<"@ + inner + ">"@)
            &&& (shallow_name_of(items.schema_object, old_c) matches Option::Some(nm)
                ==> new_c.scope@ == old_c.scope@ && (r matches Result::Ok(s) && s@
                == "Vec<"@ + nm + ">"@))
            &&& (items.schema_object matches TypeUntagged::Tagged(t2) && is_named_site(t2)
                && st2.len() > 0 ==> (match lookup_of(
                old_c.extra_types@,
                upper_camel_of(st2.last()),
            ) {
                Option::Some(ov) => r matches Result::Ok(s) ==> s@ == "Vec<"@ + ov + ">"@,
                Option::None => r matches Result::Ok(s) ==> s@ == "Vec<"@ + full_name_of(
                    st2,
                ) + ">"@,
            }))
        },
        TypeTagged::Object { properties, additional_properties, required } => object_post(
            old_c,
            new_c,
            r,
            properties,
            additional_properties,
            required,
        ),
    }
}

/// The outcome of resolving a reference node: a registry hit resolves to the
/// definition's output name, itself subject to override; a miss degrades to
/// the generic open value type rather than failing.
pub open spec fn ref_post(
    old_c: Context,
    new_c: Context,
    r: Result<String, GenError>,
    key: Seq<char>,
) -> bool {
    &&& new_c.scope@ == old_c.scope@
    &&& match lookup_of(old_c.types@, key) {
        Option::Some(nm) => match lookup_of(old_c.extra_types@, nm) {
            Option::Some(ov) => r matches Result::Ok(s) && s@ == ov,
            Option::None => r matches Result::Ok(s) && s@ == nm,
        },
        Option::None => r matches Result::Ok(s) && s@ == "serde_json::Value"@,
    }
}

/// The outcome of resolving any schema node.
pub open spec fn untagged_post(
    u: TypeUntagged,
    old_c: Context,
    new_c: Context,
    r: Result<String, GenError>,
) -> bool {
    match u {
        TypeUntagged::Tagged(t) => tagged_post(t, old_c, new_c, r),
        TypeUntagged::Ref { target } => ref_post(old_c, new_c, r, target.0@),
    }
}

/// Resolves a schema node to its output type name, synthesizing any needed
/// declarations into the context's output scope.
pub fn resolve_type(ctx: &mut Context, ty: &Type) -> (r: Result<String, GenError>)
    requires
        scope_wf(old(ctx).scope@),
    ensures
        scope_step_ok(*old(ctx), *final(ctx)),
        final(ctx).name_stack.deep_view() == stack_after_of_u(
            ty.schema_object,
            old(ctx).name_stack.deep_view(),
        ),
        untagged_post(ty.schema_object, *old(ctx), *final(ctx), r),
        r matches Result::Err(e) ==> !(e is MissingSuccessResponse),
    decreases *ty,
{
    match &ty.schema_object {
        TypeUntagged::Tagged(t) => resolve_tagged(ctx, t),
        TypeUntagged::Ref { target } => {
            match ctx.lookup_definition(target.0.as_str()) {
                Option::Some(nm) => {
                    match ctx.resolve_override(nm.as_str()) {
                        Option::Some(ov) => Result::Ok(ov),
                        Option::None => Result::Ok(nm),
                    }
                },
                Option::None => Result::Ok("serde_json::Value".to_owned()),
            }
        },
    }
}

/// Resolves a tagged schema node, dispatching on its kind.
#[verifier::loop_isolation(false)]
#[verifier::rlimit(100)]
#[verifier::spinoff_prover]
pub fn resolve_tagged(ctx: &mut Context, t: &TypeTagged) -> (r: Result<String, GenError>)
    requires
        scope_wf(old(ctx).scope@),
    ensures
        scope_step_ok(*old(ctx), *final(ctx)),
        final(ctx).name_stack.deep_view() == stack_after_of(
            *t,
            old(ctx).name_stack.deep_view(),
        ),
        tagged_post(*t, *old(ctx), *final(ctx), r),
        r matches Result::Err(e) ==> !(e is MissingSuccessResponse),
    decreases *t,
{
    match t {
        TypeTagged::Boolean => Result::Ok("bool".to_owned()),
        TypeTagged::Number { format, enum_values } => {
            let base = match format {
                Option::Some(f) => f.output_name().to_owned(),
                Option::None => "f64".to_owned(),
            };
            match enum_values {
                Option::None => Result::Ok(base),
                Option::Some(vs) => resolve_num_enum(ctx, base, vs),
            }
        },
        TypeTagged::Integer { format, enum_values } => {
            let base = match format {
                Option::Some(f) => f.output_name().to_owned(),
                Option::None => "i64".to_owned(),
            };
            match enum_values {
                Option::None => Result::Ok(base),
                Option::Some(vs) => resolve_int_enum(ctx, base, vs),
            }
        },
        TypeTagged::Text { format, enum_values } => {
            let is_date_time = match format {
                Option::Some(f) => str_eq(f.as_str(), "date-time"),
                Option::None => false,
            };
            let is_date = match format {
                Option::Some(f) => str_eq(f.as_str(), "date"),
                Option::None => false,
            };
            if is_date_time {
                match ctx.resolve_override("DateTime") {
                    Option::Some(t2) => Result::Ok(t2),
                    Option::None => Result::Ok("chrono::NaiveDateTime".to_owned()),
                }
            } else if is_date {
                Result::Ok("chrono::NaiveDate".to_owned())
            } else {
                match enum_values {
                    Option::Some(vs) => resolve_text_enum(ctx, vs),
                    Option::None => Result::Ok("String".to_owned()),
                }
            }
        },
        TypeTagged::Array { items } => {
            if ctx.name_stack.len() > 0 {
                let top = ctx.name_stack.pop().unwrap();
                let sing = singularize(top.as_str());
                ctx.name_stack.push(sing);
                proof {
                    assert(ctx.name_stack.deep_view() =~= old(ctx).name_stack.deep_view().update(
                        old(ctx).name_stack.deep_view().len() - 1,
                        singular_of(old(ctx).name_stack.deep_view().last()),
                    ));
                }
            }
            let ghost c_mid = *ctx;
            proof {
                assert(c_mid.name_stack.deep_view() =~= singularized_stack(
                    old(ctx).name_stack.deep_view(),
                ));
                assert(c_mid.name_stack@.len() == c_mid.name_stack.deep_view().len());
                if c_mid.name_stack@.len() > 0 {
                    assert(c_mid.name_stack@.last()@ == c_mid.name_stack.deep_view().last());
                }
            }
            let inner = resolve_type(ctx, items);
            let ghost c_aft = *ctx;
            let ghost inner_g = inner;
            proof {
                if shallow_name_of(items.schema_object, *old(ctx)) is Some {
                    lemma_shallow_same_config(items.schema_object, *old(ctx), c_mid);
                    lemma_shallow_post(items.schema_object, c_mid, c_aft, inner_g);
                }
            }
            match inner {
                Result::Err(e) => Result::Err(e),
                Result::Ok(nm) => {
                    let mut s = "Vec<".to_owned();
                    s.append(nm.as_str());
                    s.append(">");
                    proof {
                        assert(s@ == "Vec<"@ + nm@ + ">"@);
                    }
                    Result::Ok(s)
                },
            }
        },
        TypeTagged::Object { properties, additional_properties, required } => {
            let props = match properties {
                Option::None => {
                    match additional_properties {
                        Option::None => {
                            return Result::Ok(
                                "std::collections::HashMap<String,serde_json::Value>".to_owned(),
                            );
                        },
                        Option::Some(add) => {
                            let ghost c_mid = *ctx;
                            let res = resolve_type(ctx, add);
                            let ghost c_aft = *ctx;
                            let ghost res_g = res;
                            proof {
                                if shallow_name_of(add.schema_object, *old(ctx)) is Some {
                                    lemma_shallow_same_config(
                                        add.schema_object,
                                        *old(ctx),
                                        c_mid,
                                    );
                                    lemma_shallow_post(add.schema_object, c_mid, c_aft, res_g);
                                }
                            }
                            match res {
                                Result::Err(e) => {
                                    return Result::Err(e);
                                },
                                Result::Ok(inner) => {
                                    let mut s =
                                        "std::collections::HashMap<String, ".to_owned();
                                    s.append(inner.as_str());
                                    s.append(">");
                                    proof {
                                        assert(s@ == "std::collections::HashMap<String, "@
                                            + inner@ + ">"@);
                                    }
                                    return Result::Ok(s);
                                },
                            }
                        },
                    }
                },
                Option::Some(props) => props,
            };
            let ghost st0 = ctx.name_stack.deep_view();
            let full = match site_name(ctx) {
                Result::Err(e) => {
                    return Result::Err(e);
                },
                Result::Ok(SiteHead::UseOverride(target)) => {
                    return Result::Ok(target);
                },
                Result::Ok(SiteHead::Declare(full)) => full,
            };
            if scope_contains(&ctx.scope, full.as_str()) {
                return Result::Ok(full);
            }
            let mut fields: Vec<FieldDecl> = Vec::new();
            let n = props.len();
            for i in 0..n
                invariant
                    n == props.len(),
                    ctx.same_config(old(ctx)),
                    st0 == old(ctx).name_stack.deep_view(),
                    st0.len() > 0,
                    ctx.name_stack.deep_view() == st0,
                    old(ctx).scope@.is_prefix_of(ctx.scope@),
                    scope_wf(ctx.scope@),
                    fields@.len() == i,
                    forall|j: int|
                        0 <= j < i ==> {
                            let f = #[trigger] fields@[j];
                            &&& f.name@ == field_name_of(props@[j].0@)
                            &&& f.optional == !req_contains(*required, props@[j].0@)
                            &&& !f.flatten
                            &&& opt_view(f.wire_name) == (if props@[j].0@ != field_name_of(
                                props@[j].0@,
                            ) {
                                Option::Some(props@[j].0@)
                            } else {
                                Option::<Seq<char>>::None
                            })
                            &&& opt_view(f.doc) == opt_view(props@[j].1.description)
                            &&& (shallow_name_of(props@[j].1.schema_object, *old(ctx))
                                matches Option::Some(nm) ==> f.ty@ == nm)
                        },
                    (forall|jj: int|
                        0 <= jj < props@.len() ==> shallow_name_of(
                            (#[trigger] props@[jj]).1.schema_object,
                            *old(ctx),
                        ) is Some) ==> ctx.scope@ == old(ctx).scope@,
            {
                let ghost sc_before = ctx.scope@;
                let prop_name = &props[i].0;
                let snake = to_snake(prop_name.as_str());
                let field_name = if str_eq(snake.as_str(), "type") {
                    "type_".to_owned()
                } else {
                    snake
                };
                ctx.handle_with_name(field_name.clone());
                proof {
                    assert(ctx.name_stack.deep_view() =~= st0.push(field_name@));
                    assert(decreases_to!(props@ => props@[i as int]));
                    assert(decreases_to!(*t => props@[i as int].1));
                }
                let ghost c_mid = *ctx;
                let res = resolve_type(ctx, &props[i].1);
                let ghost c_aft = *ctx;
                let ghost res_g = res;
                let ghost mid_seq = ctx.name_stack@;
                let ghost mid_deep = ctx.name_stack.deep_view();
                proof {
                    lemma_stack_after_frame_u(
                        props@[i as int].1.schema_object,
                        st0.push(field_name@),
                    );
                    assert(mid_deep.len() == st0.len() + 1);
                    assert(mid_seq.len() == mid_deep.len());
                }
                ctx.pop_name();
                proof {
                    assert(ctx.name_stack@ == mid_seq.drop_last());
                    assert forall|k: int|
                        0 <= k < st0.len() implies ctx.name_stack.deep_view()[k]
                        == st0[k] by {
                        assert(ctx.name_stack.deep_view()[k] == ctx.name_stack@[k]@);
                        assert(ctx.name_stack@[k] == mid_seq[k]);
                        assert(mid_deep[k] == mid_seq[k]@);
                        assert(mid_deep[k] == st0.push(field_name@)[k]);
                    }
                    assert(ctx.name_stack.deep_view().len() == st0.len());
                    assert(ctx.name_stack.deep_view() =~= st0);
                    lemma_prefix_trans(old(ctx).scope@, sc_before, ctx.scope@);
                }
                proof {
                    if shallow_name_of(
                        props@[i as int].1.schema_object,
                        *old(ctx),
                    ) is Some {
                        lemma_shallow_same_config(
                            props@[i as int].1.schema_object,
                            *old(ctx),
                            c_mid,
                        );
                        lemma_shallow_post(
                            props@[i as int].1.schema_object,
                            c_mid,
                            c_aft,
                            res_g,
                        );
                    }
                }
                match res {
                    Result::Err(e) => {
                        return Result::Err(e);
                    },
                    Result::Ok(fty) => {
                        let wire = if str_eq(prop_name.as_str(), field_name.as_str()) {
                            Option::None
                        } else {
                            Option::Some(prop_name.clone())
                        };
                        let is_req = match required {
                            Option::Some(rq) => crate::naming::vec_contains_str(
                                rq,
                                prop_name.as_str(),
                            ),
                            Option::None => false,
                        };
                        let doc = match &props[i].1.description {
                            Option::Some(dsc) => Option::Some(dsc.clone()),
                            Option::None => Option::None,
                        };
                        fields.push(
                            FieldDecl {
                                name: field_name,
                                ty: fty,
                                optional: !is_req,
                                wire_name: wire,
                                flatten: false,
                                doc,
                            },
                        );
                    },
                }
            }
            match additional_properties {
                Option::Some(add) => {
                    let ghost sc_before = ctx.scope@;
                    ctx.handle_with_name("additional_properties".to_owned());
                    proof {
                        assert(ctx.name_stack.deep_view() =~= st0.push(
                            "additional_properties"@,
                        ));
                    }
                    let ghost c_mid = *ctx;
                    let res = resolve_type(ctx, add);
                    let ghost c_aft = *ctx;
                    let ghost res_g = res;
                    let ghost mid_seq = ctx.name_stack@;
                    let ghost mid_deep = ctx.name_stack.deep_view();
                    proof {
                        lemma_stack_after_frame_u(
                            add.schema_object,
                            st0.push("additional_properties"@),
                        );
                        assert(mid_deep.len() == st0.len() + 1);
                        assert(mid_seq.len() == mid_deep.len());
                    }
                    ctx.pop_name();
                    proof {
                        assert(ctx.name_stack@ == mid_seq.drop_last());
                        assert forall|k: int|
                            0 <= k < st0.len() implies ctx.name_stack.deep_view()[k]
                            == st0[k] by {
                            assert(ctx.name_stack.deep_view()[k] == ctx.name_stack@[k]@);
                            assert(ctx.name_stack@[k] == mid_seq[k]);
                            assert(mid_deep[k] == mid_seq[k]@);
                            assert(mid_deep[k] == st0.push("additional_properties"@)[k]);
                        }
                        assert(ctx.name_stack.deep_view().len() == st0.len());
                        assert(ctx.name_stack.deep_view() =~= st0);
                        lemma_prefix_trans(old(ctx).scope@, sc_before, ctx.scope@);
                    }
                    proof {
                        if shallow_name_of(add.schema_object, *old(ctx)) is Some {
                            lemma_shallow_same_config(add.schema_object, *old(ctx), c_mid);
                            lemma_shallow_post(add.schema_object, c_mid, c_aft, res_g);
                        }
                    }
                    match res {
                        Result::Err(e) => {
                            return Result::Err(e);
                        },
                        Result::Ok(aty) => {
                            let mut hm = "std::collections::HashMap<String, ".to_owned();
                            hm.append(aty.as_str());
                            hm.append(">");
                            proof {
                                assert(hm@ == "std::collections::HashMap<String, "@ + aty@
                                    + ">"@);
                            }
                            fields.push(
                                FieldDecl {
                                    name: "additional_properties".to_owned(),
                                    ty: hm,
                                    optional: false,
                                    wire_name: Option::None,
                                    flatten: true,
                                    doc: Option::None,
                                },
                            );
                        },
                    }
                },
                Option::None => {},
            }
            proof {
                if (forall|jj: int|
                    0 <= jj < props@.len() ==> shallow_name_of(
                        (#[trigger] props@[jj]).1.schema_object,
                        *old(ctx),
                    ) is Some) && (additional_properties matches Option::Some(add2)
                    ==> shallow_name_of(add2.schema_object, *old(ctx)) is Some) {
                    assert(ctx.scope@ == old(ctx).scope@);
                }
            }
            if scope_contains(&ctx.scope, full.as_str()) {
                return Result::Err(GenError::DuplicateName);
            }
            let d = Decl::StructDecl { name: full.clone(), fields };
            proof {
                assert(object_decl_matches(
                    d,
                    props@,
                    *required,
                    *additional_properties,
                    *old(ctx),
                ));
                lemma_declare_wf(ctx.scope@, d);
                assert(declare_in(ctx.scope@, d) == ctx.scope@.push(d));
                lemma_prefix_refl(ctx.scope@);
                assert(ctx.scope@.is_prefix_of(ctx.scope@.push(d))) by {
                    assert(ctx.scope@.push(d).subrange(0, ctx.scope@.len() as int)
                        =~= ctx.scope@);
                }
                lemma_prefix_trans(old(ctx).scope@, ctx.scope@, ctx.scope@.push(d));
            }
            ctx.scope.push(d);
            Result::Ok(full)
        },
    }
}

/// How a named synthesis site gets its name: an override wins outright, or
/// the site declares under its fresh full name.
enum SiteHead {
    UseOverride(String),
    Declare(String),
}

/// The common head of every named synthesis site: the innermost fragment
/// must exist, and an override for its camel-case form wins outright.
fn site_name(ctx: &Context) -> (r: Result<SiteHead, GenError>)
    ensures
        match r {
            Result::Err(e) => e is MissingContextName && ctx.name_stack@.len() == 0,
            Result::Ok(head) => ctx.name_stack@.len() > 0 && match head {
                SiteHead::UseOverride(target) => Option::Some(target@) == site_override(
                    *ctx,
                ),
                SiteHead::Declare(full) => site_override(*ctx) is None && full@
                    == site_full_name(*ctx, Seq::empty()),
            },
        },
{
    let top = match ctx.get_top_name() {
        Option::None => {
            return Result::Err(GenError::MissingContextName);
        },
        Option::Some(tn) => tn,
    };
    let candidate = to_upper_camel(top.as_str());
    proof {
        assert(ctx.name_stack@.last()@ == ctx.name_stack.deep_view().last());
    }
    match ctx.resolve_override(candidate.as_str()) {
        Option::Some(target) => Result::Ok(SiteHead::UseOverride(target)),
        Option::None => {
            let full = ctx.get_name();
            proof {
                assert(site_full_name(*ctx, Seq::empty()) =~= full_name_of(
                    ctx.name_stack.deep_view(),
                ));
            }
            Result::Ok(SiteHead::Declare(full))
        },
    }
}

/// Synthesizes an integer-enum declaration at the current site.
#[verifier::loop_isolation(false)]
fn resolve_int_enum(ctx: &mut Context, repr_name: String, vs: &Vec<i64>) -> (r: Result<
    String,
    GenError,
>)
    requires
        scope_wf(old(ctx).scope@),
    ensures
        scope_step_ok(*old(ctx), *final(ctx)),
        final(ctx).name_stack.deep_view() == old(ctx).name_stack.deep_view(),
        int_enum_post(*old(ctx), *final(ctx), r, repr_name@, vs@),
{
    let name = match site_name(ctx) {
        Result::Err(e) => {
            return Result::Err(e);
        },
        Result::Ok(SiteHead::UseOverride(target)) => {
            return Result::Ok(target);
        },
        Result::Ok(SiteHead::Declare(full)) => full,
    };
    if scope_contains(&ctx.scope, name.as_str()) {
        return Result::Ok(name);
    }
    let mut variants: Vec<VariantDecl> = Vec::new();
    let n = vs.len();
    for i in 0..n
        invariant
            n == vs.len(),
            ctx.scope == old(ctx).scope,
            ctx.name_stack == old(ctx).name_stack,
            ctx.same_config(old(ctx)),
            forall|j: int| 0 <= j < i ==> vs@[j] != i64::MIN,
            variants@.len() == i,
            forall|j: int|
                0 <= j < i ==> (#[trigger] variants@[j]).name@ == int_variant_name_of(vs@[j])
                    && variants@[j].value == VariantValue::IntVal(vs@[j]),
    {
        let v = vs[i];
        if v == i64::MIN {
            proof {
                lemma_prefix_refl(ctx.scope@);
            }
            return Result::Err(GenError::NumberOutOfRange);
        }
        let words = int_to_en_words(v);
        let vname = to_upper_camel(words.as_str());
        variants.push(VariantDecl { name: vname, value: VariantValue::IntVal(v) });
    }
    let d = Decl::EnumDecl { name: name.clone(), repr: Option::Some(repr_name), variants };
    proof {
        lemma_declare_wf(ctx.scope@, d);
        assert(declare_in(ctx.scope@, d) == ctx.scope@.push(d));
        assert(ctx.scope@.is_prefix_of(ctx.scope@.push(d))) by {
            assert(ctx.scope@.push(d).subrange(0, ctx.scope@.len() as int) =~= ctx.scope@);
        }
        assert(ctx.scope@.push(d).drop_last() =~= ctx.scope@);
    }
    ctx.scope.push(d);
    Result::Ok(name)
}

/// Synthesizes a number-enum declaration at the current site.
#[verifier::loop_isolation(false)]
fn resolve_num_enum(ctx: &mut Context, repr_name: String, vs: &Vec<NumberLit>) -> (r: Result<
    String,
    GenError,
>)
    requires
        scope_wf(old(ctx).scope@),
    ensures
        scope_step_ok(*old(ctx), *final(ctx)),
        final(ctx).name_stack.deep_view() == old(ctx).name_stack.deep_view(),
        num_enum_post(*old(ctx), *final(ctx), r, repr_name@, vs@),
{
    let name = match site_name(ctx) {
        Result::Err(e) => {
            return Result::Err(e);
        },
        Result::Ok(SiteHead::UseOverride(target)) => {
            return Result::Ok(target);
        },
        Result::Ok(SiteHead::Declare(full)) => full,
    };
    if scope_contains(&ctx.scope, name.as_str()) {
        return Result::Ok(name);
    }
    let mut variants: Vec<VariantDecl> = Vec::new();
    let n = vs.len();
    for i in 0..n
        invariant
            n == vs.len(),
            ctx.scope == old(ctx).scope,
            ctx.name_stack == old(ctx).name_stack,
            ctx.same_config(old(ctx)),
            forall|j: int| 0 <= j < i ==> vs@[j].int_part != i64::MIN,
            variants@.len() == i,
            forall|j: int|
                0 <= j < i ==> (#[trigger] variants@[j]).name@ == int_variant_name_of(
                    vs@[j].int_part,
                ) && (variants@[j].value matches VariantValue::NumVal(s) && s@
                    == vs@[j].text@),
    {
        let lit = &vs[i];
        if lit.int_part == i64::MIN {
            proof {
                lemma_prefix_refl(ctx.scope@);
            }
            return Result::Err(GenError::NumberOutOfRange);
        }
        let words = int_to_en_words(lit.int_part);
        let vname = to_upper_camel(words.as_str());
        variants.push(
            VariantDecl { name: vname, value: VariantValue::NumVal(lit.text.clone()) },
        );
    }
    let d = Decl::EnumDecl { name: name.clone(), repr: Option::Some(repr_name), variants };
    proof {
        lemma_declare_wf(ctx.scope@, d);
        assert(declare_in(ctx.scope@, d) == ctx.scope@.push(d));
        assert(ctx.scope@.is_prefix_of(ctx.scope@.push(d))) by {
            assert(ctx.scope@.push(d).subrange(0, ctx.scope@.len() as int) =~= ctx.scope@);
        }
        assert(ctx.scope@.push(d).drop_last() =~= ctx.scope@);
    }
    ctx.scope.push(d);
    Result::Ok(name)
}

/// Synthesizes a string-enum declaration at the current site.
#[verifier::loop_isolation(false)]
fn resolve_text_enum(ctx: &mut Context, vs: &Vec<String>) -> (r: Result<String, GenError>)
    requires
        scope_wf(old(ctx).scope@),
    ensures
        scope_step_ok(*old(ctx), *final(ctx)),
        final(ctx).name_stack.deep_view() == old(ctx).name_stack.deep_view(),
        text_enum_post(*old(ctx), *final(ctx), r, vs@),
{
    let name = match site_name(ctx) {
        Result::Err(e) => {
            return Result::Err(e);
        },
        Result::Ok(SiteHead::UseOverride(target)) => {
            return Result::Ok(target);
        },
        Result::Ok(SiteHead::Declare(full)) => full,
    };
    if scope_contains(&ctx.scope, name.as_str()) {
        return Result::Ok(name);
    }
    let mut variants: Vec<VariantDecl> = Vec::new();
    let n = vs.len();
    for i in 0..n
        invariant
            n == vs.len(),
            ctx.scope == old(ctx).scope,
            ctx.name_stack == old(ctx).name_stack,
            ctx.same_config(old(ctx)),
            variants@.len() == i,
            forall|j: int|
                0 <= j < i ==> (#[trigger] variants@[j]).name@ == text_variant_name_of(vs@[j]@)
                    && (variants@[j].value matches VariantValue::StrVal(s) && s@ == vs@[j]@),
    {
        let lit = &vs[i];
        let ln = lit.as_str().unicode_len();
        let first_digit = if ln > 0 {
            let c = lit.as_str().get_char(0);
            (c as u32) >= 48 && (c as u32) <= 57
        } else {
            false
        };
        let vname = if first_digit {
            let mut t = "_".to_owned();
            t.append(lit.as_str());
            proof {
                reveal_strlit("_");
                assert("_"@ =~= seq!['_']);
            }
            t
        } else {
            to_upper_camel(lit.as_str())
        };
        variants.push(VariantDecl { name: vname, value: VariantValue::StrVal(lit.clone()) });
    }
    let d = Decl::EnumDecl { name: name.clone(), repr: Option::None, variants };
    proof {
        lemma_declare_wf(ctx.scope@, d);
        assert(declare_in(ctx.scope@, d) == ctx.scope@.push(d));
        assert(ctx.scope@.is_prefix_of(ctx.scope@.push(d))) by {
            assert(ctx.scope@.push(d).subrange(0, ctx.scope@.len() as int) =~= ctx.scope@);
        }
        assert(ctx.scope@.push(d).drop_last() =~= ctx.scope@);
    }
    ctx.scope.push(d);
    Result::Ok(name)
}

/// Prefixes chain: a prefix of a prefix is a prefix.
pub proof fn lemma_prefix_trans(a: Seq<Decl>, b: Seq<Decl>, c: Seq<Decl>)
    requires
        a.is_prefix_of(b),
        b.is_prefix_of(c),
    ensures
        a.is_prefix_of(c),
{
    assert(c.subrange(0, a.len() as int) =~= b.subrange(0, a.len() as int));
    assert(b.subrange(0, a.len() as int) =~= a);
}

/// Every sequence is a prefix of itself.
pub proof fn lemma_prefix_refl(s: Seq<Decl>)
    ensures
        s.is_prefix_of(s),
{
    assert(s.subrange(0, s.len() as int) =~= s);
}


/// Whether a node is a named synthesis site: one that derives its output
/// name from the naming stack and may declare into the scope.
pub open spec fn is_named_site(t: TypeTagged) -> bool {
    match t {
        TypeTagged::Number { enum_values, .. } => enum_values is Some,
        TypeTagged::Integer { enum_values, .. } => enum_values is Some,
        TypeTagged::Text { format, enum_values } => enum_values is Some && !(
        format matches Option::Some(f) && (f@ == "date-time"@ || f@ == "date"@)),
        TypeTagged::Object { properties, .. } => properties is Some,
        _ => false,
    }
}

/// The full name a named site declares under: the stack's camel-joined
/// full name, for every kind of named site.
pub open spec fn site_decl_name(t: TypeTagged, c: Context) -> Seq<char> {
    site_full_name(c, Seq::empty())
}

/// Override precedence: at any named synthesis site whose candidate name
/// (the innermost fragment, camel-cased) has an override, resolution returns
/// the override's target and adds no declaration to the output scope.
pub proof fn lemma_override_precedence(
    t: TypeTagged,
    old_c: Context,
    new_c: Context,
    r: Result<String, GenError>,
)
    requires
        tagged_post(t, old_c, new_c, r),
        is_named_site(t),
        old_c.name_stack@.len() > 0,
        site_override(old_c) is Some,
    ensures
        new_c.scope@ == old_c.scope@,
        r matches Result::Ok(s) && Option::Some(s@) == site_override(old_c),
{
}

/// Dedup idempotence: once the output scope holds a declaration under a
/// named site's full name, resolving the same node at the same nesting path
/// again returns that very name and leaves the scope unchanged — so the
/// scope holds exactly one declaration for the name however often the site
/// is revisited.
pub proof fn lemma_dedup_idempotent(
    t: TypeTagged,
    old_c: Context,
    new_c: Context,
    r: Result<String, GenError>,
)
    requires
        tagged_post(t, old_c, new_c, r),
        is_named_site(t),
        old_c.name_stack@.len() > 0,
        site_override(old_c) is None,
        scope_has(old_c.scope@, site_decl_name(t, old_c)),
    ensures
        new_c.scope@ == old_c.scope@,
        r matches Result::Ok(s) && s@ == site_decl_name(t, old_c),
{
}

} // verus!
