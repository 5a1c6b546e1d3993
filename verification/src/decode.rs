//! The structural response checker: holds a decoded JSON document against a
//! resolved schema, reporting on mismatch the exact path at which the
//! document diverged from the expected shape.

use vstd::prelude::*;

use crate::naming::contains_str;
use crate::resolve::req_contains;
use crate::schema::{Type, TypeTagged, TypeUntagged};
use crate::text::{join_of, join_strings, str_eq, usize_to_text};

verus! {

/// A JSON document as plain values. Numbers carry their truncated integer
/// part, their exact literal text, and whether they were written as an
/// integer.
#[derive(Debug)]
pub enum JsonValue {
    Null,
    Bool(bool),
    Num { int_part: i64, text: String, is_int: bool },
    Str(String),
    Arr(Vec<JsonValue>),
    Obj(Vec<(String, JsonValue)>),
}

/// The index of the first member with the given key, or `-1`.
pub open spec fn obj_find(fields: Seq<(String, JsonValue)>, key: Seq<char>) -> int
    decreases fields.len(),
{
    if fields.len() == 0 {
        -1
    } else if fields[0].0@ == key {
        0
    } else {
        let sub = obj_find(fields.drop_first(), key);
        if sub == -1 {
            -1
        } else {
            1 + sub
        }
    }
}

/// Whether any property of the list has the given wire name.
pub open spec fn prop_has_key(props: Seq<(String, Type)>, key: Seq<char>) -> bool {
    exists|i: int| 0 <= i < props.len() && props[i].0@ == key
}

/// The index of the first definition registered under the given reference
/// key, or `-1`. Definitions are keyed by name; the key carries the fixed
/// pointer prefix.
pub open spec fn def_find(defs: Seq<(String, Type)>, key: Seq<char>) -> int
    decreases defs.len(),
{
    if defs.len() == 0 {
        -1
    } else if "#/definitions/"@ + defs[0].0@ == key {
        0
    } else {
        let sub = def_find(defs.drop_first(), key);
        if sub == -1 {
            -1
        } else {
            1 + sub
        }
    }
}

/// Whether an integer occurs in a literal list.
pub open spec fn contains_i64(values: Seq<i64>, x: i64) -> bool {
    exists|i: int| 0 <= i < values.len() && values[i] == x
}

/// Whether a document structurally matches a schema: the check serde-style
/// decoding of the generated types performs, over shapes alone (formats of
/// strings are not validated). A reference is followed through the
/// definition list while `fuel` lasts; an unregistered reference matches
/// anything, as unresolved references degrade to the open value type.
pub open spec fn matches_schema(
    v: JsonValue,
    ty: Type,
    defs: Seq<(String, Type)>,
    fuel: nat,
) -> bool
    decreases v, fuel,
    via matches_schema_dec
{
    match ty.schema_object {
        TypeUntagged::Ref { target } => {
            let di = def_find(defs, target.0@);
            if di == -1 {
                true
            } else if fuel == 0 {
                false
            } else {
                matches_schema(v, defs[di].1, defs, (fuel - 1) as nat)
            }
        },
        TypeUntagged::Tagged(t) => match t {
            TypeTagged::Boolean => v is Bool,
            TypeTagged::Number { .. } => v is Num,
            TypeTagged::Integer { format: _, enum_values } => {
                v matches JsonValue::Num { int_part, text: _, is_int } && is_int && (
                match enum_values {
                    Option::Some(vals) => contains_i64(vals@, int_part),
                    Option::None => true,
                })
            },
            TypeTagged::Text { format: _, enum_values } => {
                v matches JsonValue::Str(s) && (match enum_values {
                    Option::Some(vals) => contains_str(vals@, s@),
                    Option::None => true,
                })
            },
            TypeTagged::Array { items } => {
                v matches JsonValue::Arr(elems) && (forall|i: int|
                    0 <= i < elems@.len() ==> matches_schema(
                        #[trigger] elems@[i],
                        *items,
                        defs,
                        defs.len(),
                    ))
            },
            TypeTagged::Object { properties, additional_properties, required } => {
                v matches JsonValue::Obj(fields) && (match properties {
                    Option::None => match additional_properties {
                        Option::None => true,
                        Option::Some(add) => forall|j: int|
                            0 <= j < fields@.len() ==> matches_schema(
                                (#[trigger] fields@[j]).1,
                                *add,
                                defs,
                                defs.len(),
                            ),
                    },
                    Option::Some(props) => {
                        &&& (forall|i: int|
                            0 <= i < props@.len() && req_contains(
                                required,
                                (#[trigger] props@[i]).0@,
                            ) ==> obj_find(fields@, props@[i].0@) >= 0)
                        &&& (forall|i: int|
                            0 <= i < props@.len() && obj_find(
                                fields@,
                                (#[trigger] props@[i]).0@,
                            ) >= 0 ==> prop_value_ok(
                                fields@[obj_find(fields@, props@[i].0@)].1,
                                props@[i].1,
                                req_contains(required, props@[i].0@),
                                defs,
                            ))
                        &&& (match additional_properties {
                            Option::Some(add) => forall|j: int|
                                0 <= j < fields@.len() && !prop_has_key(
                                    props@,
                                    (#[trigger] fields@[j]).0@,
                                ) ==> matches_schema(fields@[j].1, *add, defs, defs.len()),
                            Option::None => true,
                        })
                    },
                })
            },
        },
    }
}

/// Whether a present member matches its property schema: a member of an
/// optional property may also be `null`.
pub open spec fn prop_value_ok(
    v: JsonValue,
    ty: Type,
    is_required: bool,
    defs: Seq<(String, Type)>,
) -> bool
    decreases v, defs.len() + 1,
{
    if is_required {
        matches_schema(v, ty, defs, defs.len())
    } else {
        v is Null || matches_schema(v, ty, defs, defs.len())
    }
}

/// Whether `path` names a real divergence between the document and the
/// schema: it leads, member by member (array members by their decimal
/// index), to a place where the document fails the schema — a missing
/// required member, or a mismatched value. This is what the checker's error
/// payload states.
pub open spec fn divergence_path(
    v: JsonValue,
    ty: Type,
    defs: Seq<(String, Type)>,
    fuel: nat,
    path: Seq<Seq<char>>,
) -> bool
    decreases v, fuel,
    via divergence_path_dec
{
    match ty.schema_object {
        TypeUntagged::Ref { target } => {
            let di = def_find(defs, target.0@);
            if di == -1 {
                false
            } else if fuel == 0 {
                path.len() == 0
            } else {
                divergence_path(v, defs[di].1, defs, (fuel - 1) as nat, path)
            }
        },
        TypeUntagged::Tagged(t) => match t {
            TypeTagged::Array { items } => match v {
                JsonValue::Arr(elems) => exists|i: int|
                    0 <= i < elems@.len() && path.len() >= 1 && path[0] == crate::text::dec_text_of(
                        i,
                    ) && divergence_path(
                        #[trigger] elems@[i],
                        *items,
                        defs,
                        defs.len(),
                        path.drop_first(),
                    ),
                _ => path.len() == 0,
            },
            TypeTagged::Object { properties, additional_properties, required } => match v {
                JsonValue::Obj(fields) => match properties {
                    Option::None => match additional_properties {
                        Option::None => false,
                        Option::Some(add) => exists|j: int|
                            0 <= j < fields@.len() && path.len() >= 1 && path[0]
                                == (#[trigger] fields@[j]).0@ && divergence_path(
                                fields@[j].1,
                                *add,
                                defs,
                                defs.len(),
                                path.drop_first(),
                            ),
                    },
                    Option::Some(props) => {
                        ||| exists|i: int|
                            0 <= i < props@.len() && req_contains(
                                required,
                                (#[trigger] props@[i]).0@,
                            ) && obj_find(fields@, props@[i].0@) == -1 && path == seq![
                                props@[i].0@,
                            ]
                        ||| exists|i: int|
                            {
                                let fi = obj_find(fields@, (#[trigger] props@[i]).0@);
                                &&& 0 <= i < props@.len()
                                &&& fi >= 0
                                &&& path.len() >= 1
                                &&& path[0] == props@[i].0@
                                &&& !(fields@[fi].1 is Null && !req_contains(
                                    required,
                                    props@[i].0@,
                                ))
                                &&& divergence_path(
                                    fields@[fi].1,
                                    props@[i].1,
                                    defs,
                                    defs.len(),
                                    path.drop_first(),
                                )
                            }
                        ||| (match additional_properties {
                            Option::Some(add) => exists|j: int|
                                0 <= j < fields@.len() && !prop_has_key(
                                    props@,
                                    (#[trigger] fields@[j]).0@,
                                ) && path.len() >= 1 && path[0] == fields@[j].0@
                                    && divergence_path(
                                    fields@[j].1,
                                    *add,
                                    defs,
                                    defs.len(),
                                    path.drop_first(),
                                ),
                            Option::None => false,
                        })
                    },
                },
                _ => path.len() == 0,
            },
            _ => !matches_schema(v, ty, defs, fuel) && path.len() == 0,
        },
    }
}

#[via_fn]
proof fn divergence_path_dec(
    v: JsonValue,
    ty: Type,
    defs: Seq<(String, Type)>,
    fuel: nat,
    path: Seq<Seq<char>>,
) {
    lemma_def_find_bound(defs, match ty.schema_object {
        TypeUntagged::Ref { target } => target.0@,
        _ => Seq::empty(),
    });
    match v {
        JsonValue::Arr(elems) => {
            assert forall|i: int| 0 <= i < elems@.len() implies decreases_to!(
                v, fuel => elems@[i], defs.len()) by {
                assert(decreases_to!(v => elems));
                assert(decreases_to!(elems => elems@));
                assert(decreases_to!(elems@ => elems@[i]));
            }
        },
        JsonValue::Obj(fields) => {
            assert forall|key: Seq<char>|
                -1 <= #[trigger] obj_find(fields@, key) < fields@.len() by {
                lemma_obj_find_bound(fields@, key);
            }
            assert forall|j: int| 0 <= j < fields@.len() implies decreases_to!(
                v, fuel => fields@[j].1, defs.len()) by {
                assert(decreases_to!(v => fields));
                assert(decreases_to!(fields => fields@));
                assert(decreases_to!(fields@ => fields@[j]));
                assert(decreases_to!(fields@[j] => fields@[j].1));
            }
        },
        _ => {},
    }
}

#[via_fn]
proof fn matches_schema_dec(v: JsonValue, ty: Type, defs: Seq<(String, Type)>, fuel: nat) {
    lemma_def_find_bound(defs, match ty.schema_object {
        TypeUntagged::Ref { target } => target.0@,
        _ => Seq::empty(),
    });
    match v {
        JsonValue::Arr(elems) => {
            assert forall|i: int| 0 <= i < elems@.len() implies decreases_to!(
                v, fuel => elems@[i], defs.len()) by {
                assert(decreases_to!(v => elems));
                assert(decreases_to!(elems => elems@));
                assert(decreases_to!(elems@ => elems@[i]));
            }
        },
        JsonValue::Obj(fields) => {
            assert forall|key: Seq<char>|
                -1 <= #[trigger] obj_find(fields@, key) < fields@.len() by {
                lemma_obj_find_bound(fields@, key);
            }
            assert forall|j: int| 0 <= j < fields@.len() implies decreases_to!(
                v, fuel => fields@[j].1, defs.len()) by {
                assert(decreases_to!(v => fields));
                assert(decreases_to!(fields => fields@));
                assert(decreases_to!(fields@ => fields@[j]));
                assert(decreases_to!(fields@[j] => fields@[j].1));
            }
            assert forall|j: int| 0 <= j < fields@.len() implies decreases_to!(
                v, fuel => fields@[j].1, defs.len() + 1) by {
                assert(decreases_to!(v => fields));
                assert(decreases_to!(fields => fields@));
                assert(decreases_to!(fields@ => fields@[j]));
                assert(decreases_to!(fields@[j] => fields@[j].1));
            }
        },
        _ => {},
    }
}

proof fn lemma_def_find_bound(defs: Seq<(String, Type)>, key: Seq<char>)
    ensures
        -1 <= def_find(defs, key) < defs.len(),
    decreases defs.len(),
{
    if defs.len() > 0 {
        lemma_def_find_bound(defs.drop_first(), key);
    }
}

proof fn lemma_obj_find_bound(fields: Seq<(String, JsonValue)>, key: Seq<char>)
    ensures
        -1 <= obj_find(fields, key) < fields.len(),
        obj_find(fields, key) >= 0 ==> fields[obj_find(fields, key)].0@ == key,
    decreases fields.len(),
{
    if fields.len() > 0 {
        lemma_obj_find_bound(fields.drop_first(), key);
    }
}

/// First-match member search in a decoded object.
fn obj_lookup<'a>(fields: &'a Vec<(String, JsonValue)>, key: &str) -> (r: Option<
    &'a JsonValue,
>)
    ensures
        match r {
            Option::Some(v) => obj_find(fields@, key@) >= 0 && *v == fields@[obj_find(
                fields@,
                key@,
            )].1,
            Option::None => obj_find(fields@, key@) == -1,
        },
{
    let n = fields.len();
    for i in 0..n
        invariant
            n == fields@.len(),
            forall|j: int| 0 <= j < i ==> fields@[j].0@ != key@,
    {
        if str_eq(fields[i].0.as_str(), key) {
            proof {
                lemma_obj_find_found(fields@, key@, i as int);
            }
            return Option::Some(&fields[i].1);
        }
    }
    proof {
        lemma_obj_find_none(fields@, key@);
    }
    Option::None
}

proof fn lemma_obj_find_found(fields: Seq<(String, JsonValue)>, key: Seq<char>, k: int)
    requires
        0 <= k < fields.len(),
        forall|j: int| 0 <= j < k ==> fields[j].0@ != key,
        fields[k].0@ == key,
    ensures
        obj_find(fields, key) == k,
    decreases k,
{
    if k > 0 {
        lemma_obj_find_found(fields.drop_first(), key, k - 1);
    }
}

proof fn lemma_obj_find_none(fields: Seq<(String, JsonValue)>, key: Seq<char>)
    requires
        forall|j: int| 0 <= j < fields.len() ==> fields[j].0@ != key,
    ensures
        obj_find(fields, key) == -1,
    decreases fields.len(),
{
    if fields.len() > 0 {
        lemma_obj_find_none(fields.drop_first(), key);
    }
}

proof fn lemma_def_find_found(defs: Seq<(String, Type)>, key: Seq<char>, k: int)
    requires
        0 <= k < defs.len(),
        forall|j: int| 0 <= j < k ==> "#/definitions/"@ + defs[j].0@ != key,
        "#/definitions/"@ + defs[k].0@ == key,
    ensures
        def_find(defs, key) == k,
    decreases k,
{
    if k > 0 {
        lemma_def_find_found(defs.drop_first(), key, k - 1);
    }
}

proof fn lemma_def_find_none(defs: Seq<(String, Type)>, key: Seq<char>)
    requires
        forall|j: int| 0 <= j < defs.len() ==> "#/definitions/"@ + defs[j].0@ != key,
    ensures
        def_find(defs, key) == -1,
    decreases defs.len(),
{
    if defs.len() > 0 {
        lemma_def_find_none(defs.drop_first(), key);
    }
}

/// First-match definition search by reference key.
fn def_lookup<'a>(defs: &'a Vec<(String, Type)>, key: &str) -> (r: Option<(usize, &'a Type)>)
    ensures
        match r {
            Option::Some((i, t)) => def_find(defs@, key@) == i && 0 <= i < defs@.len() && *t
                == defs@[i as int].1,
            Option::None => def_find(defs@, key@) == -1,
        },
{
    let n = defs.len();
    for i in 0..n
        invariant
            n == defs@.len(),
            forall|j: int| 0 <= j < i ==> "#/definitions/"@ + defs@[j].0@ != key@,
    {
        let mut full = "#/definitions/".to_owned();
        full.append(defs[i].0.as_str());
        if str_eq(full.as_str(), key) {
            proof {
                lemma_def_find_found(defs@, key@, i as int);
            }
            return Option::Some((i, &defs[i].1));
        }
    }
    proof {
        lemma_def_find_none(defs@, key@);
    }
    Option::None
}

/// Checks a document against a schema. On success the document matches; on
/// failure the returned segments name the exact path at which it diverged,
/// outermost member first.
#[verifier::loop_isolation(false)]
#[verifier::rlimit(60)]
pub fn check_value(
    v: &JsonValue,
    ty: &Type,
    defs: &Vec<(String, Type)>,
    fuel: usize,
) -> (r: Result<(), Vec<String>>)
    ensures
        r is Ok <==> matches_schema(*v, *ty, defs@, fuel as nat),
        r matches Result::Err(p) ==> divergence_path(*v, *ty, defs@, fuel as nat, p.deep_view()),
    decreases *v, fuel as int + 1,
{
    match &ty.schema_object {
        TypeUntagged::Ref { target } => {
            match def_lookup(defs, target.0.as_str()) {
                Option::None => Result::Ok(()),
                Option::Some((_, ty2)) => {
                    if fuel == 0 {
                        Result::Err(Vec::new())
                    } else {
                        check_value(v, ty2, defs, fuel - 1)
                    }
                },
            }
        },
        TypeUntagged::Tagged(t) => {
            match t {
                TypeTagged::Boolean => {
                    match v {
                        JsonValue::Bool(_) => Result::Ok(()),
                        _ => Result::Err(Vec::new()),
                    }
                },
                TypeTagged::Number { .. } => {
                    match v {
                        JsonValue::Num { .. } => Result::Ok(()),
                        _ => Result::Err(Vec::new()),
                    }
                },
                TypeTagged::Integer { format: _, enum_values } => {
                    match v {
                        JsonValue::Num { int_part, text: _, is_int } => {
                            if !*is_int {
                                Result::Err(Vec::new())
                            } else {
                                match enum_values {
                                    Option::Some(vals) => {
                                        if contains_i64_exec(vals, *int_part) {
                                            Result::Ok(())
                                        } else {
                                            Result::Err(Vec::new())
                                        }
                                    },
                                    Option::None => Result::Ok(()),
                                }
                            }
                        },
                        _ => Result::Err(Vec::new()),
                    }
                },
                TypeTagged::Text { format: _, enum_values } => {
                    match v {
                        JsonValue::Str(s) => {
                            match enum_values {
                                Option::Some(vals) => {
                                    if crate::naming::vec_contains_str(vals, s.as_str()) {
                                        Result::Ok(())
                                    } else {
                                        Result::Err(Vec::new())
                                    }
                                },
                                Option::None => Result::Ok(()),
                            }
                        },
                        _ => Result::Err(Vec::new()),
                    }
                },
                TypeTagged::Array { items } => {
                    match v {
                        JsonValue::Arr(elems) => {
                            let n = elems.len();
                            for i in 0..n
                                invariant
                                    n == elems@.len(),
                                    forall|j: int|
                                        0 <= j < i ==> matches_schema(
                                            #[trigger] elems@[j],
                                            **items,
                                            defs@,
                                            defs@.len(),
                                        ),
                            {
                                proof {
                                    assert(decreases_to!(*v => elems@[i as int]));
                                }
                                let res = check_value(&elems[i], items, defs, defs.len());
                                match res {
                                    Result::Err(mut p) => {
                                        let ghost oldp = p@;
                                        let ghost child_path = p.deep_view();
                                        let seg = usize_to_text(i);
                                        let ghost segv = seg@;
                                        p.insert(0, seg);
                                        proof {
                                            assert(p.deep_view()[0] == p@[0]@);
                                            assert forall|k: int|
                                                0 <= k < child_path.len()
                                                implies p.deep_view()[k + 1]
                                                == child_path[k] by {
                                                assert(p.deep_view()[k + 1] == p@[k + 1]@);
                                                assert(p@[k + 1] == oldp[k]);
                                                assert(child_path[k] == oldp[k]@);
                                            }
                                            assert(p.deep_view().drop_first()
                                                =~= child_path);
                                            assert(p.deep_view()[0] == segv);
                                        }
                                        return Result::Err(p);
                                    },
                                    Result::Ok(()) => {},
                                }
                            }
                            Result::Ok(())
                        },
                        _ => Result::Err(Vec::new()),
                    }
                },
                TypeTagged::Object { properties, additional_properties, required } => {
                    match v {
                        JsonValue::Obj(fields) => check_object(
                            v,
                            fields,
                            properties,
                            additional_properties,
                            required,
                            defs,
                        ),
                        _ => Result::Err(Vec::new()),
                    }
                },
            }
        },
    }
}

/// Tests membership of an integer in a literal list.
fn contains_i64_exec(vals: &Vec<i64>, x: i64) -> (r: bool)
    ensures
        r == contains_i64(vals@, x),
{
    let n = vals.len();
    for i in 0..n
        invariant
            n == vals@.len(),
            forall|j: int| 0 <= j < i ==> vals@[j] != x,
    {
        if vals[i] == x {
            return true;
        }
    }
    false
}

/// Checks an object document against an object schema: required members
/// must be present, present members must match their property schemas, and
/// with an open remainder every unlisted member must match it.
#[verifier::loop_isolation(false)]
#[verifier::rlimit(60)]
fn check_object(
    v: &JsonValue,
    fields: &Vec<(String, JsonValue)>,
    properties: &Option<Vec<(String, Type)>>,
    additional_properties: &Option<Box<Type>>,
    required: &Option<Vec<String>>,
    defs: &Vec<(String, Type)>,
) -> (r: Result<(), Vec<String>>)
    requires
        *v == JsonValue::Obj(*fields),
    ensures
        r is Ok <==> matches_schema(
            *v,
            Type {
                description: Option::None,
                schema_object: TypeUntagged::Tagged(
                    TypeTagged::Object {
                        properties: *properties,
                        additional_properties: *additional_properties,
                        required: *required,
                    },
                ),
            },
            defs@,
            0,
        ),
        r matches Result::Err(p) ==> divergence_path(
            *v,
            Type {
                description: Option::None,
                schema_object: TypeUntagged::Tagged(
                    TypeTagged::Object {
                        properties: *properties,
                        additional_properties: *additional_properties,
                        required: *required,
                    },
                ),
            },
            defs@,
            0,
            p.deep_view(),
        ),
    decreases *v, 0int,
{
    let props = match properties {
        Option::None => {
            match additional_properties {
                Option::None => {
                    return Result::Ok(());
                },
                Option::Some(add) => {
                    let n = fields.len();
                    for j in 0..n
                        invariant
                            n == fields@.len(),
                            forall|k: int|
                                0 <= k < j ==> matches_schema(
                                    (#[trigger] fields@[k]).1,
                                    **add,
                                    defs@,
                                    defs@.len(),
                                ),
                    {
                        proof {
                            assert((*v)->Obj_0 == *fields);
                            assert(decreases_to!(*v => (*v)->Obj_0));
                            assert(decreases_to!(*v => *fields));
                            assert(decreases_to!(*fields => fields@));
                            assert(decreases_to!(fields@ => fields@[j as int]));
                            assert(decreases_to!(fields@[j as int] => fields@[j as int].1));
                            assert(decreases_to!(*v => fields@[j as int].1));
                        }
                        let res = check_value(&fields[j].1, add, defs, defs.len());
                        match res {
                            Result::Err(mut p) => {
                                proof {
                                    assert(!matches_schema(
                                        fields@[j as int].1,
                                        **add,
                                        defs@,
                                        defs@.len(),
                                    ));
                                }
                                let ghost oldp = p@;
                                let ghost child_path = p.deep_view();
                                p.insert(0, fields[j].0.clone());
                                proof {
                                    assert(p.deep_view()[0] == p@[0]@);
                                    assert forall|kk: int|
                                        0 <= kk < child_path.len() implies p.deep_view()[kk
                                        + 1] == child_path[kk] by {
                                        assert(p.deep_view()[kk + 1] == p@[kk + 1]@);
                                        assert(p@[kk + 1] == oldp[kk]);
                                        assert(child_path[kk] == oldp[kk]@);
                                    }
                                    assert(p.deep_view().drop_first() =~= child_path);
                                }
                                proof {
                                    assert(p.deep_view()[0] == fields@[j as int].0@);
                                }
                                return Result::Err(p);
                            },
                            Result::Ok(()) => {},
                        }
                    }
                    return Result::Ok(());
                },
            }
        },
        Option::Some(props) => props,
    };
    let np = props.len();
    for i in 0..np
        invariant
            np == props@.len(),
            forall|k: int|
                0 <= k < i && req_contains(*required, (#[trigger] props@[k]).0@) ==> obj_find(
                    fields@,
                    props@[k].0@,
                ) >= 0,
            forall|k: int|
                0 <= k < i && obj_find(fields@, (#[trigger] props@[k]).0@) >= 0
                    ==> prop_value_ok(
                    fields@[obj_find(fields@, props@[k].0@)].1,
                    props@[k].1,
                    req_contains(*required, props@[k].0@),
                    defs@,
                ),
    {
        let prop_name = &props[i].0;
        let is_req = match required {
            Option::Some(rq) => crate::naming::vec_contains_str(rq, prop_name.as_str()),
            Option::None => false,
        };
        match obj_lookup(fields, prop_name.as_str()) {
            Option::None => {
                if is_req {
                    proof {
                        assert(req_contains(*required, props@[i as int].0@) && obj_find(
                            fields@,
                            props@[i as int].0@,
                        ) == -1);
                    }
                    let mut p: Vec<String> = Vec::new();
                    p.push(prop_name.clone());
                    proof {
                        assert(p.deep_view() =~= seq![props@[i as int].0@]);
                    }
                    return Result::Err(p);
                }
            },
            Option::Some(member) => {
                let skip_null = if is_req {
                    false
                } else {
                    match member {
                        JsonValue::Null => true,
                        _ => false,
                    }
                };
                if !skip_null {
                    proof {
                        lemma_obj_find_bound(fields@, props@[i as int].0@);
                        let fidx = obj_find(fields@, props@[i as int].0@);
                        assert((*v)->Obj_0 == *fields);
                        assert(decreases_to!(*v => (*v)->Obj_0));
                        assert(decreases_to!(*v => *fields));
                        assert(decreases_to!(*fields => fields@));
                        assert(decreases_to!(fields@ => fields@[fidx]));
                        assert(decreases_to!(fields@[fidx] => fields@[fidx].1));
                        assert(decreases_to!(*v => fields@[fidx].1));
                    }
                    let res = check_value(member, &props[i].1, defs, defs.len());
                    match res {
                        Result::Err(mut p) => {
                            proof {
                                let fidx = obj_find(fields@, props@[i as int].0@);
                                assert(!prop_value_ok(
                                    fields@[fidx].1,
                                    props@[i as int].1,
                                    req_contains(*required, props@[i as int].0@),
                                    defs@,
                                ));
                            }
                                let ghost oldp = p@;
                                let ghost child_path = p.deep_view();
                                p.insert(0, prop_name.clone());
                                proof {
                                    assert(p.deep_view()[0] == p@[0]@);
                                    assert forall|kk: int|
                                        0 <= kk < child_path.len() implies p.deep_view()[kk
                                        + 1] == child_path[kk] by {
                                        assert(p.deep_view()[kk + 1] == p@[kk + 1]@);
                                        assert(p@[kk + 1] == oldp[kk]);
                                        assert(child_path[kk] == oldp[kk]@);
                                    }
                                    assert(p.deep_view().drop_first() =~= child_path);
                                }
                            proof {
                                assert(p.deep_view()[0] == props@[i as int].0@);
                            }
                            return Result::Err(p);
                        },
                        Result::Ok(()) => {},
                    }
                }
            },
        }
    }
    match additional_properties {
        Option::Some(add) => {
            let n = fields.len();
            for j in 0..n
                invariant
                    n == fields@.len(),
                    forall|k: int|
                        0 <= k < j && !prop_has_key(props@, (#[trigger] fields@[k]).0@)
                            ==> matches_schema(fields@[k].1, **add, defs@, defs@.len()),
            {
                if !prop_list_has_key(props, fields[j].0.as_str()) {
                    proof {
                        assert((*v)->Obj_0 == *fields);
                        assert(decreases_to!(*v => (*v)->Obj_0));
                        assert(decreases_to!(*v => *fields));
                        assert(decreases_to!(*fields => fields@));
                        assert(decreases_to!(fields@ => fields@[j as int]));
                        assert(decreases_to!(fields@[j as int] => fields@[j as int].1));
                        assert(decreases_to!(*v => fields@[j as int].1));
                    }
                    let res = check_value(&fields[j].1, add, defs, defs.len());
                    match res {
                        Result::Err(mut p) => {
                            proof {
                                assert(!prop_has_key(props@, fields@[j as int].0@)
                                    && !matches_schema(
                                    fields@[j as int].1,
                                    **add,
                                    defs@,
                                    defs@.len(),
                                ));
                            }
                                let ghost oldp = p@;
                                let ghost child_path = p.deep_view();
                                p.insert(0, fields[j].0.clone());
                                proof {
                                    assert(p.deep_view()[0] == p@[0]@);
                                    assert forall|kk: int|
                                        0 <= kk < child_path.len() implies p.deep_view()[kk
                                        + 1] == child_path[kk] by {
                                        assert(p.deep_view()[kk + 1] == p@[kk + 1]@);
                                        assert(p@[kk + 1] == oldp[kk]);
                                        assert(child_path[kk] == oldp[kk]@);
                                    }
                                    assert(p.deep_view().drop_first() =~= child_path);
                                }
                            proof {
                                assert(p.deep_view()[0] == fields@[j as int].0@);
                            }
                            return Result::Err(p);
                        },
                        Result::Ok(()) => {},
                    }
                }
            }
        },
        Option::None => {},
    }
    Result::Ok(())
}

/// Whether the property list names the given key.
fn prop_list_has_key(props: &Vec<(String, Type)>, key: &str) -> (r: bool)
    ensures
        r == prop_has_key(props@, key@),
{
    let n = props.len();
    for i in 0..n
        invariant
            n == props@.len(),
            forall|j: int| 0 <= j < i ==> props@[j].0@ != key@,
    {
        if str_eq(props[i].0.as_str(), key) {
            return true;
        }
    }
    false
}

/// Joins a mismatch path for display, outermost member first.
pub fn render_path(segments: &Vec<String>) -> (r: String)
    ensures
        r@ == join_of(segments.deep_view(), "."@),
{
    join_strings(segments, ".")
}

} // verus!
