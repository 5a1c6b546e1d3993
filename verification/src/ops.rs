//! The operation synthesizer and the generation driver: derives one method
//! per operation (name, positional path arguments, parameter-object type,
//! response type, substituted path), and walks a whole document.

use vstd::prelude::*;

use crate::method_prefix_of;
use crate::naming::{contains_str, lookup_of, Context};
use crate::output::{
    decl_name, declare_in, lemma_declare_wf, scope_contains, scope_has, scope_wf, ArgDecl,
    Decl, FieldDecl, MethodDecl,
};
use crate::resolve::{
    lemma_prefix_refl, lemma_prefix_trans, lemma_shallow_post, lemma_shallow_same_config,
    lemma_stack_after_frame_u, opt_view, ref_result_of, resolve_type, scope_step_ok,
    shallow_name_of, GenError,
};
use crate::schema::{
    Operation, Parameter, PathElement, PathName, Response, SwaggerFile, Type,
};
use crate::text::{join_of, replace_all, replace_all_of, snake_of, str_eq, to_snake,
    to_upper_camel, upper_camel_of};
use crate::Method;

verus! {

/// The wire names of a parameter list.
pub open spec fn names_of(params: Seq<Parameter>) -> Seq<Seq<char>> {
    params.map_values(|p: Parameter| p.name@)
}

/// The texts of the static elements of a path template, in order.
pub open spec fn static_texts_of(elems: Seq<PathElement>) -> Seq<Seq<char>>
    decreases elems.len(),
{
    if elems.len() == 0 {
        Seq::empty()
    } else {
        let rest = static_texts_of(elems.drop_first());
        match elems[0] {
            PathElement::Static(s) => seq![s@] + rest,
            PathElement::Parameter(_) => rest,
        }
    }
}

/// The canonical raw operation name: with path parameters, the method, the
/// singular of the response type name (its snake form with `_response`
/// removed) and the joined parameter names; otherwise the method and the
/// joined static path segments.
pub open spec fn op_raw_name_of(
    m: Method,
    ret: Seq<char>,
    path_params: Seq<Parameter>,
    elems: Seq<Seq<char>>,
) -> Seq<char> {
    if path_params.len() > 0 {
        method_prefix_of(m) + "_"@ + replace_all_of(snake_of(ret), "_response"@, Seq::empty())
            + "_by_"@ + join_of(names_of(path_params), "_and_"@)
    } else {
        method_prefix_of(m) + "_"@ + join_of(elems, "_"@)
    }
}

/// The index of the first response with the given status-code key, or `-1`.
pub open spec fn resp_index_of(rs: Seq<(String, Response)>, key: Seq<char>) -> int
    decreases rs.len(),
{
    if rs.len() == 0 {
        -1
    } else if rs[0].0@ == key {
        0
    } else {
        let sub = resp_index_of(rs.drop_first(), key);
        if sub == -1 {
            -1
        } else {
            1 + sub
        }
    }
}

/// Whether an operation lacks a usable success schema: no `"200"` response,
/// or one without a schema. This is a fatal generation error.
pub open spec fn missing_200(rs: Seq<(String, Response)>) -> bool {
    let i = resp_index_of(rs, "200"@);
    i == -1 || rs[i].1.schema is None
}

proof fn lemma_resp_index_found(rs: Seq<(String, Response)>, key: Seq<char>, k: int)
    requires
        0 <= k < rs.len(),
        forall|j: int| 0 <= j < k ==> rs[j].0@ != key,
        rs[k].0@ == key,
    ensures
        resp_index_of(rs, key) == k,
    decreases k,
{
    if k > 0 {
        assert(rs[0].0@ != key);
        lemma_resp_index_found(rs.drop_first(), key, k - 1);
    }
}

proof fn lemma_resp_index_none(rs: Seq<(String, Response)>, key: Seq<char>)
    requires
        forall|j: int| 0 <= j < rs.len() ==> rs[j].0@ != key,
    ensures
        resp_index_of(rs, key) == -1,
    decreases rs.len(),
{
    if rs.len() > 0 {
        lemma_resp_index_none(rs.drop_first(), key);
    }
}

/// The path template after rewriting each argument's wire placeholder to its
/// chosen identifier, left to right.
pub open spec fn subst_args_of(path: Seq<char>, args: Seq<ArgDecl>) -> Seq<char>
    decreases args.len(),
{
    if args.len() == 0 {
        path
    } else {
        subst_args_of(
            replace_all_of(
                path,
                "{"@ + args[0].wire_name@ + "}"@,
                "{"@ + args[0].name@ + "}"@,
            ),
            args.drop_first(),
        )
    }
}

/// The type a parameter resolves to when it does so without a naming
/// context: an override for its camel-cased identifier wins, else the
/// schema's shallow name.
pub open spec fn param_shallow_type(p: Parameter, c: Context) -> Option<Seq<char>> {
    match lookup_of(c.extra_types@, upper_camel_of(snake_of(p.name@))) {
        Option::Some(ov) => Option::Some(ov),
        Option::None => shallow_name_of(p.schema.schema_object, c),
    }
}

/// The positional arguments mirror the non-constant path parameters: one
/// argument per parameter, named by its snake-case form, recording the
/// original wire name, and typed by the parameter's resolution wherever it
/// resolves without a naming context.
pub open spec fn args_match(args: Seq<ArgDecl>, pparams: Seq<Parameter>, c: Context) -> bool {
    &&& args.len() == pparams.len()
    &&& forall|i: int|
        0 <= i < args.len() ==> (#[trigger] args[i]).name@ == snake_of(pparams[i].name@)
            && args[i].wire_name@ == pparams[i].name@ && (param_shallow_type(pparams[i], c)
            matches Option::Some(nm) ==> args[i].ty@ == nm)
}

/// The fields of a parameter-object type mirror the non-constant query
/// parameters: each optional, named by its snake-case form, carrying the
/// parameter's description and the parameter's resolved type wherever it
/// resolves without a naming context.
pub open spec fn params_fields_match(
    fields: Seq<FieldDecl>,
    qparams: Seq<Parameter>,
    c: Context,
) -> bool {
    &&& fields.len() == qparams.len()
    &&& forall|i: int|
        0 <= i < fields.len() ==> {
            let f = #[trigger] fields[i];
            &&& f.name@ == snake_of(qparams[i].name@)
            &&& f.optional
            &&& !f.flatten
            &&& f.wire_name is None
            &&& opt_view(f.doc) == opt_view(qparams[i].description)
            &&& (param_shallow_type(qparams[i], c) matches Option::Some(nm) ==> f.ty@
                == nm)
        }
}

/// The non-constant parameters of a bucket.
pub open spec fn non_constant(params: Seq<Parameter>, consts: Seq<String>) -> Seq<Parameter> {
    params.filter(|p: Parameter| !contains_str(consts, p.name@))
}

/// The success schema's shallow resolution: the `"200"` response schema's
/// shallow name, when the operation has one.
pub open spec fn op_ret_shallow(op: Operation, c: Context) -> Option<Seq<char>> {
    if missing_200(op.responses@) {
        Option::None
    } else {
        let i = resp_index_of(op.responses@, "200"@);
        match op.responses@[i].1.schema {
            Option::Some(sch) => shallow_name_of(sch.schema_object, c),
            Option::None => Option::None,
        }
    }
}

/// How many leading path elements are left out of derived names: the
/// version segment, when the template has any element at all.
pub open spec fn skip_of(p: PathName) -> int {
    if p.elements@.len() > 0 {
        1int
    } else {
        0int
    }
}

/// What the method derived for an operation states: arguments, substituted
/// path, documentation, parameter-object presence — and, whenever the
/// success schema resolves without a naming context, the exact method name,
/// return type and parameter-object name.
pub open spec fn method_matches_op(
    m: MethodDecl,
    c: Context,
    path: PathName,
    method: Method,
    op: Operation,
    skip: int,
) -> bool {
    let consts = c.constant_parameters@;
    let ppf = non_constant(op.parameters.path@, consts);
    let qpf = non_constant(op.parameters.query@, consts);
    &&& args_match(m.args@, ppf, c)
    &&& m.path@ == subst_args_of(path.internal@, m.args@)
    &&& opt_view(m.doc) == opt_view(op.summary)
    &&& (m.params_type is Some <==> qpf.len() > 0)
    &&& (op_ret_shallow(op, c) matches Option::Some(ret0) ==> {
        let raw = op_raw_name_of(
            method,
            ret0,
            op.parameters.path@,
            static_texts_of(path.elements@.skip(skip)),
        );
        &&& m.ret_type@ == ret0
        &&& m.name@ == snake_of(raw)
        &&& (m.params_type matches Option::Some(pt) ==> pt@ == upper_camel_of(raw)
            + "Params"@)
    })
}

/// When synthesis owes success: the operation has a success schema, every
/// schema involved resolves without a naming context (or is overridden, or
/// is a constant parameter), and the parameter-object name is free.
pub open spec fn op_resolves_shallow(
    op: Operation,
    c: Context,
    method: Method,
    path: PathName,
    skip: int,
) -> bool {
    &&& !missing_200(op.responses@)
    &&& (match op_ret_shallow(op, c) {
        Option::Some(ret0) => {
            let raw = op_raw_name_of(
                method,
                ret0,
                op.parameters.path@,
                static_texts_of(path.elements@.skip(skip)),
            );
            non_constant(op.parameters.query@, c.constant_parameters@).len() > 0
                ==> !scope_has(c.scope@, upper_camel_of(raw) + "Params"@)
        },
        Option::None => false,
    })
    &&& (forall|i: int|
        0 <= i < op.parameters.path@.len() && !contains_str(
            c.constant_parameters@,
            (#[trigger] op.parameters.path@[i]).name@,
        ) ==> param_shallow_type(op.parameters.path@[i], c) is Some)
    &&& (forall|i: int|
        0 <= i < op.parameters.query@.len() && !contains_str(
            c.constant_parameters@,
            (#[trigger] op.parameters.query@[i]).name@,
        ) ==> param_shallow_type(op.parameters.query@[i], c) is Some)
}

/// Whether the scope holds a method declaration stating the given
/// operation's contract.
pub open spec fn scope_holds_method(
    scope: Seq<Decl>,
    c: Context,
    path: PathName,
    method: Method,
    op: Operation,
    skip: int,
) -> bool {
    exists|k: int|
        0 <= k < scope.len() && ((#[trigger] scope[k]) matches Decl::FnDecl(m)
            && method_matches_op(m, c, path, method, op, skip))
}

/// A method declaration found in a scope is still found in any extension of
/// that scope: the output scope only ever grows by appending.
proof fn lemma_holds_method_prefix(
    s1: Seq<Decl>,
    s2: Seq<Decl>,
    c: Context,
    path: PathName,
    method: Method,
    op: Operation,
    skip: int,
)
    requires
        s1.is_prefix_of(s2),
        scope_holds_method(s1, c, path, method, op, skip),
    ensures
        scope_holds_method(s2, c, path, method, op, skip),
{
    let k = choose|k: int|
        0 <= k < s1.len() && ((#[trigger] s1[k]) matches Decl::FnDecl(m)
            && method_matches_op(m, c, path, method, op, skip));
    assert(s2[k] == s1[k]) by {
        assert(s2.subrange(0, s1.len() as int) =~= s1);
        assert(s2.subrange(0, s1.len() as int)[k] == s2[k]);
    }
}

/// Everything a derived method states reads only the run's configuration,
/// so two contexts with the same configuration agree on it.
pub proof fn lemma_method_matches_same_config(
    m: MethodDecl,
    c1: Context,
    c2: Context,
    path: PathName,
    method: Method,
    op: Operation,
    skip: int,
)
    requires
        c1.types@ == c2.types@,
        c1.extra_types@ == c2.extra_types@,
        c1.constant_parameters@ == c2.constant_parameters@,
        method_matches_op(m, c1, path, method, op, skip),
    ensures
        method_matches_op(m, c2, path, method, op, skip),
{
    let consts = c1.constant_parameters@;
    let ppf = non_constant(op.parameters.path@, consts);
    assert(non_constant(op.parameters.path@, c2.constant_parameters@) == ppf);
    assert(non_constant(op.parameters.query@, c2.constant_parameters@) == non_constant(
        op.parameters.query@,
        consts,
    ));
    assert forall|i: int| 0 <= i < ppf.len() implies param_shallow_type(ppf[i], c1)
        == param_shallow_type(ppf[i], c2) by {
        lemma_shallow_same_config(ppf[i].schema.schema_object, c1, c2);
    }
    assert(op_ret_shallow(op, c1) == op_ret_shallow(op, c2)) by {
        if !missing_200(op.responses@) {
            let i = resp_index_of(op.responses@, "200"@);
            match op.responses@[i].1.schema {
                Option::Some(sch) => {
                    lemma_shallow_same_config(sch.schema_object, c1, c2);
                },
                Option::None => {},
            }
        }
    }
}

/// Derives the method emitted for one operation. `skip_elems` leading path
/// elements (the version segment) are left out of derived names; the raw
/// template is kept whole for substitution.
#[verifier::loop_isolation(false)]
#[verifier::rlimit(100)]
#[verifier::spinoff_prover]
pub fn synthesize_operation(
    ctx: &mut Context,
    path: &PathName,
    method: Method,
    op: &Operation,
    skip_elems: usize,
) -> (r: Result<MethodDecl, GenError>)
    requires
        scope_wf(old(ctx).scope@),
        old(ctx).name_stack@.len() == 0,
        skip_elems <= path.elements@.len(),
    ensures
        scope_step_ok(*old(ctx), *final(ctx)),
        final(ctx).name_stack@.len() == 0,
        ((r matches Result::Err(e) && e is MissingSuccessResponse) <==> missing_200(
            op.responses@,
        )),
        op_resolves_shallow(*op, *old(ctx), method, *path, skip_elems as int) ==> r is Ok,
        r matches Result::Ok(m) ==> method_matches_op(
            m,
            *old(ctx),
            *path,
            method,
            *op,
            skip_elems as int,
        ),
        r matches Result::Ok(m) ==> {
            let qpf = non_constant(op.parameters.query@, old(ctx).constant_parameters@);
            qpf.len() > 0 ==> {
                let last = final(ctx).scope@.last();
                &&& (last matches Decl::StructDecl { name: _, fields }
                    && params_fields_match(fields@, qpf, *old(ctx)))
                &&& (m.params_type matches Option::Some(pt) ==> decl_name(last) == pt@)
            }
        },
{
    let nresp = op.responses.len();
    let mut found: Option<usize> = Option::None;
    for j in 0..nresp
        invariant
            nresp == op.responses@.len(),
            found is None ==> forall|k: int| 0 <= k < j ==> op.responses@[k].0@ != "200"@,
            found matches Option::Some(fj) ==> 0 <= fj < j && op.responses@[fj as int].0@
                == "200"@ && (forall|k: int|
                0 <= k < fj ==> op.responses@[k].0@ != "200"@),
    {
        if found.is_none() && str_eq(op.responses[j].0.as_str(), "200") {
            found = Option::Some(j);
        }
    }
    let fi = match found {
        Option::None => {
            proof {
                lemma_resp_index_none(op.responses@, "200"@);
                lemma_prefix_refl(ctx.scope@);
            }
            return Result::Err(GenError::MissingSuccessResponse);
        },
        Option::Some(fj) => fj,
    };
    proof {
        lemma_resp_index_found(op.responses@, "200"@, fi as int);
    }
    let sch = match &op.responses[fi].1.schema {
        Option::None => {
            proof {
                lemma_prefix_refl(ctx.scope@);
            }
            return Result::Err(GenError::MissingSuccessResponse);
        },
        Option::Some(sch) => sch,
    };
    let res0 = resolve_type(ctx, sch);
    let ghost c_aft0 = *ctx;
    let ghost res0_g = res0;
    proof {
        if shallow_name_of(sch.schema_object, *old(ctx)) is Some {
            lemma_shallow_post(sch.schema_object, *old(ctx), c_aft0, res0_g);
        }
    }
    let ret0 = match res0 {
        Result::Err(e) => {
            proof {
                lemma_stack_after_frame_u(
                    sch.schema_object,
                    old(ctx).name_stack.deep_view(),
                );
            }
            return Result::Err(e);
        },
        Result::Ok(ret0) => ret0,
    };
    proof {
        lemma_stack_after_frame_u(sch.schema_object, old(ctx).name_stack.deep_view());
        assert(ctx.name_stack.deep_view() =~= Seq::<Seq<char>>::empty());
        assert(op_ret_shallow(*op, *old(ctx)) matches Option::Some(nm0) ==> ret0@ == nm0);
    }
    // The canonical raw name.
    let raw: String = if op.parameters.path.len() > 0 {
        let snake_ret = to_snake(ret0.as_str());
        proof {
            reveal_strlit("_response");
            reveal_strlit("");
            assert(""@ =~= Seq::<char>::empty());
        }
        let cleaned = replace_all(snake_ret.as_str(), "_response", "");
        let np = op.parameters.path.len();
        let mut pnames: Vec<String> = Vec::new();
        for i in 0..np
            invariant
                np == op.parameters.path@.len(),
                pnames.deep_view() == names_of(op.parameters.path@.take(i as int)),
        {
            let ghost pd = pnames.deep_view();
            pnames.push(op.parameters.path[i].name.clone());
            proof {
                assert(pnames.deep_view() =~= pd.push(op.parameters.path@[i as int].name@));
                assert(names_of(op.parameters.path@.take(i + 1)) =~= pd.push(
                    op.parameters.path@[i as int].name@,
                ));
            }
        }
        proof {
            assert(op.parameters.path@.take(np as int) =~= op.parameters.path@);
        }
        let joined = crate::text::join_strings(&pnames, "_and_");
        let mut raw = method.as_str().to_owned();
        raw.append("_");
        raw.append(cleaned.as_str());
        raw.append("_by_");
        raw.append(joined.as_str());
        raw
    } else {
        let ne = path.elements.len();
        let mut stats: Vec<String> = Vec::new();
        for i in skip_elems..ne
            invariant
                ne == path.elements@.len(),
                skip_elems <= i <= ne,
                stats.deep_view() == static_texts_of(
                    path.elements@.skip(skip_elems as int).take(i - skip_elems),
                ),
        {
            proof {
                lemma_static_texts_push(
                    path.elements@.skip(skip_elems as int),
                    i - skip_elems,
                );
            }
            match &path.elements[i] {
                PathElement::Static(s) => {
                    let ghost sd = stats.deep_view();
                    stats.push(s.clone());
                    proof {
                        assert(stats.deep_view() =~= sd.push(s@));
                    }
                },
                PathElement::Parameter(_) => {},
            }
        }
        proof {
            assert(path.elements@.skip(skip_elems as int).take(ne - skip_elems)
                =~= path.elements@.skip(skip_elems as int));
        }
        let joined = crate::text::join_strings(&stats, "_");
        let mut raw = method.as_str().to_owned();
        raw.append("_");
        raw.append(joined.as_str());
        raw
    };
    let ghost consts = ctx.constant_parameters@;
    ctx.handle_with_name(raw.clone());
    let ghost st1 = ctx.name_stack.deep_view();
    proof {
        assert(st1 =~= Seq::<Seq<char>>::empty().push(raw@));
    }
    // Positional arguments from non-constant path parameters.
    let mut args: Vec<ArgDecl> = Vec::new();
    let np = op.parameters.path.len();
    proof {
        assert(non_constant(op.parameters.path@.take(0), consts) =~= Seq::<
            Parameter,
        >::empty());
    }
    for i in 0..np
        invariant
            np == op.parameters.path@.len(),
            ctx.same_config(old(ctx)),
            ctx.name_stack.deep_view() == st1,
            old(ctx).scope@.is_prefix_of(ctx.scope@),
            scope_wf(ctx.scope@),
            args_match(
                args@,
                non_constant(op.parameters.path@.take(i as int), consts),
                *old(ctx),
            ),
            op_resolves_shallow(*op, *old(ctx), method, *path, skip_elems as int)
                ==> ctx.scope@ == old(ctx).scope@,
    {
        let p = &op.parameters.path[i];
        proof {
            assert(op.parameters.path@.take(i + 1).drop_last() =~= op.parameters.path@.take(
                i as int,
            ));
            assert(op.parameters.path@.take(i + 1).last() == op.parameters.path@[i as int]);
            reveal_with_fuel(Seq::filter, 2);
        }
        if !ctx.is_constant(p.name.as_str()) {
            let pname = to_snake(p.name.as_str());
            let ghost sc_before = ctx.scope@;
            ctx.handle_with_name(pname.clone());
            proof {
                assert(ctx.name_stack.deep_view() =~= st1.push(pname@));
            }
            let camel = to_upper_camel(pname.as_str());
            let ty = match ctx.resolve_override(camel.as_str()) {
                Option::Some(t) => {
                    ctx.pop_name();
                    proof {
                        assert(ctx.name_stack.deep_view() =~= st1);
                    }
                    t
                },
                Option::None => {
                    let ghost c_mid = *ctx;
                    let res = resolve_type(ctx, &p.schema);
                    let ghost c_aft = *ctx;
                    let ghost res_g = res;
                    let ghost mid_seq = ctx.name_stack@;
                    let ghost mid_deep = ctx.name_stack.deep_view();
                    proof {
                        if shallow_name_of(p.schema.schema_object, *old(ctx)) is Some {
                            lemma_shallow_same_config(
                                p.schema.schema_object,
                                *old(ctx),
                                c_mid,
                            );
                            lemma_shallow_post(p.schema.schema_object, c_mid, c_aft, res_g);
                        }
                        lemma_stack_after_frame_u(p.schema.schema_object, st1.push(pname@));
                        assert(mid_deep.len() == st1.len() + 1);
                        assert(mid_seq.len() == mid_deep.len());
                    }
                    ctx.pop_name();
                    proof {
                        assert(ctx.name_stack@ == mid_seq.drop_last());
                        assert forall|k: int|
                            0 <= k < st1.len() implies ctx.name_stack.deep_view()[k]
                            == st1[k] by {
                            assert(ctx.name_stack.deep_view()[k] == ctx.name_stack@[k]@);
                            assert(mid_deep[k] == mid_seq[k]@);
                            assert(mid_deep[k] == st1.push(pname@)[k]);
                        }
                        assert(ctx.name_stack.deep_view() =~= st1);
                        lemma_prefix_trans(old(ctx).scope@, sc_before, ctx.scope@);
                    }
                    match res {
                        Result::Err(e) => {
                            ctx.pop_name();
                            proof {
                                assert(!(e is MissingSuccessResponse));
                            }
                            return Result::Err(e);
                        },
                        Result::Ok(t) => t,
                    }
                },
            };
            args.push(ArgDecl { name: pname, ty, wire_name: p.name.clone() });
        }
    }
    proof {
        assert(op.parameters.path@.take(np as int) =~= op.parameters.path@);
    }
    // The parameter-object type from non-constant query parameters.
    let mut obj_name = to_upper_camel(raw.as_str());
    obj_name.append("Params");
    ctx.handle_with_name(obj_name.clone());
    let ghost st2 = ctx.name_stack.deep_view();
    proof {
        assert(st2 =~= st1.push(obj_name@));
    }
    let mut qfields: Vec<FieldDecl> = Vec::new();
    let nq = op.parameters.query.len();
    proof {
        assert(non_constant(op.parameters.query@.take(0), consts) =~= Seq::<
            Parameter,
        >::empty());
    }
    for i in 0..nq
        invariant
            nq == op.parameters.query@.len(),
            ctx.same_config(old(ctx)),
            ctx.name_stack.deep_view() == st2,
            old(ctx).scope@.is_prefix_of(ctx.scope@),
            scope_wf(ctx.scope@),
            params_fields_match(
                qfields@,
                non_constant(op.parameters.query@.take(i as int), consts),
                *old(ctx),
            ),
            op_resolves_shallow(*op, *old(ctx), method, *path, skip_elems as int)
                ==> ctx.scope@ == old(ctx).scope@,
    {
        let p = &op.parameters.query[i];
        proof {
            assert(op.parameters.query@.take(i + 1).drop_last() =~= op.parameters.query@.take(
                i as int,
            ));
            assert(op.parameters.query@.take(i + 1).last() == op.parameters.query@[i as int]);
            reveal_with_fuel(Seq::filter, 2);
        }
        if !ctx.is_constant(p.name.as_str()) {
            let pname = to_snake(p.name.as_str());
            let ghost sc_before = ctx.scope@;
            ctx.handle_with_name(pname.clone());
            proof {
                assert(ctx.name_stack.deep_view() =~= st2.push(pname@));
            }
            let camel = to_upper_camel(pname.as_str());
            let ty = match ctx.resolve_override(camel.as_str()) {
                Option::Some(t) => {
                    ctx.pop_name();
                    proof {
                        assert(ctx.name_stack.deep_view() =~= st2);
                    }
                    t
                },
                Option::None => {
                    let ghost c_mid = *ctx;
                    let res = resolve_type(ctx, &p.schema);
                    let ghost c_aft = *ctx;
                    let ghost res_g = res;
                    let ghost mid_seq = ctx.name_stack@;
                    let ghost mid_deep = ctx.name_stack.deep_view();
                    proof {
                        if shallow_name_of(p.schema.schema_object, *old(ctx)) is Some {
                            lemma_shallow_same_config(
                                p.schema.schema_object,
                                *old(ctx),
                                c_mid,
                            );
                            lemma_shallow_post(p.schema.schema_object, c_mid, c_aft, res_g);
                        }
                        lemma_stack_after_frame_u(p.schema.schema_object, st2.push(pname@));
                        assert(mid_deep.len() == st2.len() + 1);
                        assert(mid_seq.len() == mid_deep.len());
                    }
                    ctx.pop_name();
                    proof {
                        assert(ctx.name_stack@ == mid_seq.drop_last());
                        assert forall|k: int|
                            0 <= k < st2.len() implies ctx.name_stack.deep_view()[k]
                            == st2[k] by {
                            assert(ctx.name_stack.deep_view()[k] == ctx.name_stack@[k]@);
                            assert(mid_deep[k] == mid_seq[k]@);
                            assert(mid_deep[k] == st2.push(pname@)[k]);
                        }
                        assert(ctx.name_stack.deep_view() =~= st2);
                        lemma_prefix_trans(old(ctx).scope@, sc_before, ctx.scope@);
                    }
                    match res {
                        Result::Err(e) => {
                            ctx.pop_name();
                            ctx.pop_name();
                            proof {
                                assert(!(e is MissingSuccessResponse));
                            }
                            return Result::Err(e);
                        },
                        Result::Ok(t) => t,
                    }
                },
            };
            let doc = match &p.description {
                Option::Some(d) => Option::Some(d.clone()),
                Option::None => Option::None,
            };
            qfields.push(
                FieldDecl {
                    name: pname,
                    ty,
                    optional: true,
                    wire_name: Option::None,
                    flatten: false,
                    doc,
                },
            );
        }
    }
    proof {
        assert(op.parameters.query@.take(nq as int) =~= op.parameters.query@);
    }
    let ghost mid_seq = ctx.name_stack@;
    let ghost mid_deep = ctx.name_stack.deep_view();
    proof {
        assert(mid_seq.len() == mid_deep.len());
    }
    ctx.pop_name();
    proof {
        assert(ctx.name_stack@ == mid_seq.drop_last());
        assert forall|k: int| 0 <= k < st1.len() implies ctx.name_stack.deep_view()[k]
            == st1[k] by {
            assert(ctx.name_stack.deep_view()[k] == ctx.name_stack@[k]@);
            assert(mid_deep[k] == mid_seq[k]@);
            assert(mid_deep[k] == st1.push(obj_name@)[k]);
        }
        assert(ctx.name_stack.deep_view().len() == st1.len());
        assert(ctx.name_stack.deep_view() =~= st1);
        assert(ctx.name_stack@.len() == ctx.name_stack.deep_view().len());
    }
    let params_type: Option<String> = if qfields.len() > 0 {
        if scope_contains(&ctx.scope, obj_name.as_str()) {
            ctx.pop_name();
            return Result::Err(GenError::DuplicateName);
        }
        let d = Decl::StructDecl { name: obj_name.clone(), fields: qfields };
        proof {
            lemma_declare_wf(ctx.scope@, d);
            assert(declare_in(ctx.scope@, d) == ctx.scope@.push(d));
            assert(ctx.scope@.is_prefix_of(ctx.scope@.push(d))) by {
                assert(ctx.scope@.push(d).subrange(0, ctx.scope@.len() as int)
                    =~= ctx.scope@);
            }
            lemma_prefix_trans(old(ctx).scope@, ctx.scope@, ctx.scope@.push(d));
        }
        ctx.scope.push(d);
        Option::Some(obj_name)
    } else {
        Option::None
    };
    // Substitute each argument's placeholder in the raw template.
    let mut path_str = path.internal.clone();
    let na = args.len();
    proof {
        assert(args@.skip(0) =~= args@);
    }
    for i in 0..na
        invariant
            na == args@.len(),
            subst_args_of(path.internal@, args@) == subst_args_of(
                path_str@,
                args@.skip(i as int),
            ),
    {
        proof {
            assert(args@.skip(i as int)[0] == args@[i as int]);
            assert(args@.skip(i as int).drop_first() =~= args@.skip(i + 1));
        }
        proof {
            reveal_strlit("{");
            reveal_strlit("}");
        }
        let mut pat = "{".to_owned();
        pat.append(args[i].wire_name.as_str());
        pat.append("}");
        let mut rep = "{".to_owned();
        rep.append(args[i].name.as_str());
        rep.append("}");
        path_str = replace_all(path_str.as_str(), pat.as_str(), rep.as_str());
    }
    proof {
        assert(args@.skip(na as int) =~= Seq::<ArgDecl>::empty());
    }
    proof {
        assert(ctx.name_stack@.len() == ctx.name_stack.deep_view().len());
    }
    ctx.pop_name();
    proof {
        assert(ctx.name_stack@.len() == 0);
    }
    let doc = match &op.summary {
        Option::Some(d) => Option::Some(d.clone()),
        Option::None => Option::None,
    };
    let name = to_snake(raw.as_str());
    Result::Ok(
        MethodDecl { name, doc, args, params_type, ret_type: ret0, path: path_str },
    )
}

/// Appending one element extends the static-text list exactly when the
/// element is static.
proof fn lemma_static_texts_push(elems: Seq<PathElement>, k: int)
    requires
        0 <= k < elems.len(),
    ensures
        static_texts_of(elems.take(k + 1)) == (match elems[k] {
            PathElement::Static(s) => static_texts_of(elems.take(k)).push(s@),
            PathElement::Parameter(_) => static_texts_of(elems.take(k)),
        }),
    decreases k,
{
    reveal_with_fuel(static_texts_of, 3);
    if k == 0 {
        assert(elems.take(1)[0] == elems[0]);
        assert(elems.take(1).drop_first() =~= Seq::<PathElement>::empty());
        assert(elems.take(0) =~= Seq::<PathElement>::empty());
        match elems[0] {
            PathElement::Static(s) => {
                assert(static_texts_of(elems.take(1)) =~= Seq::<Seq<char>>::empty().push(s@));
            },
            PathElement::Parameter(_) => {},
        }
    } else {
        lemma_static_texts_push(elems.drop_first(), k - 1);
        assert(elems.take(k + 1).drop_first() =~= elems.drop_first().take(k));
        assert(elems.take(k).drop_first() =~= elems.drop_first().take(k - 1));
        assert(elems.take(k + 1)[0] == elems[0]);
        assert(elems.take(k)[0] == elems[0]);
        assert(elems.drop_first()[k - 1] == elems[k]);
    }
}


/// The output name recorded for a definition: the declared name with the
/// configured prefix removed wherever it occurs.
pub open spec fn stripped_name_of(name: Seq<char>, prefix: Option<String>) -> Seq<char> {
    match prefix {
        Option::Some(p) => if p@.len() > 0 {
            replace_all_of(name, p@, Seq::empty())
        } else {
            name
        },
        Option::None => name,
    }
}

/// The reference key under which a definition is registered.
pub open spec fn registry_key_of(name: Seq<char>) -> Seq<char> {
    "#/definitions/"@ + name
}

/// Builds the definitions registry: one pair per definition, keyed by its
/// reference key, valued by its stripped output name, in document order.
fn build_registry(defs: &Vec<(String, Type)>, strip_prefix: &Option<String>) -> (r: Vec<
    (String, String),
>)
    ensures
        r@.len() == defs@.len(),
        forall|i: int|
            0 <= i < defs@.len() ==> (#[trigger] r@[i]).0@ == registry_key_of(defs@[i].0@)
                && r@[i].1@ == stripped_name_of(defs@[i].0@, *strip_prefix),
{
    let mut r: Vec<(String, String)> = Vec::new();
    let n = defs.len();
    for i in 0..n
        invariant
            n == defs@.len(),
            r@.len() == i,
            forall|j: int|
                0 <= j < i ==> (#[trigger] r@[j]).0@ == registry_key_of(defs@[j].0@)
                    && r@[j].1@ == stripped_name_of(defs@[j].0@, *strip_prefix),
    {
        let name = &defs[i].0;
        let mut key = "#/definitions/".to_owned();
        key.append(name.as_str());
        let value = match strip_prefix {
            Option::Some(p) => {
                if p.as_str().unicode_len() > 0 {
                    proof {
                        reveal_strlit("");
                        assert(""@ =~= Seq::<char>::empty());
                    }
                    replace_all(name.as_str(), p.as_str(), "")
                } else {
                    name.clone()
                }
            },
            Option::None => name.clone(),
        };
        r.push((key, value));
    }
    r
}

/// Walks a whole document: builds the registry, resolves every named
/// definition (so forward references resolve), then synthesizes one method
/// per operation into the same output scope. Any resolution failure aborts
/// the run.
#[verifier::loop_isolation(false)]
pub fn generate(
    doc: &SwaggerFile,
    extra_types: Vec<(String, String)>,
    constant_parameters: Vec<String>,
    strip_prefix: Option<String>,
) -> (r: Result<Context, GenError>)
    ensures
        r matches Result::Ok(c) ==> {
            &&& c.name_stack@.len() == 0
            &&& scope_wf(c.scope@)
            &&& c.extra_types@ == extra_types@
            &&& c.constant_parameters@ == constant_parameters@
            &&& c.types@.len() == doc.definitions@.len()
            &&& (forall|i: int|
                0 <= i < doc.definitions@.len() ==> (#[trigger] c.types@[i]).0@
                    == registry_key_of(doc.definitions@[i].0@) && c.types@[i].1@
                    == stripped_name_of(doc.definitions@[i].0@, strip_prefix))
            &&& (forall|pj: int, mj: int|
                0 <= pj < doc.paths@.len() && 0 <= mj
                    < doc.paths@[pj].1.methods@.len() ==> !missing_200(
                    (#[trigger] doc.paths@[pj].1.methods@[mj]).1.responses@,
                ))
            &&& (forall|pj: int, mj: int|
                0 <= pj < doc.paths@.len() && 0 <= mj
                    < doc.paths@[pj].1.methods@.len() ==> scope_holds_method(
                    c.scope@,
                    c,
                    doc.paths@[pj].0,
                    (#[trigger] doc.paths@[pj].1.methods@[mj]).0,
                    doc.paths@[pj].1.methods@[mj].1,
                    skip_of(doc.paths@[pj].0),
                ))
        },
        r matches Result::Err(e) && e is MissingSuccessResponse ==> exists|pj: int, mj: int|
            0 <= pj < doc.paths@.len() && 0 <= mj < doc.paths@[pj].1.methods@.len()
                && missing_200((#[trigger] doc.paths@[pj].1.methods@[mj]).1.responses@),
{
    let registry = build_registry(&doc.definitions, &strip_prefix);
    let ghost g_reg = registry@;
    let ghost g_extra = extra_types@;
    let ghost g_consts = constant_parameters@;
    let ghost g_prefix = strip_prefix;
    let mut ctx = Context::new(registry, extra_types, constant_parameters, strip_prefix);
    let ghost c0 = ctx;
    let nd = doc.definitions.len();
    for i in 0..nd
        invariant
            nd == doc.definitions@.len(),
            ctx.name_stack@.len() == 0,
            scope_wf(ctx.scope@),
            ctx.types@ == g_reg,
            ctx.extra_types@ == g_extra,
            ctx.constant_parameters@ == g_consts,
            ctx.strip_prefix == g_prefix,
    {
        let nm = ctx.types[i].1.clone();
        let ghost nmv = nm@;
        let ghost st_before = ctx.name_stack.deep_view();
        ctx.handle_with_name(nm);
        proof {
            assert(ctx.name_stack.deep_view() =~= st_before.push(nmv));
        }
        let res = resolve_type(&mut ctx, &doc.definitions[i].1);
        proof {
            lemma_stack_after_frame_u(
                doc.definitions@[i as int].1.schema_object,
                st_before.push(nmv),
            );
            assert(ctx.name_stack@.len() == ctx.name_stack.deep_view().len());
            assert(ctx.name_stack.deep_view().len() == 1);
        }
        ctx.pop_name();
        proof {
            assert(ctx.name_stack@.len() == 0);
        }
        match res {
            Result::Err(e) => {
                return Result::Err(e);
            },
            Result::Ok(_) => {},
        }
    }
    let npth = doc.paths.len();
    for pi in 0..npth
        invariant
            npth == doc.paths@.len(),
            ctx.name_stack@.len() == 0,
            scope_wf(ctx.scope@),
            ctx.types@ == g_reg,
            ctx.extra_types@ == g_extra,
            ctx.constant_parameters@ == g_consts,
            ctx.strip_prefix == g_prefix,
            forall|pj: int, mj: int|
                0 <= pj < pi && 0 <= mj < doc.paths@[pj].1.methods@.len()
                    ==> !missing_200(
                    (#[trigger] doc.paths@[pj].1.methods@[mj]).1.responses@,
                ),
            forall|pj: int, mj: int|
                0 <= pj < pi && 0 <= mj < doc.paths@[pj].1.methods@.len()
                    ==> scope_holds_method(
                    ctx.scope@,
                    c0,
                    doc.paths@[pj].0,
                    (#[trigger] doc.paths@[pj].1.methods@[mj]).0,
                    doc.paths@[pj].1.methods@[mj].1,
                    skip_of(doc.paths@[pj].0),
                ),
    {
        let path = &doc.paths[pi].0;
        let skip: usize = if path.elements.len() > 0 {
            1
        } else {
            0
        };
        let nmth = doc.paths[pi].1.methods.len();
        for mi in 0..nmth
            invariant
                npth == doc.paths@.len(),
                pi < npth,
                nmth == doc.paths@[pi as int].1.methods@.len(),
                skip <= doc.paths@[pi as int].0.elements@.len(),
                skip as int == skip_of(doc.paths@[pi as int].0),
                ctx.name_stack@.len() == 0,
                scope_wf(ctx.scope@),
                ctx.types@ == g_reg,
                ctx.extra_types@ == g_extra,
                ctx.constant_parameters@ == g_consts,
                ctx.strip_prefix == g_prefix,
                forall|pj: int, mj: int|
                    (0 <= pj < pi && 0 <= mj < doc.paths@[pj].1.methods@.len()) || (pj
                        == pi && 0 <= mj < mi) ==> !missing_200(
                        (#[trigger] doc.paths@[pj].1.methods@[mj]).1.responses@,
                    ),
                forall|pj: int, mj: int|
                    (0 <= pj < pi && 0 <= mj < doc.paths@[pj].1.methods@.len()) || (pj
                        == pi && 0 <= mj < mi) ==> scope_holds_method(
                        ctx.scope@,
                        c0,
                        doc.paths@[pj].0,
                        (#[trigger] doc.paths@[pj].1.methods@[mj]).0,
                        doc.paths@[pj].1.methods@[mj].1,
                        skip_of(doc.paths@[pj].0),
                    ),
        {
            let method = doc.paths[pi].1.methods[mi].0;
            let ghost sc_it = ctx.scope@;
            let ghost c_call = *&ctx;
            match synthesize_operation(&mut ctx, path, method, &doc.paths[pi].1.methods[mi].1, skip) {
                Result::Err(e) => {
                    proof {
                        if e is MissingSuccessResponse {
                            assert(missing_200(
                                doc.paths@[pi as int].1.methods@[mi as int].1.responses@,
                            ));
                        }
                    }
                    return Result::Err(e);
                },
                Result::Ok(m) => {
                    if scope_contains(&ctx.scope, m.name.as_str()) {
                        return Result::Err(GenError::DuplicateName);
                    }
                    proof {
                        lemma_method_matches_same_config(
                            m,
                            c_call,
                            c0,
                            doc.paths@[pi as int].0,
                            method,
                            doc.paths@[pi as int].1.methods@[mi as int].1,
                            skip as int,
                        );
                    }
                    let d = Decl::FnDecl(m);
                    proof {
                        lemma_declare_wf(ctx.scope@, d);
                        assert(declare_in(ctx.scope@, d) == ctx.scope@.push(d));
                        assert(ctx.scope@.is_prefix_of(ctx.scope@.push(d))) by {
                            assert(ctx.scope@.push(d).subrange(0, ctx.scope@.len() as int)
                                =~= ctx.scope@);
                        }
                        lemma_prefix_trans(sc_it, ctx.scope@, ctx.scope@.push(d));
                    }
                    ctx.scope.push(d);
                    proof {
                        let ghost new_scope = ctx.scope@;
                        assert(new_scope.last() matches Decl::FnDecl(m2) && m2 == d->0);
                        assert(scope_holds_method(
                            new_scope,
                            c0,
                            doc.paths@[pi as int].0,
                            method,
                            doc.paths@[pi as int].1.methods@[mi as int].1,
                            skip as int,
                        )) by {
                            assert(new_scope[new_scope.len() - 1] == d);
                        }
                        assert forall|pj: int, mj: int|
                            (0 <= pj < pi && 0 <= mj < doc.paths@[pj].1.methods@.len())
                                || (pj == pi as int && 0 <= mj < mi as int)
                            implies scope_holds_method(
                            new_scope,
                            c0,
                            doc.paths@[pj].0,
                            (#[trigger] doc.paths@[pj].1.methods@[mj]).0,
                            doc.paths@[pj].1.methods@[mj].1,
                            skip_of(doc.paths@[pj].0),
                        ) by {
                            lemma_holds_method_prefix(
                                sc_it,
                                new_scope,
                                c0,
                                doc.paths@[pj].0,
                                doc.paths@[pj].1.methods@[mj].0,
                                doc.paths@[pj].1.methods@[mj].1,
                                skip_of(doc.paths@[pj].0),
                            );
                        }
                    }
                },
            }
        }
    }
    proof {
        assert forall|pj: int, mj: int|
            0 <= pj < doc.paths@.len() && 0 <= mj < doc.paths@[pj].1.methods@.len()
            implies scope_holds_method(
            ctx.scope@,
            ctx,
            doc.paths@[pj].0,
            (#[trigger] doc.paths@[pj].1.methods@[mj]).0,
            doc.paths@[pj].1.methods@[mj].1,
            skip_of(doc.paths@[pj].0),
        ) by {
            let k = choose|k: int|
                0 <= k < ctx.scope@.len() && ((#[trigger] ctx.scope@[k])
                    matches Decl::FnDecl(mm) && method_matches_op(
                    mm,
                    c0,
                    doc.paths@[pj].0,
                    doc.paths@[pj].1.methods@[mj].0,
                    doc.paths@[pj].1.methods@[mj].1,
                    skip_of(doc.paths@[pj].0),
                ));
            match ctx.scope@[k] {
                Decl::FnDecl(mm) => {
                    lemma_method_matches_same_config(
                        mm,
                        c0,
                        ctx,
                        doc.paths@[pj].0,
                        doc.paths@[pj].1.methods@[mj].0,
                        doc.paths@[pj].1.methods@[mj].1,
                        skip_of(doc.paths@[pj].0),
                    );
                },
                _ => {},
            }
        }
    }
    Result::Ok(ctx)
}

/// First-match lookup in an association list with pairwise-distinct keys
/// returns the value stored at the key's own index.
proof fn lemma_lookup_distinct(pairs: Seq<(String, String)>, i: int)
    requires
        0 <= i < pairs.len(),
        forall|k: int, l: int| 0 <= k < l < pairs.len() ==> pairs[k].0@ != pairs[l].0@,
    ensures
        lookup_of(pairs, pairs[i].0@) == Option::Some(pairs[i].1@),
    decreases i,
{
    if i > 0 {
        assert(pairs[0].0@ != pairs[i].0@);
        assert(forall|k: int, l: int|
            0 <= k < l < pairs.drop_first().len() ==> pairs.drop_first()[k].0@
                != pairs.drop_first()[l].0@) by {
            assert(forall|k: int|
                0 <= k < pairs.drop_first().len() ==> pairs.drop_first()[k] == pairs[k + 1]);
        }
        lemma_lookup_distinct(pairs.drop_first(), i - 1);
    }
}

/// Ref round-trip: for every definition registered under reference key `K`
/// with output name `N`, and any resolution of a `Ref` targeting `K` in a
/// registry with pairwise-distinct keys, the result is `N` — or, when an
/// override exists for `N`, the override's target — and the output scope is
/// unchanged either way.
pub proof fn lemma_ref_round_trip(
    old_c: Context,
    new_c: Context,
    r: Result<String, GenError>,
    i: int,
)
    requires
        0 <= i < old_c.types@.len(),
        forall|k: int, l: int|
            0 <= k < l < old_c.types@.len() ==> old_c.types@[k].0@ != old_c.types@[l].0@,
        crate::resolve::ref_post(old_c, new_c, r, old_c.types@[i].0@),
    ensures
        new_c.scope@ == old_c.scope@,
        match lookup_of(old_c.extra_types@, old_c.types@[i].1@) {
            Option::Some(ov) => r matches Result::Ok(s) && s@ == ov,
            Option::None => r matches Result::Ok(s) && s@ == old_c.types@[i].1@,
        },
{
    lemma_lookup_distinct(old_c.types@, i);
}

} // verus!
