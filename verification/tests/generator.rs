use ptv::naming::Context;
use ptv::ops::{generate, synthesize_operation};
use ptv::output::Decl;
use ptv::resolve::{resolve_tagged, resolve_type, GenError};
use ptv::schema::{
    Contact, Info, NumberFormat, Operation, Parameter, ParameterLocations, PathElement,
    PathItem, PathName, Response, SwaggerFile, SwaggerVersion, Type, TypePath, TypeTagged,
    TypeUntagged,
};
use ptv::Method;

fn plain(t: TypeTagged) -> Type {
    Type { description: None, schema_object: TypeUntagged::Tagged(t) }
}

fn ref_to(key: &str) -> Type {
    Type {
        description: None,
        schema_object: TypeUntagged::Ref { target: TypePath(key.to_string()) },
    }
}

fn int_ty() -> Type {
    plain(TypeTagged::Integer { format: Some(NumberFormat::Int32), enum_values: None })
}

fn fresh_ctx(
    types: Vec<(&str, &str)>,
    extra: Vec<(&str, &str)>,
    consts: Vec<&str>,
) -> Context {
    Context::new(
        types.into_iter().map(|(a, b)| (a.to_string(), b.to_string())).collect(),
        extra.into_iter().map(|(a, b)| (a.to_string(), b.to_string())).collect(),
        consts.into_iter().map(|s| s.to_string()).collect(),
        None,
    )
}

fn decl_key(d: &Decl) -> &str {
    match d {
        Decl::StructDecl { name, .. } => name.as_str(),
        Decl::EnumDecl { name, .. } => name.as_str(),
        Decl::FnDecl(m) => m.name.as_str(),
    }
}

#[test]
fn ref_round_trip_resolves_to_definition_name() {
    let mut ctx = fresh_ctx(vec![("#/definitions/V3.Departure", "Departure")], vec![], vec![]);
    let r = resolve_type(&mut ctx, &ref_to("#/definitions/V3.Departure"));
    assert_eq!(r.unwrap(), "Departure".to_string());
    assert_eq!(ctx.scope.len(), 0);
}

#[test]
fn ref_round_trip_honors_override() {
    let mut ctx = fresh_ctx(
        vec![("#/definitions/V3.RouteType", "RouteType")],
        vec![("RouteType", "crate::ty::RouteType")],
        vec![],
    );
    let r = resolve_type(&mut ctx, &ref_to("#/definitions/V3.RouteType"));
    assert_eq!(r.unwrap(), "crate::ty::RouteType".to_string());
    assert_eq!(ctx.scope.len(), 0);
}

#[test]
fn unresolvable_ref_degrades_to_open_value() {
    let mut ctx = fresh_ctx(vec![], vec![], vec![]);
    let r = resolve_type(&mut ctx, &ref_to("#/definitions/Missing"));
    assert_eq!(r.unwrap(), "serde_json::Value".to_string());
}

#[test]
fn dedup_idempotence_single_declaration() {
    let mut ctx = fresh_ctx(vec![], vec![], vec![]);
    ctx.handle_with_name("status".to_string());
    let node = TypeTagged::Integer { format: None, enum_values: Some(vec![1, 2]) };
    let first = resolve_tagged(&mut ctx, &node).unwrap();
    let second = resolve_tagged(&mut ctx, &node).unwrap();
    assert_eq!(first, "Status".to_string());
    assert_eq!(first, second);
    assert_eq!(ctx.scope.len(), 1);
    assert_eq!(decl_key(&ctx.scope[0]), "Status");
}

#[test]
fn override_precedence_adds_no_declaration() {
    let mut ctx = fresh_ctx(vec![], vec![("Stop", "crate::ty::StopId")], vec![]);
    ctx.handle_with_name("stop".to_string());
    let node = TypeTagged::Object {
        properties: Some(vec![("id".to_string(), int_ty())]),
        additional_properties: None,
        required: None,
    };
    let r = resolve_tagged(&mut ctx, &node).unwrap();
    assert_eq!(r, "crate::ty::StopId".to_string());
    assert_eq!(ctx.scope.len(), 0);
}

#[test]
fn required_field_fidelity() {
    let mut ctx = fresh_ctx(vec![], vec![], vec![]);
    ctx.handle_with_name("record".to_string());
    let node = TypeTagged::Object {
        properties: Some(vec![("a".to_string(), int_ty()), ("b".to_string(), int_ty())]),
        additional_properties: None,
        required: Some(vec!["a".to_string()]),
    };
    let name = resolve_tagged(&mut ctx, &node).unwrap();
    assert_eq!(name, "Record".to_string());
    assert_eq!(ctx.scope.len(), 1);
    match &ctx.scope[0] {
        Decl::StructDecl { name, fields } => {
            assert_eq!(name.as_str(), "Record");
            assert_eq!(fields.len(), 2);
            assert_eq!(fields[0].name.as_str(), "a");
            assert!(!fields[0].optional);
            assert_eq!(fields[0].ty.as_str(), "i32");
            assert_eq!(fields[1].name.as_str(), "b");
            assert!(fields[1].optional);
            assert_eq!(fields[1].ty.as_str(), "i32");
        },
        _ => panic!("expected a struct declaration"),
    }
}

#[test]
fn enum_totality_three_distinct_variants() {
    let mut ctx = fresh_ctx(vec![], vec![], vec![]);
    ctx.handle_with_name("kind".to_string());
    let node = TypeTagged::Integer { format: None, enum_values: Some(vec![1, 2, 5]) };
    let name = resolve_tagged(&mut ctx, &node).unwrap();
    assert_eq!(name, "Kind".to_string());
    match &ctx.scope[0] {
        Decl::EnumDecl { repr, variants, .. } => {
            assert_eq!(repr.as_deref(), Some("i64"));
            assert_eq!(variants.len(), 3);
            let names: Vec<&str> = variants.iter().map(|v| v.name.as_str()).collect();
            assert_eq!(names, vec!["One", "Two", "Five"]);
            for (v, expect) in variants.iter().zip([1i64, 2, 5]) {
                match &v.value {
                    ptv::output::VariantValue::IntVal(x) => assert_eq!(*x, expect),
                    _ => panic!("expected integer values"),
                }
            }
            assert!(names[0] != names[1] && names[1] != names[2] && names[0] != names[2]);
        },
        _ => panic!("expected an enum declaration"),
    }
}

#[test]
fn array_singularization_names_item_from_singular() {
    let mut ctx = fresh_ctx(vec![], vec![], vec![]);
    ctx.handle_with_name("stops".to_string());
    let node = TypeTagged::Array {
        items: Box::new(plain(TypeTagged::Object {
            properties: Some(vec![("id".to_string(), int_ty())]),
            additional_properties: None,
            required: None,
        })),
    };
    let r = resolve_tagged(&mut ctx, &node).unwrap();
    assert_eq!(r, "Vec<Stop>".to_string());
    assert_eq!(ctx.scope.len(), 1);
    assert_eq!(decl_key(&ctx.scope[0]), "Stop");
}

#[test]
fn string_enum_escapes_digit_leading_variant() {
    let mut ctx = fresh_ctx(vec![], vec![], vec![]);
    ctx.handle_with_name("zone".to_string());
    let node = TypeTagged::Text {
        format: None,
        enum_values: Some(vec!["1st".to_string(), "second".to_string()]),
    };
    let name = resolve_tagged(&mut ctx, &node).unwrap();
    assert_eq!(name, "Zone".to_string());
    match &ctx.scope[0] {
        Decl::EnumDecl { repr, variants, .. } => {
            assert!(repr.is_none());
            assert_eq!(variants[0].name.as_str(), "_1st");
            assert_eq!(variants[1].name.as_str(), "Second");
            match &variants[0].value {
                ptv::output::VariantValue::StrVal(s) => assert_eq!(s.as_str(), "1st"),
                _ => panic!("expected string values"),
            }
        },
        _ => panic!("expected an enum declaration"),
    }
}

#[test]
fn date_formats_map_to_date_types() {
    let mut ctx = fresh_ctx(vec![], vec![], vec![]);
    let dt = TypeTagged::Text { format: Some("date-time".to_string()), enum_values: None };
    assert_eq!(resolve_tagged(&mut ctx, &dt).unwrap(), "chrono::NaiveDateTime".to_string());
    let d = TypeTagged::Text { format: Some("date".to_string()), enum_values: None };
    assert_eq!(resolve_tagged(&mut ctx, &d).unwrap(), "chrono::NaiveDate".to_string());
    let mut ctx2 = fresh_ctx(vec![], vec![("DateTime", "crate::core::DateTime")], vec![]);
    assert_eq!(resolve_tagged(&mut ctx2, &dt).unwrap(), "crate::core::DateTime".to_string());
}

#[test]
fn primitive_formats_map_to_fixed_width_types() {
    let mut ctx = fresh_ctx(vec![], vec![], vec![]);
    let cases: Vec<(TypeTagged, &str)> = vec![
        (TypeTagged::Integer { format: Some(NumberFormat::Int32), enum_values: None }, "i32"),
        (TypeTagged::Integer { format: Some(NumberFormat::Int64), enum_values: None }, "i64"),
        (TypeTagged::Integer { format: None, enum_values: None }, "i64"),
        (TypeTagged::Number { format: Some(NumberFormat::Float), enum_values: None }, "f32"),
        (TypeTagged::Number { format: Some(NumberFormat::Double), enum_values: None }, "f64"),
        (TypeTagged::Number { format: None, enum_values: None }, "f64"),
        (TypeTagged::Boolean, "bool"),
        (TypeTagged::Text { format: None, enum_values: None }, "String"),
    ];
    for (node, expect) in cases {
        assert_eq!(resolve_tagged(&mut ctx, &node).unwrap(), expect.to_string());
    }
}

#[test]
fn bare_object_is_open_map() {
    let mut ctx = fresh_ctx(vec![], vec![], vec![]);
    let node =
        TypeTagged::Object { properties: None, additional_properties: None, required: None };
    assert_eq!(
        resolve_tagged(&mut ctx, &node).unwrap(),
        "std::collections::HashMap<String,serde_json::Value>".to_string()
    );
}

#[test]
fn missing_context_name_is_fatal() {
    let mut ctx = fresh_ctx(vec![], vec![], vec![]);
    let node = TypeTagged::Integer { format: None, enum_values: Some(vec![1]) };
    assert_eq!(resolve_tagged(&mut ctx, &node), Err(GenError::MissingContextName));
}

#[test]
fn path_template_parse_splits_segments() {
    let p = PathName::parse("/v3/stops/{stop_id}/route");
    assert_eq!(p.internal.as_str(), "/v3/stops/{stop_id}/route");
    assert_eq!(p.elements.len(), 4);
    match &p.elements[0] {
        PathElement::Static(s) => assert_eq!(s.as_str(), "v3"),
        _ => panic!("expected static"),
    }
    match &p.elements[2] {
        PathElement::Parameter(s) => assert_eq!(s.as_str(), "stop_id"),
        _ => panic!("expected parameter"),
    }
}

#[test]
fn parameter_partition_by_location() {
    let mk = |name: &str, loc: ptv::schema::InLocation| Parameter {
        name: name.to_string(),
        in_: loc,
        required: false,
        schema: int_ty(),
        description: None,
    };
    let params = vec![
        mk("a", ptv::schema::InLocation::Query),
        mk("b", ptv::schema::InLocation::Path),
        mk("c", ptv::schema::InLocation::Query),
        mk("d", ptv::schema::InLocation::Header),
        mk("e", ptv::schema::InLocation::Cookie),
    ];
    let buckets = ParameterLocations::partition(params);
    let names = |ps: &Vec<Parameter>| ps.iter().map(|p| p.name.clone()).collect::<Vec<_>>();
    assert_eq!(names(&buckets.query), vec!["a".to_string(), "c".to_string()]);
    assert_eq!(names(&buckets.path), vec!["b".to_string()]);
    assert_eq!(names(&buckets.header), vec!["d".to_string()]);
}

fn demo_operation() -> Operation {
    Operation {
        tags: None,
        operation_id: None,
        consumes: None,
        produces: None,
        summary: Some("View a stop".to_string()),
        description: None,
        parameters: ParameterLocations {
            query: vec![
                Parameter {
                    name: "route_type".to_string(),
                    in_: ptv::schema::InLocation::Query,
                    required: false,
                    schema: int_ty(),
                    description: Some("kind of transport".to_string()),
                },
                Parameter {
                    name: "devid".to_string(),
                    in_: ptv::schema::InLocation::Query,
                    required: false,
                    schema: int_ty(),
                    description: None,
                },
            ],
            header: vec![],
            path: vec![Parameter {
                name: "stop_id".to_string(),
                in_: ptv::schema::InLocation::Path,
                required: true,
                schema: int_ty(),
                description: None,
            }],
        },
        responses: vec![(
            "200".to_string(),
            Response {
                description: None,
                schema: Some(ref_to("#/definitions/V3.StopResponse")),
            },
        )],
    }
}

#[test]
fn operation_synthesis_names_and_parameters() {
    let mut ctx = fresh_ctx(
        vec![("#/definitions/V3.StopResponse", "StopResponse")],
        vec![],
        vec!["devid"],
    );
    let path = PathName::parse("/v3/stops/{stop_id}");
    let m = synthesize_operation(&mut ctx, &path, Method::Get, &demo_operation(), 1).unwrap();
    assert_eq!(m.name.as_str(), "get_stop_by_stop_id");
    assert_eq!(m.ret_type.as_str(), "StopResponse");
    assert_eq!(m.doc.as_deref(), Some("View a stop"));
    assert_eq!(m.args.len(), 1);
    assert_eq!(m.args[0].name.as_str(), "stop_id");
    assert_eq!(m.args[0].wire_name.as_str(), "stop_id");
    assert_eq!(m.path.as_str(), "/v3/stops/{stop_id}");
    assert_eq!(m.params_type.as_deref(), Some("GetStopByStopIdParams"));
    match &ctx.scope[ctx.scope.len() - 1] {
        Decl::StructDecl { name, fields } => {
            assert_eq!(name.as_str(), "GetStopByStopIdParams");
            assert_eq!(fields.len(), 1);
            assert_eq!(fields[0].name.as_str(), "route_type");
            assert!(fields[0].optional);
            assert_eq!(fields[0].ty.as_str(), "i32");
            assert_eq!(fields[0].doc.as_deref(), Some("kind of transport"));
        },
        _ => panic!("expected the parameter-object struct"),
    }
}

#[test]
fn operation_without_success_schema_is_fatal() {
    let mut ctx = fresh_ctx(vec![], vec![], vec![]);
    let path = PathName::parse("/v3/stops");
    let mut op = demo_operation();
    op.responses.clear();
    let r = synthesize_operation(&mut ctx, &path, Method::Get, &op, 1);
    assert_eq!(r.unwrap_err(), GenError::MissingSuccessResponse);
}

#[test]
fn generate_walks_definitions_and_paths() {
    let doc = SwaggerFile {
        swagger: SwaggerVersion::V2,
        info: Info {
            title: "demo".to_string(),
            version: "3".to_string(),
            description: None,
            terms_of_service: None,
            contact: Some(Contact { name: None, url: None, email: None }),
            license: None,
        },
        host: "example.invalid".to_string(),
        schemes: vec![ptv::schema::Scheme::Https],
        paths: vec![(PathName::parse("/v3/stops/{stop_id}"), PathItem {
            methods: vec![(Method::Get, demo_operation())],
        })],
        definitions: vec![(
            "V3.StopResponse".to_string(),
            plain(TypeTagged::Object {
                properties: Some(vec![("stop_name".to_string(), plain(TypeTagged::Text {
                    format: None,
                    enum_values: None,
                }))]),
                additional_properties: None,
                required: None,
            }),
        )],
    };
    let ctx = generate(
        &doc,
        vec![],
        vec!["devid".to_string(), "signature".to_string()],
        Some("V3.".to_string()),
    )
    .unwrap();
    let keys: Vec<&str> = ctx.scope.iter().map(decl_key).collect();
    assert!(keys.contains(&"StopResponse"));
    assert!(keys.contains(&"GetStopByStopIdParams"));
    assert!(keys.contains(&"get_stop_by_stop_id"));
    assert_eq!(ctx.types.len(), 1);
    assert_eq!(ctx.types[0].0.as_str(), "#/definitions/V3.StopResponse");
    assert_eq!(ctx.types[0].1.as_str(), "StopResponse");
}

#[test]
fn duplicate_nested_name_is_reported() {
    let mut ctx = fresh_ctx(vec![], vec![], vec![]);
    ctx.handle_with_name("thing".to_string());
    // A property whose empty-ish name camel-cases to nothing collides with
    // the enclosing object's own full name.
    let node = TypeTagged::Object {
        properties: Some(vec![("_".to_string(), plain(TypeTagged::Object {
            properties: Some(vec![("id".to_string(), int_ty())]),
            additional_properties: None,
            required: None,
        }))]),
        additional_properties: None,
        required: None,
    };
    let r = resolve_tagged(&mut ctx, &node);
    assert_eq!(r, Err(GenError::DuplicateName));
}

#[test]
fn parameter_flatten_restores_one_list() {
    let mk = |name: &str, loc: ptv::schema::InLocation| Parameter {
        name: name.to_string(),
        in_: loc,
        required: false,
        schema: int_ty(),
        description: None,
    };
    let params = vec![
        mk("q1", ptv::schema::InLocation::Query),
        mk("p1", ptv::schema::InLocation::Path),
        mk("h1", ptv::schema::InLocation::Header),
        mk("q2", ptv::schema::InLocation::Query),
    ];
    let flat = ParameterLocations::partition(params).flatten();
    let names: Vec<&str> = flat.iter().map(|p| p.name.as_str()).collect();
    assert_eq!(names, vec!["q1", "q2", "h1", "p1"]);
}

#[test]
fn unspeakable_enum_literal_is_fatal() {
    let mut ctx = fresh_ctx(vec![], vec![], vec![]);
    ctx.handle_with_name("weird".to_string());
    let node = TypeTagged::Integer { format: None, enum_values: Some(vec![1, i64::MIN]) };
    assert_eq!(resolve_tagged(&mut ctx, &node), Err(GenError::NumberOutOfRange));
    assert_eq!(ctx.scope.len(), 0);
}
