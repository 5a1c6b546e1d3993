use ptv::decode::{check_value, render_path, JsonValue};
use ptv::schema::{NumberFormat, Type, TypePath, TypeTagged, TypeUntagged};
use ptv::sign::{append_devid, build_signed_path, classify_response, Client, Modes,
    RequestError, API_URL};
use ptv::text::{join_strings, replace_all, singularize, str_eq};
use ptv::ty::{
    ApiError, Date, DisruptionMode, DisruptionStatus, ExpandOptions, I32ButSilly,
    PassengerType, RouteType, ServiceOperator, Status,
};

fn plain(t: TypeTagged) -> Type {
    Type { description: None, schema_object: TypeUntagged::Tagged(t) }
}

fn obj(props: Vec<(&str, Type)>, required: Vec<&str>) -> Type {
    plain(TypeTagged::Object {
        properties: Some(props.into_iter().map(|(n, t)| (n.to_string(), t)).collect()),
        additional_properties: None,
        required: Some(required.into_iter().map(|s| s.to_string()).collect()),
    })
}

fn int_ty() -> Type {
    plain(TypeTagged::Integer { format: Some(NumberFormat::Int32), enum_values: None })
}

#[test]
fn signature_computation() {
    let client = Client::new("ABC".to_string(), "KEY".to_string());
    let url = client.request_url("/v3/disruptions");
    let expected = format!(
        "{}{}",
        API_URL,
        "/v3/disruptions?devid=ABC&signature=8E6E35E4E4C174189FE43907463CA233B09FFF21"
    );
    assert_eq!(url, expected);
}

#[test]
fn signed_path_separator_cases() {
    assert_eq!(append_devid("/v3/stops", "D"), "/v3/stops?devid=D".to_string());
    assert_eq!(append_devid("/v3/stops?", "D"), "/v3/stops?devid=D".to_string());
    assert_eq!(append_devid("/v3/stops?a=1", "D"), "/v3/stops?a=1&devid=D".to_string());
}

#[test]
fn signature_depends_on_token() {
    let a = build_signed_path("/v3/stops", "D", "KEY1");
    let b = build_signed_path("/v3/stops", "D", "KEY2");
    assert_ne!(a, b);
    assert!(a.starts_with("/v3/stops?devid=D&signature="));
    assert_eq!(a.len(), "/v3/stops?devid=D&signature=".len() + 40);
}

#[test]
fn error_classification_with_message() {
    let body = ApiError {
        message: "Not found".to_string(),
        status: Status { version: "3".to_string(), health: 1 },
    };
    let e = classify_response(404, Some(body));
    match &e {
        RequestError::Failed { status, message } => {
            assert_eq!(*status, 404);
            assert_eq!(message.as_deref(), Some("Not found"));
        },
        _ => panic!("expected a failed-status error"),
    }
    assert_eq!(e.render(), "Request failed: 404 - Not found".to_string());
}

#[test]
fn error_classification_without_body() {
    let e = classify_response(500, None);
    match &e {
        RequestError::Failed { status, message } => {
            assert_eq!(*status, 500);
            assert!(message.is_none());
        },
        _ => panic!("expected a failed-status error"),
    }
    assert_eq!(e.render(), "Request failed: 500".to_string());
}

#[test]
fn decode_error_render() {
    let e = RequestError::Decode {
        path: "foo.bar".to_string(),
        detail: "missing field".to_string(),
        body: "{}".to_string(),
    };
    assert_eq!(e.render(), "Error at path: foo.bar missing field - response: {}".to_string());
}

#[test]
fn decode_path_precision() {
    // A success body missing required field foo.bar reports exactly foo.bar.
    let schema = obj(vec![("foo", obj(vec![("bar", int_ty())], vec!["bar"]))], vec!["foo"]);
    let body = JsonValue::Obj(vec![("foo".to_string(), JsonValue::Obj(vec![]))]);
    let defs: Vec<(String, Type)> = vec![];
    let err = check_value(&body, &schema, &defs, 0).unwrap_err();
    assert_eq!(render_path(&err), "foo.bar".to_string());
}

#[test]
fn decode_accepts_matching_body() {
    let schema = obj(
        vec![("name", plain(TypeTagged::Text { format: None, enum_values: None })),
            ("count", int_ty())],
        vec!["name"],
    );
    let body = JsonValue::Obj(vec![
        ("name".to_string(), JsonValue::Str("x".to_string())),
        ("count".to_string(), JsonValue::Num {
            int_part: 3,
            text: "3".to_string(),
            is_int: true,
        }),
        ("extra".to_string(), JsonValue::Bool(true)),
    ]);
    let defs: Vec<(String, Type)> = vec![];
    assert!(check_value(&body, &schema, &defs, 0).is_ok());
}

#[test]
fn decode_reports_array_index() {
    let schema = plain(TypeTagged::Array { items: Box::new(int_ty()) });
    let body = JsonValue::Arr(vec![
        JsonValue::Num { int_part: 1, text: "1".to_string(), is_int: true },
        JsonValue::Str("oops".to_string()),
    ]);
    let defs: Vec<(String, Type)> = vec![];
    let err = check_value(&body, &schema, &defs, 0).unwrap_err();
    assert_eq!(render_path(&err), "1".to_string());
}

#[test]
fn decode_follows_references() {
    let schema = Type {
        description: None,
        schema_object: TypeUntagged::Ref {
            target: TypePath("#/definitions/Leaf".to_string()),
        },
    };
    let defs: Vec<(String, Type)> =
        vec![("Leaf".to_string(), obj(vec![("v", int_ty())], vec!["v"]))];
    let good = JsonValue::Obj(vec![("v".to_string(), JsonValue::Num {
        int_part: 1,
        text: "1".to_string(),
        is_int: true,
    })]);
    let bad = JsonValue::Obj(vec![]);
    assert!(check_value(&good, &schema, &defs, defs.len()).is_ok());
    let err = check_value(&bad, &schema, &defs, defs.len()).unwrap_err();
    assert_eq!(render_path(&err), "v".to_string());
}

#[test]
fn i32_text_parse_accepts_valid_numbers() {
    assert_eq!(I32ButSilly::parse("123"), Some(I32ButSilly(123)));
    assert_eq!(I32ButSilly::parse("+42"), Some(I32ButSilly(42)));
    assert_eq!(I32ButSilly::parse("-7"), Some(I32ButSilly(-7)));
    assert_eq!(I32ButSilly::parse("0"), Some(I32ButSilly(0)));
    assert_eq!(I32ButSilly::parse("2147483647"), Some(I32ButSilly(i32::MAX)));
    assert_eq!(I32ButSilly::parse("-2147483648"), Some(I32ButSilly(i32::MIN)));
}

#[test]
fn i32_text_parse_rejects_invalid_numbers() {
    assert_eq!(I32ButSilly::parse(""), None);
    assert_eq!(I32ButSilly::parse("-"), None);
    assert_eq!(I32ButSilly::parse("+"), None);
    assert_eq!(I32ButSilly::parse("12a"), None);
    assert_eq!(I32ButSilly::parse("2147483648"), None);
    assert_eq!(I32ButSilly::parse("-2147483649"), None);
    assert_eq!(I32ButSilly::parse("99999999999999999999"), None);
}

#[test]
fn route_type_wire_numbers() {
    assert_eq!(RouteType::Train.to_i8(), 0);
    assert_eq!(RouteType::NightBus.to_i8(), 4);
    assert_eq!(RouteType::Other(9).to_i8(), 9);
    assert_eq!(RouteType::from_i8(3), RouteType::VLine);
    assert_eq!(RouteType::from_i8(77), RouteType::Other(77));
    for x in [-5i8, 0, 1, 2, 3, 4, 5, 100] {
        assert_eq!(RouteType::from_i8(x).to_i8(), x);
    }
}

#[test]
fn disruption_mode_numbers() {
    assert_eq!(DisruptionMode::MetroTrain.as_number(), 1);
    assert_eq!(DisruptionMode::RegionalBus.as_number(), 7);
    assert_eq!(DisruptionMode::General.as_number(), 100);
    assert_eq!(Modes(DisruptionMode::MetroTram).query_value(), 3);
}

#[test]
fn disruption_status_wire_forms() {
    assert_eq!(DisruptionStatus::Current.as_str(), "current");
    assert_eq!(DisruptionStatus::Planned.as_str(), "planned");
    assert_eq!(DisruptionStatus::parse("current"), Some(DisruptionStatus::Current));
    assert_eq!(DisruptionStatus::parse("planned"), Some(DisruptionStatus::Planned));
    assert_eq!(DisruptionStatus::parse("Planned"), None);
}

#[test]
fn expand_and_passenger_wire_forms() {
    assert_eq!(ExpandOptions::All.as_str(), "All");
    assert_eq!(ExpandOptions::VehicleDescriptor.as_str(), "VehicleDescriptor");
    assert_eq!(ExpandOptions::NoExpand.as_str(), "None");
    assert_eq!(PassengerType::Senior.as_str(), "senior");
    assert_eq!(PassengerType::FullFare.as_str(), "fullFare");
}

#[test]
fn service_operator_round_trip() {
    let known = ServiceOperator::from_name("Yarra Trams".to_string());
    assert!(matches!(known, ServiceOperator::YarraTrams));
    assert_eq!(known.as_name(), "Yarra Trams");
    let other = ServiceOperator::from_name("Someone Else".to_string());
    assert_eq!(other.as_name(), "Someone Else");
}

#[test]
fn text_utilities() {
    assert_eq!(replace_all("a_response_b_response", "_response", ""), "a_b".to_string());
    assert_eq!(replace_all("/v3/stops/{stop_id}", "{stop_id}", "{sid}"),
        "/v3/stops/{sid}".to_string());
    assert_eq!(singularize("stops"), "stop".to_string());
    assert_eq!(singularize("bus"), "bu".to_string());
    assert_eq!(singularize("x"), "x".to_string());
    let parts = vec!["route_type".to_string(), "stop_id".to_string()];
    assert_eq!(join_strings(&parts, "_and_"), "route_type_and_stop_id".to_string());
    assert!(str_eq("abc", "abc"));
    assert!(!str_eq("abc", "abd"));
}

#[test]
fn date_parts_are_validated() {
    let d = Date::new(2024, 2, 29).unwrap();
    assert_eq!((d.year, d.month, d.day), (2024, 2, 29));
    assert!(Date::new(2024, 0, 1).is_none());
    assert!(Date::new(2024, 13, 1).is_none());
    assert!(Date::new(2024, 1, 32).is_none());
}
