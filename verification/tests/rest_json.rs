use domiform::adapters::rest_api::json::{capabilities_object, state_from_json, state_to_json};
use domiform::json::{read_json, write_json, Json};
use domiform::state::StateKey;
use domiform::table::Table;
use domiform::{CapabilityKind, CapabilityState, DeviceId};

fn json(text: &str) -> Json {
    read_json(text.as_bytes()).unwrap()
}

fn rgb(r: u64, g: u64, b: u64) -> Json {
    Json::object()
        .with("r", Json::Whole(r))
        .with("g", Json::Whole(g))
        .with("b", Json::Whole(b))
}

#[test]
fn scalars_round_trip_in_canonical_units() {
    let cases = [
        (
            CapabilityKind::Brightness,
            json("40"),
            CapabilityState::Brightness(40),
        ),
        (
            CapabilityKind::Temperature,
            json("-500"),
            CapabilityState::Temperature(-500),
        ),
        (
            CapabilityKind::ColorTemperature,
            json("370"),
            CapabilityState::ColorTemperature(370),
        ),
        (
            CapabilityKind::Switch,
            json("true"),
            CapabilityState::Switch(true),
        ),
        (
            CapabilityKind::Illuminance,
            json("1200"),
            CapabilityState::Illuminance(1200),
        ),
    ];
    for (kind, wire, state) in cases {
        assert_eq!(state_from_json(kind, &wire).unwrap(), state, "{kind:?}");
        assert_eq!(state_to_json(&state), wire, "{kind:?}");
    }
}

#[test]
fn color_round_trips_and_rejects_malformed_objects() {
    let wire = rgb(255, 170, 0);
    let state = CapabilityState::Color {
        r: 255,
        g: 170,
        b: 0,
    };
    assert_eq!(
        state_from_json(CapabilityKind::Color, &wire).unwrap(),
        state
    );
    assert_eq!(state_to_json(&state), wire);

    for bad in [
        json("{\"r\": 255, \"g\": 170}"),                     // missing a channel
        json("{\"r\": 255, \"g\": 170, \"b\": 300}"),         // out of range
        json("{\"r\": 255, \"g\": 170, \"b\": 0, \"a\": 1}"), // stray key
        json("[255, 170, 0]"),                                // not an object
    ] {
        assert!(
            state_from_json(CapabilityKind::Color, &bad).is_err(),
            "{bad:?} should be rejected"
        );
    }
}

#[test]
fn out_of_range_and_wrong_typed_scalars_are_errors() {
    assert!(state_from_json(CapabilityKind::Brightness, &json("101")).is_err());
    assert!(state_from_json(CapabilityKind::Brightness, &json("-1")).is_err());
    // A float is rejected rather than truncated: the API must not silently
    // do something other than what was asked.
    assert!(state_from_json(CapabilityKind::Brightness, &json("40.7")).is_err());
    assert!(state_from_json(CapabilityKind::Brightness, &json("\"40\"")).is_err());
    assert!(state_from_json(CapabilityKind::Switch, &json("1")).is_err());
    assert!(state_from_json(CapabilityKind::TimeOfDay, &json("1440")).is_err());
}

#[test]
fn undeclared_values_render_as_explicit_null() {
    let caps = vec![CapabilityKind::Switch, CapabilityKind::Brightness];
    let mut states = Table::new();
    states.insert(
        StateKey(DeviceId(0), CapabilityKind::Switch),
        CapabilityState::Switch(true),
    );
    let obj = capabilities_object(&caps, DeviceId(0), &states);
    assert_eq!(
        obj,
        Json::object()
            .with("switch", Json::Flag(true))
            .with("brightness", Json::Null)
    );
    assert_eq!(write_json(&obj), "{\"brightness\":null,\"switch\":true}");
}

#[test]
fn value_errors_say_what_is_wrong() {
    let why = |kind, text| state_from_json(kind, &json(text)).unwrap_err().0;
    assert_eq!(
        why(CapabilityKind::Brightness, "101"),
        "'brightness' must be between 0 and 100, got 101"
    );
    assert_eq!(
        why(CapabilityKind::Brightness, "1.5"),
        "'brightness' expects an integer, got a fractional number"
    );
    assert_eq!(
        why(CapabilityKind::Switch, "\"on\""),
        "'switch' expects a boolean, got a string"
    );
    assert_eq!(
        why(CapabilityKind::Color, "{\"r\":1,\"g\":2}"),
        "'color' is missing 'b'"
    );
    assert_eq!(
        why(CapabilityKind::Color, "{\"a\":0,\"b\":3,\"g\":2,\"r\":1}"),
        "'color' has unexpected key 'a'"
    );
    assert_eq!(
        why(CapabilityKind::Color, "{\"r\":1,\"g\":2,\"b\":-3}"),
        "'color.b' must be between 0 and 255, got -3"
    );
    assert_eq!(
        why(CapabilityKind::Color, "null"),
        "'color' expects an object like {\"r\":255,\"g\":170,\"b\":0}, got null"
    );
    assert_eq!(
        why(CapabilityKind::IrTransmitter, "true"),
        "'ir_transmitter' has no readable state; send a code with {\"send_ir_code\": \"<base64>\"}"
    );
}

#[test]
fn json_text_is_read_and_written() {
    let text = "{\"a\":[1,-2,3.5,\"x\",null,true],\"b\":{}}";
    assert_eq!(write_json(&json(text)), text);
    assert_eq!(
        json(" [ 18446744073709551615 , -1 ] "),
        Json::List(vec![Json::Whole(u64::MAX), Json::Negative(-1)])
    );
    assert!(read_json(b"{").is_none());
    assert_eq!(
        domiform::json::try_read_json(b"").unwrap_err(),
        "EOF while parsing a value at line 1 column 0"
    );
}
