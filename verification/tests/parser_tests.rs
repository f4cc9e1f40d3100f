use can_config_frontend::calls::{Access, BuilderCall};
use can_config_frontend::doc::DocValue;
use can_config_frontend::errors::Error;
use can_config_frontend::parser::{
    access_of, parse_bus, parse_enum_type, parse_network, parse_node, parse_object_entry,
    parse_rx_stream, parse_struct_type, parse_top_level, parse_tx_command, parse_tx_stream,
};

fn s(x: &str) -> DocValue {
    DocValue::Str(x.to_string())
}

fn pair(k: &str, v: DocValue) -> (DocValue, DocValue) {
    (s(k), v)
}

fn map(pairs: Vec<(DocValue, DocValue)>) -> DocValue {
    DocValue::Mapping(pairs)
}

#[test]
fn object_entry_full_attribute_order() {
    let entry = map(vec![
        pair("type", s("float32")),
        pair("unit", s("m/s")),
        pair("access", s("global")),
    ]);
    let mut out: Vec<BuilderCall> = Vec::new();
    let r = parse_object_entry("speed", &entry, &mut out);
    assert!(r.is_ok());
    assert_eq!(
        out,
        vec![
            BuilderCall::CreateObjectEntry("speed".to_string(), "float32".to_string()),
            BuilderCall::SetObjectEntryUnit("m/s".to_string()),
            BuilderCall::SetObjectEntryAccess(Access::Global),
        ]
    );
}

#[test]
fn object_entry_description_before_unit_and_access() {
    let entry = map(vec![
        pair("access", s("const")),
        pair("description", s("vehicle speed")),
        pair("type", s("u16")),
        pair("unit", s("km/h")),
    ]);
    let mut out: Vec<BuilderCall> = Vec::new();
    let r = parse_object_entry("speed", &entry, &mut out);
    assert!(r.is_ok());
    assert_eq!(
        out,
        vec![
            BuilderCall::CreateObjectEntry("speed".to_string(), "u16".to_string()),
            BuilderCall::SetObjectEntryDescription("vehicle speed".to_string()),
            BuilderCall::SetObjectEntryUnit("km/h".to_string()),
            BuilderCall::SetObjectEntryAccess(Access::Const),
        ]
    );
}

#[test]
fn object_entry_missing_type_fails() {
    let entry = map(vec![pair("unit", s("m/s"))]);
    let mut out: Vec<BuilderCall> = Vec::new();
    let r = parse_object_entry("speed", &entry, &mut out);
    assert!(matches!(r, Err(Error::InvalidType(_))));
    assert!(out.is_empty());
}

#[test]
fn object_entry_non_string_type_fails() {
    let entry = map(vec![pair("type", DocValue::Int(7))]);
    let mut out: Vec<BuilderCall> = Vec::new();
    let r = parse_object_entry("speed", &entry, &mut out);
    assert!(matches!(r, Err(Error::InvalidType(_))));
    assert!(out.is_empty());
}

#[test]
fn object_entry_not_a_mapping_fails() {
    let mut out: Vec<BuilderCall> = Vec::new();
    let r = parse_object_entry("speed", &s("float32"), &mut out);
    assert!(matches!(r, Err(Error::InvalidType(_))));
    assert!(out.is_empty());
}

#[test]
fn access_levels_case_insensitive() {
    assert_eq!(access_of("const"), Some(Access::Const));
    assert_eq!(access_of("CONST"), Some(Access::Const));
    assert_eq!(access_of("LoCaL"), Some(Access::Local));
    assert_eq!(access_of("Global"), Some(Access::Global));
    assert_eq!(access_of("GLOBAL"), Some(Access::Global));
}

#[test]
fn access_unrecognized_selects_none() {
    assert_eq!(access_of("private"), None);
    assert_eq!(access_of("constant"), None);
    assert_eq!(access_of(""), None);
    assert_eq!(access_of("glob"), None);
}

#[test]
fn access_unrecognized_accepted_without_call() {
    let entry = map(vec![pair("type", s("u8")), pair("access", s("whatever"))]);
    let mut out: Vec<BuilderCall> = Vec::new();
    let r = parse_object_entry("mode", &entry, &mut out);
    assert!(r.is_ok());
    assert_eq!(
        out,
        vec![BuilderCall::CreateObjectEntry("mode".to_string(), "u8".to_string())]
    );
}

#[test]
fn struct_type_attribute_order() {
    let point = map(vec![pair("x", s("float32")), pair("y", s("float32"))]);
    let mut out: Vec<BuilderCall> = Vec::new();
    let r = parse_struct_type(&point, &mut out);
    assert!(r.is_ok());
    assert_eq!(
        out,
        vec![
            BuilderCall::AddStructAttribute("x".to_string(), "float32".to_string()),
            BuilderCall::AddStructAttribute("y".to_string(), "float32".to_string()),
        ]
    );
}

#[test]
fn struct_type_non_string_attribute_fails() {
    let bad = map(vec![pair("x", DocValue::Int(1))]);
    let mut out: Vec<BuilderCall> = Vec::new();
    let r = parse_struct_type(&bad, &mut out);
    assert!(matches!(r, Err(Error::InvalidType(_))));
    assert!(out.is_empty());
}

#[test]
fn enum_type_explicit_null_and_explicit_values() {
    let color = map(vec![
        pair("Red", DocValue::Int(0)),
        pair("Green", DocValue::Null),
        pair("Blue", DocValue::Int(2)),
    ]);
    let mut out: Vec<BuilderCall> = Vec::new();
    let r = parse_enum_type(&color, &mut out);
    assert!(r.is_ok());
    assert_eq!(
        out,
        vec![
            BuilderCall::AddEnumVariant("Red".to_string(), Some(0)),
            BuilderCall::AddEnumVariant("Green".to_string(), None),
            BuilderCall::AddEnumVariant("Blue".to_string(), Some(2)),
        ]
    );
}

#[test]
fn enum_type_negative_value_fails() {
    let bad = map(vec![pair("Red", DocValue::Int(-1))]);
    let mut out: Vec<BuilderCall> = Vec::new();
    let r = parse_enum_type(&bad, &mut out);
    assert!(matches!(r, Err(Error::InvalidType(_))));
    assert!(out.is_empty());
}

#[test]
fn enum_type_string_value_fails() {
    let bad = map(vec![pair("Red", s("0"))]);
    let mut out: Vec<BuilderCall> = Vec::new();
    let r = parse_enum_type(&bad, &mut out);
    assert!(matches!(r, Err(Error::InvalidType(_))));
}

#[test]
fn enum_type_stops_at_first_bad_variant() {
    let bad = map(vec![
        pair("Ok", DocValue::Int(1)),
        pair("Bad", DocValue::Int(-5)),
        pair("Never", DocValue::Int(2)),
    ]);
    let mut out: Vec<BuilderCall> = Vec::new();
    let r = parse_enum_type(&bad, &mut out);
    assert!(matches!(r, Err(Error::InvalidType(_))));
    assert_eq!(
        out,
        vec![BuilderCall::AddEnumVariant("Ok".to_string(), Some(1))]
    );
}

#[test]
fn bus_missing_baudrate_emits_nothing() {
    let bus = map(vec![]);
    let mut out: Vec<BuilderCall> = Vec::new();
    let r = parse_bus(&bus, &mut out);
    assert!(r.is_ok());
    assert!(out.is_empty());
}

#[test]
fn bus_integer_baudrate_emits_one_call() {
    let bus = map(vec![pair("baudrate", DocValue::Int(500000))]);
    let mut out: Vec<BuilderCall> = Vec::new();
    let r = parse_bus(&bus, &mut out);
    assert!(r.is_ok());
    assert_eq!(out, vec![BuilderCall::SetBusBaudrate(500000)]);
}

#[test]
fn bus_malformed_baudrate_is_an_error_not_an_abort() {
    let bus = map(vec![pair("baudrate", s("fast"))]);
    let mut out: Vec<BuilderCall> = Vec::new();
    let r = parse_bus(&bus, &mut out);
    assert!(matches!(r, Err(Error::InvalidType(_))));
    assert!(out.is_empty());
}

#[test]
fn bus_negative_baudrate_fails() {
    let bus = map(vec![pair("baudrate", DocValue::Int(-9600))]);
    let mut out: Vec<BuilderCall> = Vec::new();
    let r = parse_bus(&bus, &mut out);
    assert!(matches!(r, Err(Error::InvalidType(_))));
}

#[test]
fn tx_stream_mapping_keeps_wire_order() {
    let stream = map(vec![
        pair("description", s("status frame")),
        pair("mapping", DocValue::Sequence(vec![s("a"), s("b"), s("c")])),
    ]);
    let mut out: Vec<BuilderCall> = Vec::new();
    let r = parse_tx_stream("status", &stream, &mut out);
    assert!(r.is_ok());
    assert_eq!(
        out,
        vec![
            BuilderCall::CreateStream("status".to_string()),
            BuilderCall::SetStreamDescription("status frame".to_string()),
            BuilderCall::AddStreamEntry("a".to_string()),
            BuilderCall::AddStreamEntry("b".to_string()),
            BuilderCall::AddStreamEntry("c".to_string()),
        ]
    );
}

#[test]
fn tx_stream_is_created_before_body_is_checked() {
    let mut out: Vec<BuilderCall> = Vec::new();
    let r = parse_tx_stream("status", &s("oops"), &mut out);
    assert!(matches!(r, Err(Error::InvalidType(_))));
    assert_eq!(out, vec![BuilderCall::CreateStream("status".to_string())]);
}

#[test]
fn tx_stream_non_string_entry_fails() {
    let stream = map(vec![pair(
        "mapping",
        DocValue::Sequence(vec![s("a"), DocValue::Int(3)]),
    )]);
    let mut out: Vec<BuilderCall> = Vec::new();
    let r = parse_tx_stream("status", &stream, &mut out);
    assert!(matches!(r, Err(Error::InvalidType(_))));
    assert_eq!(
        out,
        vec![
            BuilderCall::CreateStream("status".to_string()),
            BuilderCall::AddStreamEntry("a".to_string()),
        ]
    );
}

#[test]
fn rx_stream_field_mapping() {
    let body = map(vec![pair("tx_field", s("rx_field"))]);
    let mut out: Vec<BuilderCall> = Vec::new();
    let r = parse_rx_stream("SenderNode", "status", &body, &mut out);
    assert!(r.is_ok());
    assert_eq!(
        out,
        vec![
            BuilderCall::ReceiveStream("SenderNode".to_string(), "status".to_string()),
            BuilderCall::MapStreamField("tx_field".to_string(), "rx_field".to_string()),
        ]
    );
}

#[test]
fn rx_stream_non_string_field_fails() {
    let body = map(vec![(DocValue::Int(1), s("rx_field"))]);
    let mut out: Vec<BuilderCall> = Vec::new();
    let r = parse_rx_stream("SenderNode", "status", &body, &mut out);
    assert!(matches!(r, Err(Error::InvalidType(_))));
}

#[test]
fn command_arguments_then_callees() {
    let cmd = map(vec![
        pair(
            "arguments",
            DocValue::Sequence(vec![map(vec![pair("speed", s("float32"))])]),
        ),
        pair("callee", DocValue::Sequence(vec![s("Motor")])),
    ]);
    let mut out: Vec<BuilderCall> = Vec::new();
    let r = parse_tx_command("drive", &cmd, &mut out);
    assert!(r.is_ok());
    assert_eq!(
        out,
        vec![
            BuilderCall::CreateCommand("drive".to_string()),
            BuilderCall::AddCommandArgument("speed".to_string(), "float32".to_string()),
            BuilderCall::AddCommandCallee("Motor".to_string()),
        ]
    );
}

#[test]
fn command_argument_with_two_keys_fails() {
    let cmd = map(vec![pair(
        "arguments",
        DocValue::Sequence(vec![map(vec![
            pair("speed", s("float32")),
            pair("angle", s("float32")),
        ])]),
    )]);
    let mut out: Vec<BuilderCall> = Vec::new();
    let r = parse_tx_command("drive", &cmd, &mut out);
    assert!(matches!(r, Err(Error::InvalidType(_))));
    assert_eq!(out, vec![BuilderCall::CreateCommand("drive".to_string())]);
}

#[test]
fn command_is_created_before_body_is_checked() {
    let mut out: Vec<BuilderCall> = Vec::new();
    let r = parse_tx_command("drive", &DocValue::Int(1), &mut out);
    assert!(matches!(r, Err(Error::InvalidType(_))));
    assert_eq!(out, vec![BuilderCall::CreateCommand("drive".to_string())]);
}

#[test]
fn node_rx_streams_registration() {
    let node = map(vec![pair(
        "rx_streams",
        map(vec![pair(
            "SenderNode",
            map(vec![pair("status", map(vec![pair("tx_field", s("rx_field"))]))]),
        )]),
    )]);
    let mut out: Vec<BuilderCall> = Vec::new();
    let r = parse_node("Receiver", &node, &mut out);
    assert!(r.is_ok());
    assert_eq!(
        out,
        vec![
            BuilderCall::CreateNode("Receiver".to_string()),
            BuilderCall::ReceiveStream("SenderNode".to_string(), "status".to_string()),
            BuilderCall::MapStreamField("tx_field".to_string(), "rx_field".to_string()),
        ]
    );
}

#[test]
fn empty_node_is_legal() {
    let mut out: Vec<BuilderCall> = Vec::new();
    let r = parse_node("Idle", &map(vec![]), &mut out);
    assert!(r.is_ok());
    assert_eq!(out, vec![BuilderCall::CreateNode("Idle".to_string())]);
}

#[test]
fn node_sections_in_fixed_order() {
    let node = map(vec![
        pair("commands", map(vec![pair("go", map(vec![]))])),
        pair("description", s("main controller")),
        pair(
            "tx_streams",
            map(vec![pair("status", map(vec![]))]),
        ),
        pair(
            "object_dictionary",
            map(vec![pair("speed", map(vec![pair("type", s("float32"))]))]),
        ),
    ]);
    let mut out: Vec<BuilderCall> = Vec::new();
    let r = parse_node("Main", &node, &mut out);
    assert!(r.is_ok());
    assert_eq!(
        out,
        vec![
            BuilderCall::CreateNode("Main".to_string()),
            BuilderCall::SetNodeDescription("main controller".to_string()),
            BuilderCall::CreateObjectEntry("speed".to_string(), "float32".to_string()),
            BuilderCall::CreateStream("status".to_string()),
            BuilderCall::CreateCommand("go".to_string()),
        ]
    );
}

#[test]
fn top_level_requires_all_four_sections() {
    let doc = map(vec![
        pair("nodes", map(vec![])),
        pair("struct_types", map(vec![])),
        pair("enum_types", map(vec![])),
    ]);
    let mut out: Vec<BuilderCall> = Vec::new();
    let r = parse_top_level(&doc, &mut out);
    assert!(matches!(r, Err(Error::InvalidType(_))));
}

#[test]
fn top_level_root_must_be_a_mapping() {
    let mut out: Vec<BuilderCall> = Vec::new();
    let r = parse_top_level(&s("not a document"), &mut out);
    assert!(matches!(r, Err(Error::InvalidFormat(_))));
    assert!(out.is_empty());
}

#[test]
fn top_level_full_document_in_order() {
    let doc = map(vec![
        pair("buses", map(vec![pair("can0", map(vec![pair("baudrate", DocValue::Int(250000))]))])),
        pair("nodes", map(vec![pair("Main", map(vec![]))])),
        pair(
            "struct_types",
            map(vec![pair("Point", map(vec![pair("x", s("float32")), pair("y", s("float32"))]))]),
        ),
        pair("enum_types", map(vec![pair("Color", map(vec![pair("Red", DocValue::Int(0))]))])),
    ]);
    let r = parse_network(&doc);
    let calls = r.expect("a well-formed document parses");
    assert_eq!(
        calls,
        vec![
            BuilderCall::CreateNode("Main".to_string()),
            BuilderCall::DefineStruct("Point".to_string()),
            BuilderCall::AddStructAttribute("x".to_string(), "float32".to_string()),
            BuilderCall::AddStructAttribute("y".to_string(), "float32".to_string()),
            BuilderCall::DefineEnum("Color".to_string()),
            BuilderCall::AddEnumVariant("Red".to_string(), Some(0)),
            BuilderCall::CreateBus("can0".to_string()),
            BuilderCall::SetBusBaudrate(250000),
        ]
    );
}

#[test]
fn error_carries_a_message() {
    let mut out: Vec<BuilderCall> = Vec::new();
    let r = parse_bus(&s("nope"), &mut out);
    match r {
        Err(e) => assert!(!e.message().is_empty()),
        Ok(_) => panic!("a non-mapping bus must be rejected"),
    }
}
