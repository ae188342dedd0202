use seaf_loop::digest_rewrite::JsonValue;
use seaf_loop::schema_upgrade::{
    migrate_development_policy_decision, migrate_run_policy_decisions, schema_state, upgrade_schema,
    SchemaState,
};

fn text(value: &str) -> JsonValue {
    JsonValue::Text(value.to_string())
}

fn number(value: &str) -> JsonValue {
    JsonValue::Number(value.to_string())
}

fn object(members: Vec<(&str, JsonValue)>) -> JsonValue {
    JsonValue::Object(members.into_iter().map(|(k, v)| (k.to_string(), v)).collect())
}

#[test]
fn object_without_schema_version_is_legacy() {
    let value = object(vec![("run_id", text("r1"))]);
    assert_eq!(schema_state(&value, "LoopRun").unwrap(), SchemaState::Legacy);
}

#[test]
fn object_with_schema_version_one_is_current() {
    let value = object(vec![("run_id", text("r1")), ("schema_version", number("1"))]);
    assert_eq!(schema_state(&value, "LoopRun").unwrap(), SchemaState::Current);
}

#[test]
fn other_schema_version_number_is_unsupported() {
    let value = object(vec![("schema_version", number("2"))]);
    let error = schema_state(&value, "LoopRun").unwrap_err();
    assert_eq!(
        error.message,
        "unsupported LoopRun schema_version 2; only missing legacy v0 or current v1 can be migrated"
    );
}

#[test]
fn textual_schema_version_is_invalid() {
    let value = object(vec![("schema_version", text("1"))]);
    let error = schema_state(&value, "PolicyDecision").unwrap_err();
    assert_eq!(
        error.message,
        "invalid PolicyDecision schema_version; expected integer 1 or an omitted legacy version"
    );
}

#[test]
fn non_object_artifact_is_refused() {
    let error = schema_state(&JsonValue::Array(vec![]), "LoopRun").unwrap_err();
    assert_eq!(error.message, "LoopRun must be a JSON object");
}

#[test]
fn upgrade_inserts_schema_version_in_key_order() {
    let value = object(vec![("alpha", text("a")), ("status", text("completed")), ("zeta", JsonValue::Null)]);
    let upgraded = upgrade_schema(&value, "LoopRun").unwrap();
    let expected = object(vec![
        ("alpha", text("a")),
        ("schema_version", number("1")),
        ("status", text("completed")),
        ("zeta", JsonValue::Null),
    ]);
    assert_eq!(upgraded, expected);
}

#[test]
fn upgrade_of_a_current_artifact_changes_nothing() {
    let value = object(vec![("schema_version", number("1")), ("zeta", JsonValue::Bool(true))]);
    assert_eq!(upgrade_schema(&value, "LoopRun").unwrap(), value);
}

#[test]
fn upgrade_refuses_an_unsupported_version() {
    let value = object(vec![("schema_version", number("7"))]);
    let error = upgrade_schema(&value, "Development").unwrap_err();
    assert_eq!(
        error.message,
        "unsupported Development schema_version 7; only missing legacy v0 or current v1 can be migrated"
    );
}

#[test]
fn run_policy_decisions_are_each_upgraded() {
    let run = object(vec![
        ("policy_decisions", JsonValue::Array(vec![
            object(vec![("decision", text("allow"))]),
            object(vec![("decision", text("deny")), ("schema_version", number("1"))]),
        ])),
        ("run_id", text("r1")),
    ]);
    let migrated = migrate_run_policy_decisions(&run).unwrap();
    let expected = object(vec![
        ("policy_decisions", JsonValue::Array(vec![
            object(vec![("decision", text("allow")), ("schema_version", number("1"))]),
            object(vec![("decision", text("deny")), ("schema_version", number("1"))]),
        ])),
        ("run_id", text("r1")),
    ]);
    assert_eq!(migrated, expected);
}

#[test]
fn run_without_policy_decision_array_is_refused() {
    let missing = object(vec![("run_id", text("r1"))]);
    assert_eq!(
        migrate_run_policy_decisions(&missing).unwrap_err().message,
        "LoopRun policy_decisions must be an array"
    );
    let not_array = object(vec![("policy_decisions", text("none"))]);
    assert_eq!(
        migrate_run_policy_decisions(&not_array).unwrap_err().message,
        "LoopRun policy_decisions must be an array"
    );
}

#[test]
fn run_policy_decision_refusal_names_the_embedded_kind() {
    let run = object(vec![(
        "policy_decisions",
        JsonValue::Array(vec![object(vec![]), object(vec![("schema_version", number("3"))])]),
    )]);
    assert_eq!(
        migrate_run_policy_decisions(&run).unwrap_err().message,
        "unsupported embedded LoopRun PolicyDecision schema_version 3; only missing legacy v0 or current v1 can be migrated"
    );
}

#[test]
fn development_policy_decision_is_upgraded() {
    let evidence = object(vec![
        ("policy_decision", object(vec![("decision", text("allow"))])),
        ("step", number("2")),
    ]);
    let migrated = migrate_development_policy_decision(&evidence).unwrap();
    let expected = object(vec![
        ("policy_decision", object(vec![("decision", text("allow")), ("schema_version", number("1"))])),
        ("step", number("2")),
    ]);
    assert_eq!(migrated, expected);
}

#[test]
fn development_without_policy_decision_is_refused() {
    let evidence = object(vec![("step", number("2"))]);
    assert_eq!(
        migrate_development_policy_decision(&evidence).unwrap_err().message,
        "managed Development evidence has no policy_decision"
    );
    let embedded_scalar = object(vec![("policy_decision", text("allow"))]);
    assert_eq!(
        migrate_development_policy_decision(&embedded_scalar).unwrap_err().message,
        "embedded Development PolicyDecision must be a JSON object"
    );
}

#[test]
fn upgrading_twice_is_upgrading_once() {
    let value = object(vec![("alpha", text("a")), ("zeta", JsonValue::Array(vec![number("2")]))]);
    let once = upgrade_schema(&value, "LoopRun").unwrap();
    let twice = upgrade_schema(&once, "LoopRun").unwrap();
    assert_eq!(once, twice);
    assert_eq!(schema_state(&once, "LoopRun").unwrap(), SchemaState::Current);
}
