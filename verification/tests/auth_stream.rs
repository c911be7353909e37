use flagforge::auth::classify_auth_header;
use flagforge::auth::generate_sdk_key;
use flagforge::auth::hash_key;
use flagforge::auth::principal_allowed;
use flagforge::auth::AuthClass;
use flagforge::auth::PrincipalKind;
use flagforge::auth::RouteClass;
use flagforge::config::Config;
use flagforge::evaluator::Evaluator;
use flagforge::json::JsonVal;
use flagforge::snapshot::build_flags_config;
use flagforge::snapshot::select_default_variant;
use flagforge::snapshot::ConstraintSource;
use flagforge::snapshot::FlagEnvironmentSource;
use flagforge::snapshot::FlagSource;
use flagforge::snapshot::SegmentSource;
use flagforge::stream::change_event_from_json;
use flagforge::stream::change_event_to_json;
use flagforge::stream::stream_transition;
use flagforge::stream::ConfigChangeEvent;
use flagforge::stream::StreamAction;
use flagforge::stream::StreamEvent;
use flagforge::types::parse_operator;
use flagforge::types::EvaluationContext;
use flagforge::types::EvaluationReason;
use flagforge::types::FlagConfig;
use flagforge::types::FlagEnvironment;
use flagforge::types::FlagsConfig;
use flagforge::types::FlagType;
use flagforge::types::MatchType;
use flagforge::types::Operator;
use flagforge::types::Variant;
use sha2::Digest;

#[test]
fn test_classify_auth_header() {
    match classify_auth_header("Bearer abc.def.ghi") {
        AuthClass::Bearer(token) => assert_eq!(token, "abc.def.ghi"),
        _ => panic!("expected a bearer classification"),
    }
    assert!(matches!(classify_auth_header("srv_0123abcd"), AuthClass::SdkKey));
    assert!(matches!(classify_auth_header("cli_0123abcd"), AuthClass::SdkKey));
    assert!(matches!(classify_auth_header("Basic dXNlcg=="), AuthClass::Invalid));
    assert!(matches!(classify_auth_header(""), AuthClass::Invalid));
    assert!(matches!(classify_auth_header("srv"), AuthClass::Invalid));
}

#[test]
fn test_hash_key_matches_sha256() {
    // Known answer: SHA-256 of the empty string.
    assert_eq!(
        hash_key(""),
        "e3b0c44298fc1c149afbf4c8996fb92427ae41e4649b934ca495991b7852b855"
    );
    // Against an independent computation.
    let mut h = sha2::Sha256::new();
    h.update("srv_test".as_bytes());
    assert_eq!(hash_key("srv_test"), hex::encode(h.finalize()));
}

#[test]
fn test_generate_sdk_key_shape() {
    let (full, hash, prefix) = generate_sdk_key("srv_");
    assert_eq!(full.len(), 4 + 64);
    assert!(full.starts_with("srv_"));
    assert!(full[4..].chars().all(|c| c.is_ascii_hexdigit()));
    assert_eq!(prefix, full[..12]);
    assert_eq!(hash, hash_key(&full));
    // Two generations never collide in practice.
    let (full2, _, _) = generate_sdk_key("srv_");
    assert_ne!(full, full2);
}

#[test]
fn test_principal_allowed() {
    assert!(principal_allowed(RouteClass::Management, PrincipalKind::User));
    assert!(principal_allowed(RouteClass::Management, PrincipalKind::SdkCredential));
    assert!(principal_allowed(RouteClass::Evaluation, PrincipalKind::SdkCredential));
    assert!(!principal_allowed(RouteClass::Evaluation, PrincipalKind::User));
    assert!(principal_allowed(RouteClass::Public, PrincipalKind::User));
}

#[test]
fn test_stream_transition() {
    let event = StreamEvent::Change(ConfigChangeEvent {
        environment_id: 7,
        version: 3,
    });
    assert_eq!(stream_transition(7, &event), StreamAction::SendSnapshot);
    assert_eq!(stream_transition(8, &event), StreamAction::Ignore);
    assert_eq!(stream_transition(7, &StreamEvent::Lagged(12)), StreamAction::SendSnapshot);
    assert_eq!(stream_transition(7, &StreamEvent::Closed), StreamAction::Terminate);
}

#[test]
fn test_change_event_payload_round_trip() {
    let env_text = "0f0e0d0c-0b0a-0908-0706-050403020100";
    let payload = change_event_to_json(env_text, 8);
    assert_eq!(
        change_event_from_json(&payload),
        Some((env_text.to_string(), 8))
    );
    assert_eq!(change_event_from_json(&JsonVal::Null), None);
}

#[test]
fn test_change_event_wire_text() {
    // The payload rendered through serde matches the cross-process wire
    // shape exactly.
    let payload = change_event_to_json("0f0e0d0c-0b0a-0908-0706-050403020100", 7);
    let value = wire_value(&payload);
    assert_eq!(
        serde_json::to_string(&value).unwrap(),
        "{\"environment_id\":\"0f0e0d0c-0b0a-0908-0706-050403020100\",\"version\":7}"
    );
}

fn wire_value(v: &JsonVal) -> serde_json::Value {
    match v {
        JsonVal::Null => serde_json::Value::Null,
        JsonVal::Bool(b) => serde_json::Value::Bool(*b),
        JsonVal::Num(s) => serde_json::Value::Number(s.parse().unwrap()),
        JsonVal::Str(s) => serde_json::Value::String(s.clone()),
        JsonVal::Arr(items) => serde_json::Value::Array(items.iter().map(wire_value).collect()),
        JsonVal::Obj(fields) => serde_json::Value::Object(
            fields.iter().map(|(k, v)| (k.clone(), wire_value(v))).collect(),
        ),
    }
}

#[test]
fn test_config_addr() {
    let config = Config {
        host: "0.0.0.0".to_string(),
        port: 8080,
        database_url: "postgres://localhost/flags".to_string(),
        redis_url: "redis://127.0.0.1:6379".to_string(),
        idp_domain: "auth.example.com".to_string(),
        log_level: "info".to_string(),
    };
    assert_eq!(config.addr(), "0.0.0.0:8080");
}

#[test]
fn test_build_flags_config_assembly() {
    let flags = vec![
        FlagSource {
            key: "with-env".to_string(),
            flag_type: "string".to_string(),
            variants: vec![Variant {
                id: 5,
                key: "only".to_string(),
                value: JsonVal::Str("x".to_string()),
                description: None,
            }],
            environment: Some(FlagEnvironmentSource {
                enabled: true,
                default_variant_id: None,
                rules: vec![],
                overrides: vec![],
            }),
        },
        FlagSource {
            key: "without-env".to_string(),
            flag_type: "boolean".to_string(),
            variants: vec![],
            environment: None,
        },
    ];
    let segments = vec![SegmentSource {
        id: 9,
        key: "seg".to_string(),
        name: "Seg".to_string(),
        match_type: "any".to_string(),
        constraints: vec![ConstraintSource {
            attribute: "plan".to_string(),
            operator: "not_in".to_string(),
            values: vec!["free".to_string()],
        }],
    }];

    let config = build_flags_config(flags, segments, None);
    assert_eq!(config.version, 1);
    // The flag without an environment row is omitted.
    assert_eq!(config.flags.len(), 1);
    let flag = &config.flags[0];
    assert_eq!(flag.key, "with-env");
    assert_eq!(flag.flag_type, FlagType::Text);
    // A missing default variant reference falls back to the first variant.
    assert_eq!(flag.environment.default_variant_id, 5);
    // Stored enum names are coerced.
    assert_eq!(config.segments[0].match_type, MatchType::Any);
    assert_eq!(config.segments[0].constraints[0].operator, Operator::NotIn);
}

#[test]
fn test_build_flags_config_dangling_default_substituted() {
    // A stored default variant id that resolves to no variant is replaced
    // by the first variant's id.
    let flags = vec![FlagSource {
        key: "dangling".to_string(),
        flag_type: "boolean".to_string(),
        variants: vec![
            Variant {
                id: 7,
                key: "first".to_string(),
                value: JsonVal::Bool(true),
                description: None,
            },
            Variant {
                id: 8,
                key: "second".to_string(),
                value: JsonVal::Bool(false),
                description: None,
            },
        ],
        environment: Some(FlagEnvironmentSource {
            enabled: true,
            default_variant_id: Some(999),
            rules: vec![],
            overrides: vec![],
        }),
    }];
    let config = build_flags_config(flags, vec![], None);
    assert_eq!(config.flags[0].environment.default_variant_id, 7);
}

#[test]
fn test_build_flags_config_version_passthrough() {
    let config = build_flags_config(vec![], vec![], Some(17));
    assert_eq!(config.version, 17);
    assert!(config.flags.is_empty());
}

#[test]
fn test_parse_operator_unknown_coerces_to_eq() {
    assert_eq!(parse_operator("semver_gt"), Operator::SemverGt);
    assert_eq!(parse_operator("starts_with"), Operator::StartsWith);
    assert_eq!(parse_operator("no-such-op"), Operator::Eq);
}

#[test]
fn test_select_default_variant() {
    let variants = vec![
        Variant {
            id: 1,
            key: "on".to_string(),
            value: JsonVal::Bool(true),
            description: None,
        },
        Variant {
            id: 2,
            key: "off".to_string(),
            value: JsonVal::Bool(false),
            description: None,
        },
    ];
    assert_eq!(select_default_variant(&variants, "off"), Some(2));
    assert_eq!(select_default_variant(&variants, "on"), Some(1));
    assert_eq!(select_default_variant(&variants, "nope"), None);
}

#[test]
fn test_fresh_flag_visible_exactly_once() {
    let existing = FlagConfig {
        key: "old-flag".to_string(),
        flag_type: FlagType::Boolean,
        variants: vec![],
        environment: FlagEnvironment {
            enabled: false,
            default_variant_id: 0,
            rules: vec![],
            overrides: vec![],
        },
    };
    let fresh = FlagConfig {
        key: "fresh-flag".to_string(),
        flag_type: FlagType::Boolean,
        variants: vec![Variant {
            id: 1,
            key: "on".to_string(),
            value: JsonVal::Bool(true),
            description: None,
        }],
        environment: FlagEnvironment {
            enabled: true,
            default_variant_id: 1,
            rules: vec![],
            overrides: vec![],
        },
    };
    let config = FlagsConfig {
        flags: vec![existing, fresh],
        segments: vec![],
        version: 2,
    };
    // The listing holds the new key exactly once.
    let count = config.flags.iter().filter(|f| f.key == "fresh-flag").count();
    assert_eq!(count, 1);
    // Reading the flag back echoes its fields.
    let evaluator = Evaluator::new(config);
    let result = evaluator.evaluate("fresh-flag", &EvaluationContext::default(), &JsonVal::Null);
    assert_eq!(result.flag_key, "fresh-flag");
    assert_eq!(result.variant_key, "on");
    assert_eq!(result.value, JsonVal::Bool(true));
    assert_eq!(result.reason, EvaluationReason::Default);
}
