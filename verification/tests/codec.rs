use flagforge::codec::from_json;
use flagforge::codec::i64_to_string;
use flagforge::codec::parse_i64;
use flagforge::codec::parse_u128;
use flagforge::codec::to_json;
use flagforge::codec::u128_to_string;
use flagforge::json::JsonVal;
use flagforge::types::FlagConfig;
use flagforge::types::FlagEnvironment;
use flagforge::types::FlagOverride;
use flagforge::types::FlagType;
use flagforge::types::FlagsConfig;
use flagforge::types::MatchType;
use flagforge::types::Operator;
use flagforge::types::RuleDistribution;
use flagforge::types::RuleSegment;
use flagforge::types::Segment;
use flagforge::types::SegmentConstraint;
use flagforge::types::TargetingRule;
use flagforge::types::Variant;

fn sample_config() -> FlagsConfig {
    FlagsConfig {
        flags: vec![FlagConfig {
            key: "checkout".to_string(),
            flag_type: FlagType::Text,
            variants: vec![
                Variant {
                    id: 11,
                    key: "a".to_string(),
                    value: JsonVal::Str("alpha".to_string()),
                    description: Some("first".to_string()),
                },
                Variant {
                    id: 12,
                    key: "b".to_string(),
                    value: JsonVal::Obj(vec![(
                        "nested".to_string(),
                        JsonVal::Arr(vec![JsonVal::Num("1".to_string()), JsonVal::Null]),
                    )]),
                    description: None,
                },
            ],
            environment: FlagEnvironment {
                enabled: true,
                default_variant_id: 11,
                rules: vec![TargetingRule {
                    id: 21,
                    rank: -3,
                    description: None,
                    segments: vec![RuleSegment {
                        segment_id: 31,
                        negate: true,
                    }],
                    distributions: vec![
                        RuleDistribution {
                            variant_id: 11,
                            rollout_pct: 2500,
                        },
                        RuleDistribution {
                            variant_id: 12,
                            rollout_pct: 7500,
                        },
                    ],
                    variant_id: None,
                }],
                overrides: vec![FlagOverride {
                    targeting_key: "user-123".to_string(),
                    variant_id: 12,
                }],
            },
        }],
        segments: vec![Segment {
            id: 31,
            key: "beta".to_string(),
            name: "Beta".to_string(),
            match_type: MatchType::Any,
            constraints: vec![SegmentConstraint {
                attribute: "beta".to_string(),
                operator: Operator::SemverGt,
                values: vec!["1.0.0".to_string(), "2.0.0".to_string()],
            }],
        }],
        version: 42,
    }
}

#[test]
fn test_config_json_round_trip() {
    let config = sample_config();
    let encoded = to_json(&config);
    let decoded = from_json(&encoded).expect("encoded config must decode");
    assert_eq!(decoded, config);
}

#[test]
fn test_empty_config_round_trip() {
    let config = FlagsConfig {
        flags: vec![],
        segments: vec![],
        version: 1,
    };
    let decoded = from_json(&to_json(&config)).expect("empty config must decode");
    assert_eq!(decoded, config);
}

#[test]
fn test_from_json_rejects_wrong_shape() {
    assert!(from_json(&JsonVal::Null).is_none());
    assert!(from_json(&JsonVal::Arr(vec![])).is_none());
    assert!(from_json(&JsonVal::Obj(vec![])).is_none());
}

#[test]
fn test_number_text_round_trip() {
    assert_eq!(u128_to_string(0), "0");
    assert_eq!(u128_to_string(10000), "10000");
    assert_eq!(u128_to_string(u128::MAX), u128::MAX.to_string());
    assert_eq!(parse_u128("0"), Some(0));
    assert_eq!(parse_u128("340282366920938463463374607431768211455"), Some(u128::MAX));
    assert_eq!(parse_u128("340282366920938463463374607431768211456"), None);
    assert_eq!(parse_u128(""), None);
    assert_eq!(parse_u128("12a"), None);

    assert_eq!(i64_to_string(0), "0");
    assert_eq!(i64_to_string(-1), "-1");
    assert_eq!(i64_to_string(i64::MIN), i64::MIN.to_string());
    assert_eq!(parse_i64("-9223372036854775808"), Some(i64::MIN));
    assert_eq!(parse_i64("9223372036854775807"), Some(i64::MAX));
    assert_eq!(parse_i64("9223372036854775808"), None);
    assert_eq!(parse_i64("-"), None);
}
