use flagforge::evaluator::Evaluator;
use flagforge::json::JsonVal;
use flagforge::types::EvaluationContext;
use flagforge::types::EvaluationReason;
use flagforge::types::FlagConfig;
use flagforge::types::FlagEnvironment;
use flagforge::types::FlagOverride;
use flagforge::types::FlagType;
use flagforge::types::FlagsConfig;
use flagforge::types::MatchType;
use flagforge::types::Operator;
use flagforge::types::RuleDistribution;
use flagforge::types::RuleSegment;
use flagforge::types::Segment;
use flagforge::types::SegmentConstraint;
use flagforge::types::TargetingRule;
use flagforge::types::Variant;

fn jbool(b: bool) -> JsonVal {
    JsonVal::Bool(b)
}

fn jstr(s: &str) -> JsonVal {
    JsonVal::Str(s.to_string())
}

fn make_variant(id: u128, key: &str, value: JsonVal) -> Variant {
    Variant {
        id,
        key: key.to_string(),
        value,
        description: None,
    }
}

fn make_simple_flag(key: &str, enabled: bool) -> (FlagConfig, u128, u128) {
    let on_variant = make_variant(1, "on", jbool(true));
    let off_variant = make_variant(2, "off", jbool(false));
    let on_id = on_variant.id;
    let off_id = off_variant.id;
    let default_id = if enabled { on_id } else { off_id };

    let config = FlagConfig {
        key: key.to_string(),
        flag_type: FlagType::Boolean,
        variants: vec![on_variant, off_variant],
        environment: FlagEnvironment {
            enabled,
            default_variant_id: default_id,
            rules: vec![],
            overrides: vec![],
        },
    };

    (config, on_id, off_id)
}

fn make_evaluator(flags: Vec<FlagConfig>, segments: Vec<Segment>) -> Evaluator {
    Evaluator::new(FlagsConfig {
        flags,
        segments,
        version: 1,
    })
}

fn ctx_with_key(targeting_key: &str) -> EvaluationContext {
    EvaluationContext {
        targeting_key: Some(targeting_key.to_string()),
        attributes: vec![],
    }
}

fn ctx_with_attr(targeting_key: &str, name: &str, value: JsonVal) -> EvaluationContext {
    EvaluationContext {
        targeting_key: Some(targeting_key.to_string()),
        attributes: vec![(name.to_string(), value)],
    }
}

#[test]
fn test_flag_not_found() {
    let evaluator = Evaluator::empty();
    let result = evaluator.evaluate("nonexistent", &EvaluationContext::default(), &jbool(false));
    assert_eq!(result.reason, EvaluationReason::FlagNotFound);
    assert_eq!(result.value, jbool(false));
    assert_eq!(result.variant_key, "");
}

#[test]
fn test_disabled_flag() {
    let (flag, _, _) = make_simple_flag("my-flag", false);
    let evaluator = make_evaluator(vec![flag], vec![]);
    let result = evaluator.evaluate("my-flag", &EvaluationContext::default(), &jbool(true));
    assert_eq!(result.reason, EvaluationReason::Disabled);
    assert_eq!(result.value, jbool(false));
    assert_eq!(result.variant_key, "off");
}

#[test]
fn test_enabled_flag_default() {
    let (flag, _, _) = make_simple_flag("my-flag", true);
    let evaluator = make_evaluator(vec![flag], vec![]);
    let result = evaluator.evaluate("my-flag", &EvaluationContext::default(), &jbool(false));
    assert_eq!(result.reason, EvaluationReason::Default);
    assert_eq!(result.value, jbool(true));
}

#[test]
fn test_override() {
    let (mut flag, on_id, _off_id) = make_simple_flag("my-flag", true);
    flag.environment.default_variant_id = flag.variants[1].id; // default to off
    flag.environment.overrides.push(FlagOverride {
        targeting_key: "user-123".to_string(),
        variant_id: on_id,
    });

    let evaluator = make_evaluator(vec![flag], vec![]);

    let ctx = ctx_with_key("user-123");
    let result = evaluator.evaluate("my-flag", &ctx, &jbool(false));
    assert_eq!(result.reason, EvaluationReason::Override);
    assert_eq!(result.value, jbool(true));

    // Different user should get default
    let ctx2 = ctx_with_key("user-456");
    let result2 = evaluator.evaluate("my-flag", &ctx2, &jbool(false));
    assert_eq!(result2.reason, EvaluationReason::Default);
    assert_eq!(result2.value, jbool(false));
}

#[test]
fn test_rule_with_segment() {
    let on_variant = make_variant(1, "on", jbool(true));
    let off_variant = make_variant(2, "off", jbool(false));
    let on_id = on_variant.id;

    let segment = Segment {
        id: 100,
        key: "us-users".to_string(),
        name: "US Users".to_string(),
        match_type: MatchType::All,
        constraints: vec![SegmentConstraint {
            attribute: "country".to_string(),
            operator: Operator::Eq,
            values: vec!["US".to_string()],
        }],
    };

    let rule = TargetingRule {
        id: 200,
        rank: 1,
        description: Some("Target US users".to_string()),
        segments: vec![RuleSegment {
            segment_id: segment.id,
            negate: false,
        }],
        distributions: vec![],
        variant_id: Some(on_id),
    };

    let flag = FlagConfig {
        key: "us-feature".to_string(),
        flag_type: FlagType::Boolean,
        variants: vec![on_variant, off_variant.clone()],
        environment: FlagEnvironment {
            enabled: true,
            default_variant_id: off_variant.id,
            rules: vec![rule],
            overrides: vec![],
        },
    };

    let evaluator = make_evaluator(vec![flag], vec![segment]);

    // US user should match
    let ctx_us = ctx_with_attr("user-1", "country", jstr("US"));
    let result = evaluator.evaluate("us-feature", &ctx_us, &jbool(false));
    assert_eq!(result.reason, EvaluationReason::RuleMatch);
    assert_eq!(result.value, jbool(true));

    // UK user should get default
    let ctx_uk = ctx_with_attr("user-2", "country", jstr("UK"));
    let result = evaluator.evaluate("us-feature", &ctx_uk, &jbool(false));
    assert_eq!(result.reason, EvaluationReason::Default);
    assert_eq!(result.value, jbool(false));
}

#[test]
fn test_percentage_rollout() {
    let on_variant = make_variant(1, "on", jbool(true));
    let off_variant = make_variant(2, "off", jbool(false));
    let on_id = on_variant.id;
    let off_id = off_variant.id;

    let rule = TargetingRule {
        id: 200,
        rank: 1,
        description: Some("50/50 rollout".to_string()),
        segments: vec![], // catch-all
        distributions: vec![
            RuleDistribution {
                variant_id: on_id,
                rollout_pct: 5000, // 50%
            },
            RuleDistribution {
                variant_id: off_id,
                rollout_pct: 5000, // 50%
            },
        ],
        variant_id: None,
    };

    let flag = FlagConfig {
        key: "rollout-flag".to_string(),
        flag_type: FlagType::Boolean,
        variants: vec![on_variant, off_variant.clone()],
        environment: FlagEnvironment {
            enabled: true,
            default_variant_id: off_variant.id,
            rules: vec![rule],
            overrides: vec![],
        },
    };

    let evaluator = make_evaluator(vec![flag], vec![]);

    let mut on_count = 0;
    let total = 10_000;
    for i in 0..total {
        let ctx = ctx_with_key(&format!("user-{i}"));
        let result = evaluator.evaluate("rollout-flag", &ctx, &jbool(false));
        if result.value == jbool(true) {
            on_count += 1;
        }
        assert_eq!(result.reason, EvaluationReason::RuleMatch);
    }

    // Should be roughly 50% — allow 5% tolerance
    let pct = (on_count as f64 / total as f64) * 100.0;
    assert!((45.0..55.0).contains(&pct), "Expected ~50% on, got {pct:.1}%");
}

#[test]
fn test_rule_ordering() {
    let variant_a = make_variant(1, "a", jstr("alpha"));
    let variant_b = make_variant(2, "b", jstr("beta"));
    let variant_default = make_variant(3, "default", jstr("default"));

    let segment = Segment {
        id: 100,
        key: "everyone".to_string(),
        name: "Everyone".to_string(),
        match_type: MatchType::All,
        constraints: vec![], // matches everyone
    };

    // Rule with rank 2 (should be evaluated second)
    let rule2 = TargetingRule {
        id: 201,
        rank: 2,
        description: None,
        segments: vec![RuleSegment {
            segment_id: segment.id,
            negate: false,
        }],
        distributions: vec![],
        variant_id: Some(variant_b.id),
    };

    // Rule with rank 1 (should be evaluated first — wins)
    let rule1 = TargetingRule {
        id: 202,
        rank: 1,
        description: None,
        segments: vec![RuleSegment {
            segment_id: segment.id,
            negate: false,
        }],
        distributions: vec![],
        variant_id: Some(variant_a.id),
    };

    let flag = FlagConfig {
        key: "ordered-flag".to_string(),
        flag_type: FlagType::Text,
        variants: vec![variant_a, variant_b, variant_default.clone()],
        environment: FlagEnvironment {
            enabled: true,
            default_variant_id: variant_default.id,
            // Intentionally put rule2 before rule1 in vec — evaluator should sort by rank
            rules: vec![rule2, rule1],
            overrides: vec![],
        },
    };

    let evaluator = make_evaluator(vec![flag], vec![segment]);
    let result = evaluator.evaluate("ordered-flag", &EvaluationContext::default(), &jstr("default"));
    assert_eq!(result.reason, EvaluationReason::RuleMatch);
    assert_eq!(result.value, jstr("alpha")); // rule1 (rank 1) should win
}

#[test]
fn test_negated_segment() {
    let on_variant = make_variant(1, "on", jbool(true));
    let off_variant = make_variant(2, "off", jbool(false));
    let on_id = on_variant.id;

    let beta_segment = Segment {
        id: 100,
        key: "beta-users".to_string(),
        name: "Beta Users".to_string(),
        match_type: MatchType::All,
        constraints: vec![SegmentConstraint {
            attribute: "beta".to_string(),
            operator: Operator::Eq,
            values: vec!["true".to_string()],
        }],
    };

    // Negate the segment — target everyone NOT in beta
    let rule = TargetingRule {
        id: 200,
        rank: 1,
        description: None,
        segments: vec![RuleSegment {
            segment_id: beta_segment.id,
            negate: true,
        }],
        distributions: vec![],
        variant_id: Some(on_id),
    };

    let flag = FlagConfig {
        key: "non-beta-feature".to_string(),
        flag_type: FlagType::Boolean,
        variants: vec![on_variant, off_variant.clone()],
        environment: FlagEnvironment {
            enabled: true,
            default_variant_id: off_variant.id,
            rules: vec![rule],
            overrides: vec![],
        },
    };

    let evaluator = make_evaluator(vec![flag], vec![beta_segment]);

    // Non-beta user should match (negated segment)
    let ctx = ctx_with_attr("user-1", "beta", jstr("false"));
    let result = evaluator.evaluate("non-beta-feature", &ctx, &jbool(false));
    assert_eq!(result.reason, EvaluationReason::RuleMatch);
    assert_eq!(result.value, jbool(true));

    // Beta user should NOT match
    let ctx_beta = ctx_with_attr("user-2", "beta", jstr("true"));
    let result = evaluator.evaluate("non-beta-feature", &ctx_beta, &jbool(false));
    assert_eq!(result.reason, EvaluationReason::Default);
}

#[test]
fn test_rule_rank_tie_broken_by_id() {
    let variant_a = make_variant(1, "a", jstr("alpha"));
    let variant_b = make_variant(2, "b", jstr("beta"));
    let variant_default = make_variant(3, "default", jstr("default"));

    // Two catch-all rules of equal rank: the smaller id wins, whatever the
    // storage order.
    let rule_high_id = TargetingRule {
        id: 202,
        rank: 1,
        description: None,
        segments: vec![],
        distributions: vec![],
        variant_id: Some(variant_b.id),
    };
    let rule_low_id = TargetingRule {
        id: 201,
        rank: 1,
        description: None,
        segments: vec![],
        distributions: vec![],
        variant_id: Some(variant_a.id),
    };

    let flag = FlagConfig {
        key: "tied-flag".to_string(),
        flag_type: FlagType::Text,
        variants: vec![variant_a, variant_b, variant_default.clone()],
        environment: FlagEnvironment {
            enabled: true,
            default_variant_id: variant_default.id,
            rules: vec![rule_high_id, rule_low_id],
            overrides: vec![],
        },
    };

    let evaluator = make_evaluator(vec![flag], vec![]);
    let result = evaluator.evaluate("tied-flag", &EvaluationContext::default(), &jstr("default"));
    assert_eq!(result.reason, EvaluationReason::RuleMatch);
    assert_eq!(result.rule_id, Some(201));
    assert_eq!(result.value, jstr("alpha"));
}

#[test]
fn test_evaluate_deterministic_repeat() {
    let (flag, _, _) = make_simple_flag("repeat-flag", true);
    let evaluator = make_evaluator(vec![flag], vec![]);
    let ctx = ctx_with_key("user-7");
    let r1 = evaluator.evaluate("repeat-flag", &ctx, &jbool(false));
    let r2 = evaluator.evaluate("repeat-flag", &ctx, &jbool(false));
    assert_eq!(r1.variant_key, r2.variant_key);
    assert_eq!(r1.value, r2.value);
    assert_eq!(r1.reason, r2.reason);
    assert_eq!(r1.rule_id, r2.rule_id);
}

#[test]
fn test_duplicate_override_first_wins() {
    let (mut flag, on_id, off_id) = make_simple_flag("dup-flag", true);
    flag.environment.default_variant_id = off_id;
    flag.environment.overrides.push(FlagOverride {
        targeting_key: "user-123".to_string(),
        variant_id: on_id,
    });
    flag.environment.overrides.push(FlagOverride {
        targeting_key: "user-123".to_string(),
        variant_id: off_id,
    });
    let evaluator = make_evaluator(vec![flag], vec![]);
    let result = evaluator.evaluate("dup-flag", &ctx_with_key("user-123"), &jbool(false));
    assert_eq!(result.reason, EvaluationReason::Override);
    assert_eq!(result.variant_key, "on");
    assert_eq!(result.value, jbool(true));
}

#[test]
fn test_missing_variant_falls_back_to_default_value() {
    // The default variant id resolves to no variant: the caller's default
    // value is served with an empty variant key.
    let flag = FlagConfig {
        key: "broken-flag".to_string(),
        flag_type: FlagType::Boolean,
        variants: vec![],
        environment: FlagEnvironment {
            enabled: true,
            default_variant_id: 42,
            rules: vec![],
            overrides: vec![],
        },
    };
    let evaluator = make_evaluator(vec![flag], vec![]);
    let result = evaluator.evaluate("broken-flag", &EvaluationContext::default(), &jstr("fallback"));
    assert_eq!(result.reason, EvaluationReason::Default);
    assert_eq!(result.variant_key, "");
    assert_eq!(result.value, jstr("fallback"));
}

#[test]
fn test_anonymous_bucketing_is_stable() {
    // With no targeting key the anonymous key is hashed, so two calls agree.
    let on_variant = make_variant(1, "on", jbool(true));
    let off_variant = make_variant(2, "off", jbool(false));
    let rule = TargetingRule {
        id: 200,
        rank: 1,
        description: None,
        segments: vec![],
        distributions: vec![
            RuleDistribution { variant_id: on_variant.id, rollout_pct: 5000 },
            RuleDistribution { variant_id: off_variant.id, rollout_pct: 5000 },
        ],
        variant_id: None,
    };
    let flag = FlagConfig {
        key: "anon-flag".to_string(),
        flag_type: FlagType::Boolean,
        variants: vec![on_variant, off_variant.clone()],
        environment: FlagEnvironment {
            enabled: true,
            default_variant_id: off_variant.id,
            rules: vec![rule],
            overrides: vec![],
        },
    };
    let evaluator = make_evaluator(vec![flag], vec![]);
    let r1 = evaluator.evaluate("anon-flag", &EvaluationContext::default(), &jbool(false));
    let r2 = evaluator.evaluate("anon-flag", &EvaluationContext::default(), &jbool(false));
    assert_eq!(r1.reason, EvaluationReason::RuleMatch);
    assert_eq!(r1.variant_key, r2.variant_key);
}

#[test]
fn test_targeting_key_attribute_in_constraint() {
    // The reserved attribute name pulls from the targeting key itself.
    let on_variant = make_variant(1, "on", jbool(true));
    let off_variant = make_variant(2, "off", jbool(false));
    let segment = Segment {
        id: 100,
        key: "vip".to_string(),
        name: "VIP".to_string(),
        match_type: MatchType::All,
        constraints: vec![SegmentConstraint {
            attribute: "targetingKey".to_string(),
            operator: Operator::StartsWith,
            values: vec!["vip-".to_string()],
        }],
    };
    let rule = TargetingRule {
        id: 200,
        rank: 1,
        description: None,
        segments: vec![RuleSegment { segment_id: segment.id, negate: false }],
        distributions: vec![],
        variant_id: Some(on_variant.id),
    };
    let flag = FlagConfig {
        key: "vip-flag".to_string(),
        flag_type: FlagType::Boolean,
        variants: vec![on_variant, off_variant.clone()],
        environment: FlagEnvironment {
            enabled: true,
            default_variant_id: off_variant.id,
            rules: vec![rule],
            overrides: vec![],
        },
    };
    let evaluator = make_evaluator(vec![flag], vec![segment]);
    let vip = evaluator.evaluate("vip-flag", &ctx_with_key("vip-9"), &jbool(false));
    assert_eq!(vip.reason, EvaluationReason::RuleMatch);
    let plain = evaluator.evaluate("vip-flag", &ctx_with_key("user-9"), &jbool(false));
    assert_eq!(plain.reason, EvaluationReason::Default);
}

#[test]
fn test_any_match_type_segment() {
    let on_variant = make_variant(1, "on", jbool(true));
    let off_variant = make_variant(2, "off", jbool(false));
    let segment = Segment {
        id: 100,
        key: "either".to_string(),
        name: "Either".to_string(),
        match_type: MatchType::Any,
        constraints: vec![
            SegmentConstraint {
                attribute: "country".to_string(),
                operator: Operator::Eq,
                values: vec!["US".to_string()],
            },
            SegmentConstraint {
                attribute: "beta".to_string(),
                operator: Operator::Eq,
                values: vec!["true".to_string()],
            },
        ],
    };
    let rule = TargetingRule {
        id: 200,
        rank: 1,
        description: None,
        segments: vec![RuleSegment { segment_id: segment.id, negate: false }],
        distributions: vec![],
        variant_id: Some(on_variant.id),
    };
    let flag = FlagConfig {
        key: "any-flag".to_string(),
        flag_type: FlagType::Boolean,
        variants: vec![on_variant, off_variant.clone()],
        environment: FlagEnvironment {
            enabled: true,
            default_variant_id: off_variant.id,
            rules: vec![rule],
            overrides: vec![],
        },
    };
    let evaluator = make_evaluator(vec![flag], vec![segment]);
    let beta_only = evaluator.evaluate(
        "any-flag",
        &ctx_with_attr("u", "beta", jstr("true")),
        &jbool(false),
    );
    assert_eq!(beta_only.reason, EvaluationReason::RuleMatch);
    let neither = evaluator.evaluate(
        "any-flag",
        &ctx_with_attr("u", "beta", jstr("false")),
        &jbool(false),
    );
    assert_eq!(neither.reason, EvaluationReason::Default);
}
