//! The evaluation engine.
//!
//! An `Evaluator` holds an immutable snapshot of flags and segments and
//! resolves a flag key plus an evaluation context to a concrete variant:
//! overrides first, then ranked targeting rules with segment matching and
//! percentage bucketing, then the default variant. The engine is total and
//! deterministic; every internal inconsistency falls back to the
//! surrounding step's default resolution.

use vstd::prelude::*;

use crate::hasher::bucket;
use crate::hasher::spec_bucket;
use crate::json::JsonV;
use crate::json::JsonVal;
use crate::operators::evaluate_operator;
use crate::operators::spec_eval_op;
use crate::strutil::str_eq;
use crate::types::views_of;
use crate::types::EvaluationContext;
use crate::types::EvaluationContextV;
use crate::types::EvaluationReason;
use crate::types::EvaluationResult;
use crate::types::EvaluationResultV;
use crate::types::FlagConfig;
use crate::types::FlagConfigV;
use crate::types::FlagOverrideV;
use crate::types::FlagsConfig;
use crate::types::MatchType;
use crate::types::RuleDistribution;
use crate::types::RuleSegment;
use crate::types::Segment;
use crate::types::SegmentConstraint;
use crate::types::SegmentConstraintV;
use crate::types::SegmentV;
use crate::types::TargetingRule;
use crate::types::TargetingRuleV;
use crate::types::Variant;
use crate::types::VariantV;

verus! {

use vstd::string::StringExecFns;

/// The model of an evaluator: the snapshot it answers from.
pub struct EvaluatorV {
    pub flags: Seq<FlagConfigV>,
    pub segments: Seq<SegmentV>,
}

/// The first flag with the given key, in storage order.
pub open spec fn find_flag(flags: Seq<FlagConfigV>, key: Seq<char>) -> Option<FlagConfigV>
    decreases flags.len(),
{
    if flags.len() == 0 {
        Option::None
    } else if flags[0].key == key {
        Option::Some(flags[0])
    } else {
        find_flag(flags.drop_first(), key)
    }
}

/// The first variant with the given id, in storage order.
pub open spec fn find_variant(variants: Seq<VariantV>, id: u128) -> Option<VariantV>
    decreases variants.len(),
{
    if variants.len() == 0 {
        Option::None
    } else if variants[0].id == id {
        Option::Some(variants[0])
    } else {
        find_variant(variants.drop_first(), id)
    }
}

/// The first override with the given targeting key; on duplicates the first
/// encountered wins.
pub open spec fn find_override(overrides: Seq<FlagOverrideV>, tk: Seq<char>) -> Option<
    FlagOverrideV,
>
    decreases overrides.len(),
{
    if overrides.len() == 0 {
        Option::None
    } else if overrides[0].targeting_key == tk {
        Option::Some(overrides[0])
    } else {
        find_override(overrides.drop_first(), tk)
    }
}

/// The first segment with the given id, in storage order.
pub open spec fn find_segment(segments: Seq<SegmentV>, id: u128) -> Option<SegmentV>
    decreases segments.len(),
{
    if segments.len() == 0 {
        Option::None
    } else if segments[0].id == id {
        Option::Some(segments[0])
    } else {
        find_segment(segments.drop_first(), id)
    }
}

/// The first attribute with the given name, in insertion order.
pub open spec fn find_attr(attrs: Seq<(Seq<char>, JsonV)>, name: Seq<char>) -> Option<JsonV>
    decreases attrs.len(),
{
    if attrs.len() == 0 {
        Option::None
    } else if attrs[0].0 == name {
        Option::Some(attrs[0].1)
    } else {
        find_attr(attrs.drop_first(), name)
    }
}

/// The attribute value a constraint sees: `targetingKey` is reserved and
/// pulls from the context's targeting key; any other name is looked up in
/// the context's attributes.
pub open spec fn ctx_attr(ctx: EvaluationContextV, name: Seq<char>) -> Option<JsonV> {
    if name == "targetingKey"@ {
        match ctx.targeting_key {
            Option::Some(tk) => Option::Some(JsonV::Str(tk)),
            Option::None => Option::None,
        }
    } else {
        find_attr(ctx.attributes, name)
    }
}

/// One constraint against the context: a missing attribute never matches.
pub open spec fn constraint_holds(c: SegmentConstraintV, ctx: EvaluationContextV) -> bool {
    match ctx_attr(ctx, c.attribute) {
        Option::Some(v) => spec_eval_op(c.operator, v, c.values),
        Option::None => false,
    }
}

/// A segment against the context: all constraints, or any, per its match
/// type; a segment without constraints matches.
pub open spec fn segment_matches(seg: SegmentV, ctx: EvaluationContextV) -> bool {
    if seg.constraints.len() == 0 {
        true
    } else {
        match seg.match_type {
            MatchType::All => forall|i: int|
                0 <= i < seg.constraints.len() ==> constraint_holds(#[trigger] seg.constraints[i], ctx),
            MatchType::Any => exists|i: int|
                0 <= i < seg.constraints.len() && constraint_holds(#[trigger] seg.constraints[i], ctx),
        }
    }
}

/// One segment reference of a rule: an unknown segment id never matches;
/// `negate` inverts the verdict.
pub open spec fn rule_seg_matches(
    rs: RuleSegment,
    segments: Seq<SegmentV>,
    ctx: EvaluationContextV,
) -> bool {
    let m = match find_segment(segments, rs.segment_id) {
        Option::Some(s) => segment_matches(s, ctx),
        Option::None => false,
    };
    if rs.negate {
        !m
    } else {
        m
    }
}

/// A rule against the context: all referenced segments must match; a rule
/// without segments is a catch-all.
pub open spec fn rule_matches(
    r: TargetingRuleV,
    segments: Seq<SegmentV>,
    ctx: EvaluationContextV,
) -> bool {
    forall|i: int| 0 <= i < r.segments.len() ==> rule_seg_matches(#[trigger] r.segments[i], segments, ctx)
}

/// The first matching rule, in the order given.
pub open spec fn find_matching_rule(
    rules: Seq<TargetingRuleV>,
    segments: Seq<SegmentV>,
    ctx: EvaluationContextV,
) -> Option<TargetingRuleV>
    decreases rules.len(),
{
    if rules.len() == 0 {
        Option::None
    } else if rule_matches(rules[0], segments, ctx) {
        Option::Some(rules[0])
    } else {
        find_matching_rule(rules.drop_first(), segments, ctx)
    }
}

/// The evaluation order of two rules: ascending rank, ties broken by
/// ascending id.
pub open spec fn rule_precedes(a: TargetingRuleV, b: TargetingRuleV) -> bool {
    a.rank < b.rank || (a.rank == b.rank && a.id <= b.id)
}

/// Insert a rule after every rule that precedes it: the insertion step of
/// a stable sort in evaluation order.
pub open spec fn insert_rule(s: Seq<TargetingRuleV>, r: TargetingRuleV) -> Seq<TargetingRuleV>
    decreases s.len(),
{
    if s.len() == 0 {
        seq![r]
    } else if rule_precedes(s[0], r) {
        seq![s[0]] + insert_rule(s.drop_first(), r)
    } else {
        seq![r] + s
    }
}

/// The stable insertion sort of the first `n` rules.
pub open spec fn sort_rules_pref(s: Seq<TargetingRuleV>, n: int) -> Seq<TargetingRuleV>
    decreases n,
{
    if n <= 0 {
        Seq::empty()
    } else {
        insert_rule(sort_rules_pref(s, n - 1), s[n - 1])
    }
}

/// The rules in evaluation order: ascending rank, ties broken by ascending
/// id; rules sharing rank and id keep their storage order.
pub open spec fn sort_rules(s: Seq<TargetingRuleV>) -> Seq<TargetingRuleV> {
    sort_rules_pref(s, s.len() as int)
}

/// The variant a sequence of distributions assigns to a bucket value:
/// distributions are walked in storage order accumulating `rollout_pct`,
/// and the first whose cumulative threshold strictly exceeds the bucket
/// wins.
pub open spec fn dist_pick(ds: Seq<RuleDistribution>, b: int, acc: int) -> Option<u128>
    decreases ds.len(),
{
    if ds.len() == 0 {
        Option::None
    } else {
        let c = acc + ds[0].rollout_pct;
        if b < c {
            Option::Some(ds[0].variant_id)
        } else {
            dist_pick(ds.drop_first(), b, c)
        }
    }
}

/// Resolution of a variant id: the variant's key and value, or an empty key
/// and the caller's default where the id does not resolve.
pub open spec fn resolve_variant(
    flag: FlagConfigV,
    vid: u128,
    flag_key: Seq<char>,
    default: JsonV,
    reason: EvaluationReason,
    rule_id: Option<u128>,
) -> EvaluationResultV {
    match find_variant(flag.variants, vid) {
        Option::Some(v) => EvaluationResultV {
            flag_key,
            variant_key: v.key,
            value: v.value,
            reason,
            rule_id,
        },
        Option::None => EvaluationResultV {
            flag_key,
            variant_key: Seq::empty(),
            value: default,
            reason,
            rule_id,
        },
    }
}

/// Resolution through the default variant.
pub open spec fn default_result(
    flag: FlagConfigV,
    flag_key: Seq<char>,
    default: JsonV,
    reason: EvaluationReason,
) -> EvaluationResultV {
    resolve_variant(
        flag,
        flag.environment.default_variant_id,
        flag_key,
        default,
        reason,
        Option::None,
    )
}

/// The targeting key used for bucketing: the context's, or the anonymous
/// key.
pub open spec fn bucket_key(ctx: EvaluationContextV) -> Seq<char> {
    match ctx.targeting_key {
        Option::Some(tk) => tk,
        Option::None => "__anonymous__"@,
    }
}

/// Resolution of a matched rule: its direct variant if set, else its
/// distributions via the bucket, else the flag's default.
pub open spec fn spec_resolve_rule(
    flag: FlagConfigV,
    rule: TargetingRuleV,
    flag_key: Seq<char>,
    ctx: EvaluationContextV,
    default: JsonV,
) -> EvaluationResultV {
    match rule.variant_id {
        Option::Some(vid) => resolve_variant(
            flag,
            vid,
            flag_key,
            default,
            EvaluationReason::RuleMatch,
            Option::Some(rule.id),
        ),
        Option::None => {
            if rule.distributions.len() > 0 {
                let b = spec_bucket(flag.key, bucket_key(ctx));
                match dist_pick(rule.distributions, b, 0) {
                    Option::Some(vid) => resolve_variant(
                        flag,
                        vid,
                        flag_key,
                        default,
                        EvaluationReason::RuleMatch,
                        Option::Some(rule.id),
                    ),
                    Option::None => default_result(
                        flag,
                        flag_key,
                        default,
                        EvaluationReason::Default,
                    ),
                }
            } else {
                default_result(flag, flag_key, default, EvaluationReason::Default)
            }
        },
    }
}

/// The full evaluation algorithm: lookup, disabled check, overrides, ranked
/// rules, default.
pub open spec fn spec_evaluate(
    ev: EvaluatorV,
    flag_key: Seq<char>,
    ctx: EvaluationContextV,
    default: JsonV,
) -> EvaluationResultV {
    match find_flag(ev.flags, flag_key) {
        Option::None => EvaluationResultV {
            flag_key,
            variant_key: Seq::empty(),
            value: default,
            reason: EvaluationReason::FlagNotFound,
            rule_id: Option::None,
        },
        Option::Some(flag) => {
            if !flag.environment.enabled {
                default_result(flag, flag_key, default, EvaluationReason::Disabled)
            } else {
                let ov = match ctx.targeting_key {
                    Option::Some(tk) => find_override(flag.environment.overrides, tk),
                    Option::None => Option::None,
                };
                match ov {
                    Option::Some(o) => resolve_variant(
                        flag,
                        o.variant_id,
                        flag_key,
                        default,
                        EvaluationReason::Override,
                        Option::None,
                    ),
                    Option::None => {
                        match find_matching_rule(
                            sort_rules(flag.environment.rules),
                            ev.segments,
                            ctx,
                        ) {
                            Option::Some(rule) => spec_resolve_rule(
                                flag,
                                rule,
                                flag_key,
                                ctx,
                                default,
                            ),
                            Option::None => default_result(
                                flag,
                                flag_key,
                                default,
                                EvaluationReason::Default,
                            ),
                        }
                    },
                }
            }
        },
    }
}

/// Rules in evaluation order: ascending rank, ties by ascending id.
pub open spec fn rules_sorted(s: Seq<TargetingRuleV>) -> bool {
    forall|i: int, j: int| 0 <= i < j < s.len() ==> rule_precedes(#[trigger] s[i], #[trigger] s[j])
}

proof fn lemma_contains_head<T>(s: Seq<T>, x: T)
    requires
        s.len() > 0,
    ensures
        s.contains(x) <==> (x == s[0] || s.drop_first().contains(x)),
{
    let t = s.drop_first();
    if s.contains(x) {
        let i = choose|i: int| 0 <= i < s.len() && s[i] == x;
        if i > 0 {
            assert(t[i - 1] == x);
        }
    }
    if t.contains(x) {
        let i = choose|i: int| 0 <= i < t.len() && t[i] == x;
        assert(s[i + 1] == x);
    }
}

proof fn lemma_contains_cons<T>(h: T, q: Seq<T>, x: T)
    ensures
        (seq![h] + q).contains(x) <==> (x == h || q.contains(x)),
{
    let s = seq![h] + q;
    if s.contains(x) {
        let i = choose|i: int| 0 <= i < s.len() && s[i] == x;
        if i > 0 {
            assert(q[i - 1] == x);
        }
    }
    if q.contains(x) {
        let i = choose|i: int| 0 <= i < q.len() && q[i] == x;
        assert(s[i + 1] == x);
    }
    assert(s[0] == h);
}

/// Inserting a rule adds exactly that rule to the sequence's elements.
proof fn lemma_insert_rule_contains(s: Seq<TargetingRuleV>, r: TargetingRuleV, x: TargetingRuleV)
    ensures
        insert_rule(s, r).contains(x) <==> (s.contains(x) || x == r),
    decreases s.len(),
{
    if s.len() == 0 {
        assert(insert_rule(s, r) == seq![r]);
        lemma_contains_cons(r, Seq::empty(), x);
        assert(seq![r] + Seq::<TargetingRuleV>::empty() =~= seq![r]);
    } else if rule_precedes(s[0], r) {
        let t = s.drop_first();
        lemma_insert_rule_contains(t, r, x);
        lemma_contains_cons(s[0], insert_rule(t, r), x);
        lemma_contains_head(s, x);
    } else {
        lemma_contains_cons(r, s, x);
    }
}

/// Insertion keeps the rules sorted.
proof fn lemma_insert_rule_sorted(s: Seq<TargetingRuleV>, r: TargetingRuleV)
    requires
        rules_sorted(s),
    ensures
        rules_sorted(insert_rule(s, r)),
    decreases s.len(),
{
    if s.len() == 0 {
    } else if rule_precedes(s[0], r) {
        let t = s.drop_first();
        assert(forall|i: int, j: int|
            0 <= i < j < t.len() ==> rule_precedes(#[trigger] t[i], #[trigger] t[j]));
        lemma_insert_rule_sorted(t, r);
        let q = insert_rule(t, r);
        let out = seq![s[0]] + q;
        assert forall|i: int, j: int| 0 <= i < j < out.len() implies rule_precedes(
            #[trigger] out[i],
            #[trigger] out[j],
        ) by {
            if i == 0 {
                assert(out[j] == q[j - 1]);
                lemma_insert_rule_contains(t, r, q[j - 1]);
                assert(q.contains(q[j - 1]));
                if q[j - 1] == r {
                } else {
                    let m = choose|m: int| 0 <= m < t.len() && t[m] == q[j - 1];
                    assert(s[m + 1] == t[m]);
                }
            } else {
                assert(out[i] == q[i - 1] && out[j] == q[j - 1]);
            }
        }
    } else {
        let out = seq![r] + s;
        assert forall|i: int, j: int| 0 <= i < j < out.len() implies rule_precedes(
            #[trigger] out[i],
            #[trigger] out[j],
        ) by {
            if i == 0 {
                assert(out[j] == s[j - 1]);
                if j - 1 > 0 {
                    assert(rule_precedes(s[0], s[j - 1]));
                }
            } else {
                assert(out[i] == s[i - 1] && out[j] == s[j - 1]);
            }
        }
    }
}

/// Sorting keeps exactly the original rules, and orders them by rank.
pub proof fn lemma_sort_rules_pref_props(s: Seq<TargetingRuleV>, n: int)
    requires
        0 <= n <= s.len(),
    ensures
        rules_sorted(sort_rules_pref(s, n)),
        forall|x: TargetingRuleV|
            #[trigger] sort_rules_pref(s, n).contains(x) <==> exists|i: int|
                0 <= i < n && s[i] == x,
    decreases n,
{
    if n > 0 {
        lemma_sort_rules_pref_props(s, n - 1);
        lemma_insert_rule_sorted(sort_rules_pref(s, n - 1), s[n - 1]);
        assert forall|x: TargetingRuleV| #[trigger] sort_rules_pref(s, n).contains(x) implies
            exists|i: int| 0 <= i < n && s[i] == x by {
            lemma_insert_rule_contains(sort_rules_pref(s, n - 1), s[n - 1], x);
        }
        assert forall|x: TargetingRuleV| (exists|i: int| 0 <= i < n && s[i] == x) implies
            #[trigger] sort_rules_pref(s, n).contains(x) by {
            lemma_insert_rule_contains(sort_rules_pref(s, n - 1), s[n - 1], x);
        }
    }
}

/// The sorted rules hold exactly the stored rules, in ascending rank.
pub proof fn lemma_sort_rules_props(s: Seq<TargetingRuleV>)
    ensures
        rules_sorted(sort_rules(s)),
        forall|x: TargetingRuleV| #[trigger] sort_rules(s).contains(x) <==> s.contains(x),
{
    lemma_sort_rules_pref_props(s, s.len() as int);
}

/// When some contained rule matches, the search finds a rule.
proof fn lemma_find_matching_rule_some(
    rules: Seq<TargetingRuleV>,
    segments: Seq<SegmentV>,
    ctx: EvaluationContextV,
    x: TargetingRuleV,
)
    requires
        rules.contains(x),
        rule_matches(x, segments, ctx),
    ensures
        find_matching_rule(rules, segments, ctx) is Some,
    decreases rules.len(),
{
    if !rule_matches(rules[0], segments, ctx) {
        lemma_contains_head(rules, x);
        lemma_find_matching_rule_some(rules.drop_first(), segments, ctx, x);
    }
}

/// In a rank-sorted sequence the first matching rule has the least rank of
/// any matching rule.
proof fn lemma_first_match_min_rank(
    rules: Seq<TargetingRuleV>,
    segments: Seq<SegmentV>,
    ctx: EvaluationContextV,
    x: TargetingRuleV,
)
    requires
        rules_sorted(rules),
        rules.contains(x),
        rule_matches(x, segments, ctx),
    ensures
        find_matching_rule(rules, segments, ctx) is Some,
        find_matching_rule(rules, segments, ctx)->Some_0.rank <= x.rank,
    decreases rules.len(),
{
    lemma_find_matching_rule_some(rules, segments, ctx, x);
    if rule_matches(rules[0], segments, ctx) {
        let i = choose|i: int| 0 <= i < rules.len() && rules[i] == x;
        if i > 0 {
            assert(rule_precedes(rules[0], rules[i]));
        }
    } else {
        lemma_contains_head(rules, x);
        let t = rules.drop_first();
        assert(forall|i: int, j: int|
            0 <= i < j < t.len() ==> rule_precedes(#[trigger] t[i], #[trigger] t[j]));
        lemma_first_match_min_rank(t, segments, ctx, x);
    }
}

/// Every evaluation terminates with a reason from the closed set; the
/// `Error` reason is reserved and never produced.
pub proof fn lemma_evaluate_reason_closed(
    ev: EvaluatorV,
    flag_key: Seq<char>,
    ctx: EvaluationContextV,
    default: JsonV,
)
    ensures
        spec_evaluate(ev, flag_key, ctx, default).reason != EvaluationReason::Error,
        spec_evaluate(ev, flag_key, ctx, default).reason == EvaluationReason::FlagNotFound
            || spec_evaluate(ev, flag_key, ctx, default).reason == EvaluationReason::Disabled
            || spec_evaluate(ev, flag_key, ctx, default).reason == EvaluationReason::Override
            || spec_evaluate(ev, flag_key, ctx, default).reason == EvaluationReason::RuleMatch
            || spec_evaluate(ev, flag_key, ctx, default).reason == EvaluationReason::Default,
{
}

/// Two back-to-back evaluations on the same snapshot return equal variant
/// key, value, reason and rule id: the result is a function of the
/// snapshot, the key, the context and the default alone.
pub proof fn lemma_evaluate_deterministic(
    ev: EvaluatorV,
    flag_key: Seq<char>,
    ctx: EvaluationContextV,
    default: JsonV,
    r1: EvaluationResultV,
    r2: EvaluationResultV,
)
    requires
        r1 == spec_evaluate(ev, flag_key, ctx, default),
        r2 == spec_evaluate(ev, flag_key, ctx, default),
    ensures
        r1.variant_key == r2.variant_key,
        r1.value == r2.value,
        r1.reason == r2.reason,
        r1.rule_id == r2.rule_id,
{
}

/// An override on the context's targeting key wins over any rule: when one
/// matches on an enabled flag, the result resolves that override's variant,
/// whatever the rules say.
pub proof fn lemma_override_wins(
    ev: EvaluatorV,
    flag: FlagConfigV,
    flag_key: Seq<char>,
    ctx: EvaluationContextV,
    default: JsonV,
    tk: Seq<char>,
)
    requires
        find_flag(ev.flags, flag_key) == Option::Some(flag),
        flag.environment.enabled,
        ctx.targeting_key == Option::Some(tk),
        find_override(flag.environment.overrides, tk) is Some,
    ensures
        spec_evaluate(ev, flag_key, ctx, default) == resolve_variant(
            flag,
            find_override(flag.environment.overrides, tk)->Some_0.variant_id,
            flag_key,
            default,
            EvaluationReason::Override,
            Option::None,
        ),
        spec_evaluate(ev, flag_key, ctx, default).reason == EvaluationReason::Override,
{
}

/// A disabled flag ignores rules and overrides: the result is the default
/// variant resolution with reason `Disabled`, which depends only on the
/// flag's variants and default variant id.
pub proof fn lemma_disabled_ignores_rules(
    ev: EvaluatorV,
    flag: FlagConfigV,
    flag_key: Seq<char>,
    ctx: EvaluationContextV,
    default: JsonV,
)
    requires
        find_flag(ev.flags, flag_key) == Option::Some(flag),
        !flag.environment.enabled,
    ensures
        spec_evaluate(ev, flag_key, ctx, default) == default_result(
            flag,
            flag_key,
            default,
            EvaluationReason::Disabled,
        ),
        spec_evaluate(ev, flag_key, ctx, default).reason == EvaluationReason::Disabled,
{
}

/// Of two matching rules the lower rank wins, whatever the storage order:
/// the rule the evaluation resolves has rank at most `a`'s, so it is never
/// `b`.
pub proof fn lemma_lower_rank_wins(
    ev: EvaluatorV,
    flag: FlagConfigV,
    flag_key: Seq<char>,
    ctx: EvaluationContextV,
    default: JsonV,
    a: TargetingRuleV,
    b: TargetingRuleV,
)
    requires
        find_flag(ev.flags, flag_key) == Option::Some(flag),
        flag.environment.enabled,
        match ctx.targeting_key {
            Option::Some(tk) => find_override(flag.environment.overrides, tk) is None,
            Option::None => true,
        },
        flag.environment.rules.contains(a),
        flag.environment.rules.contains(b),
        rule_matches(a, ev.segments, ctx),
        rule_matches(b, ev.segments, ctx),
        a.rank < b.rank,
    ensures
        find_matching_rule(sort_rules(flag.environment.rules), ev.segments, ctx) is Some,
        ({
            let chosen = find_matching_rule(
                sort_rules(flag.environment.rules),
                ev.segments,
                ctx,
            )->Some_0;
            &&& spec_evaluate(ev, flag_key, ctx, default) == spec_resolve_rule(
                flag,
                chosen,
                flag_key,
                ctx,
                default,
            )
            &&& chosen.rank <= a.rank
            &&& chosen.rank < b.rank
            &&& chosen != b
        }),
{
    let sorted = sort_rules(flag.environment.rules);
    lemma_sort_rules_props(flag.environment.rules);
    assert(sorted.contains(a));
    lemma_first_match_min_rank(sorted, ev.segments, ctx, a);
}


/// How many flags carry the given key.
pub open spec fn count_key(flags: Seq<FlagConfigV>, key: Seq<char>) -> int
    decreases flags.len(),
{
    if flags.len() == 0 {
        0
    } else {
        (if flags[0].key == key {
            1int
        } else {
            0int
        }) + count_key(flags.drop_first(), key)
    }
}

/// A freshly added flag is served on lookup and listed exactly once: after
/// appending a flag whose key is new, looking the key up returns that flag,
/// and the key occurs exactly once in the snapshot.
pub proof fn lemma_fresh_flag_lookup(flags: Seq<FlagConfigV>, f: FlagConfigV)
    requires
        forall|i: int| 0 <= i < flags.len() ==> (#[trigger] flags[i]).key != f.key,
    ensures
        find_flag(flags.push(f), f.key) == Option::Some(f),
        count_key(flags.push(f), f.key) == 1,
    decreases flags.len(),
{
    let s = flags.push(f);
    if flags.len() == 0 {
        assert(s.len() == 1);
        assert(s[0] == f);
        assert(s.drop_first() =~= Seq::<FlagConfigV>::empty());
        assert(count_key(Seq::<FlagConfigV>::empty(), f.key) == 0);
        assert(count_key(s, f.key) == 1 + count_key(s.drop_first(), f.key));
    } else {
        assert(s[0] == flags[0]);
        assert(s[0].key != f.key);
        let t = flags.drop_first();
        assert(forall|i: int| 0 <= i < t.len() ==> (#[trigger] t[i]).key != f.key);
        lemma_fresh_flag_lookup(t, f);
        assert(s.drop_first() =~= t.push(f));
    }
}

/// The core evaluation engine. Holds all flag configs and segments in
/// memory for zero-latency evaluation.
pub struct Evaluator {
    flags: Vec<FlagConfig>,
    segments: Vec<Segment>,
}

impl View for Evaluator {
    type V = EvaluatorV;

    closed spec fn view(&self) -> EvaluatorV {
        EvaluatorV { flags: views_of(self.flags), segments: views_of(self.segments) }
    }
}

impl Evaluator {
    /// Create a new evaluator from a config snapshot.
    pub fn new(config: FlagsConfig) -> (ev: Self)
        ensures
            ev@.flags == config@.flags,
            ev@.segments == config@.segments,
    {
        Evaluator { flags: config.flags, segments: config.segments }
    }

    /// Create an empty evaluator.
    pub fn empty() -> (ev: Self)
        ensures
            ev@.flags.len() == 0,
            ev@.segments.len() == 0,
    {
        let flags: Vec<FlagConfig> = Vec::new();
        let segments: Vec<Segment> = Vec::new();
        proof {
            assert(views_of(flags).len() == 0);
            assert(views_of(segments).len() == 0);
        }
        Evaluator { flags, segments }
    }

    /// Update the evaluator with a new config snapshot (atomic swap).
    pub fn update(&mut self, config: FlagsConfig)
        ensures
            final(self)@.flags == config@.flags,
            final(self)@.segments == config@.segments,
    {
        self.flags = config.flags;
        self.segments = config.segments;
    }
}

proof fn lemma_find_flag_skip(flags: Seq<FlagConfigV>, key: Seq<char>, i: int)
    requires
        0 <= i <= flags.len(),
        forall|k: int| 0 <= k < i ==> (#[trigger] flags[k]).key != key,
    ensures
        find_flag(flags, key) == find_flag(flags.skip(i), key),
    decreases i,
{
    if i == 0 {
        assert(flags.skip(0) =~= flags);
    } else {
        let t = flags.drop_first();
        assert(t =~= flags.skip(1));
        assert(forall|k: int| 0 <= k < i - 1 ==> (#[trigger] t[k]).key != key);
        lemma_find_flag_skip(t, key, i - 1);
        assert(t.skip(i - 1) =~= flags.skip(i));
    }
}

proof fn lemma_find_variant_skip(variants: Seq<VariantV>, id: u128, i: int)
    requires
        0 <= i <= variants.len(),
        forall|k: int| 0 <= k < i ==> (#[trigger] variants[k]).id != id,
    ensures
        find_variant(variants, id) == find_variant(variants.skip(i), id),
    decreases i,
{
    if i == 0 {
        assert(variants.skip(0) =~= variants);
    } else {
        let t = variants.drop_first();
        assert(t =~= variants.skip(1));
        assert(forall|k: int| 0 <= k < i - 1 ==> (#[trigger] t[k]).id != id);
        lemma_find_variant_skip(t, id, i - 1);
        assert(t.skip(i - 1) =~= variants.skip(i));
    }
}

proof fn lemma_find_override_skip(overrides: Seq<FlagOverrideV>, tk: Seq<char>, i: int)
    requires
        0 <= i <= overrides.len(),
        forall|k: int| 0 <= k < i ==> (#[trigger] overrides[k]).targeting_key != tk,
    ensures
        find_override(overrides, tk) == find_override(overrides.skip(i), tk),
    decreases i,
{
    if i == 0 {
        assert(overrides.skip(0) =~= overrides);
    } else {
        let t = overrides.drop_first();
        assert(t =~= overrides.skip(1));
        assert(forall|k: int| 0 <= k < i - 1 ==> (#[trigger] t[k]).targeting_key != tk);
        lemma_find_override_skip(t, tk, i - 1);
        assert(t.skip(i - 1) =~= overrides.skip(i));
    }
}

proof fn lemma_find_segment_skip(segments: Seq<SegmentV>, id: u128, i: int)
    requires
        0 <= i <= segments.len(),
        forall|k: int| 0 <= k < i ==> (#[trigger] segments[k]).id != id,
    ensures
        find_segment(segments, id) == find_segment(segments.skip(i), id),
    decreases i,
{
    if i == 0 {
        assert(segments.skip(0) =~= segments);
    } else {
        let t = segments.drop_first();
        assert(t =~= segments.skip(1));
        assert(forall|k: int| 0 <= k < i - 1 ==> (#[trigger] t[k]).id != id);
        lemma_find_segment_skip(t, id, i - 1);
        assert(t.skip(i - 1) =~= segments.skip(i));
    }
}

proof fn lemma_find_attr_skip(attrs: Seq<(Seq<char>, JsonV)>, name: Seq<char>, i: int)
    requires
        0 <= i <= attrs.len(),
        forall|k: int| 0 <= k < i ==> (#[trigger] attrs[k]).0 != name,
    ensures
        find_attr(attrs, name) == find_attr(attrs.skip(i), name),
    decreases i,
{
    if i == 0 {
        assert(attrs.skip(0) =~= attrs);
    } else {
        let t = attrs.drop_first();
        assert(t =~= attrs.skip(1));
        assert(forall|k: int| 0 <= k < i - 1 ==> (#[trigger] t[k]).0 != name);
        lemma_find_attr_skip(t, name, i - 1);
        assert(t.skip(i - 1) =~= attrs.skip(i));
    }
}

proof fn lemma_find_matching_rule_skip(
    rules: Seq<TargetingRuleV>,
    segments: Seq<SegmentV>,
    ctx: EvaluationContextV,
    i: int,
)
    requires
        0 <= i <= rules.len(),
        forall|k: int| 0 <= k < i ==> !rule_matches(#[trigger] rules[k], segments, ctx),
    ensures
        find_matching_rule(rules, segments, ctx) == find_matching_rule(
            rules.skip(i),
            segments,
            ctx,
        ),
    decreases i,
{
    if i == 0 {
        assert(rules.skip(0) =~= rules);
    } else {
        let t = rules.drop_first();
        assert(t =~= rules.skip(1));
        assert(forall|k: int| 0 <= k < i - 1 ==> !rule_matches(#[trigger] t[k], segments, ctx));
        lemma_find_matching_rule_skip(t, segments, ctx, i - 1);
        assert(t.skip(i - 1) =~= rules.skip(i));
    }
}

/// The first flag with the given key, executable side.
#[verifier::loop_isolation(false)]
fn lookup_flag<'a>(flags: &'a Vec<FlagConfig>, key: &str) -> (r: Option<&'a FlagConfig>)
    ensures
        match r {
            Option::Some(f) => find_flag(views_of(*flags), key@) == Option::Some(f@),
            Option::None => find_flag(views_of(*flags), key@) is None,
        },
{
    let ghost fv = views_of(*flags);
    let mut i: usize = 0;
    while i < flags.len()
        invariant
            i <= fv.len(),
            forall|k: int| 0 <= k < i ==> (#[trigger] fv[k]).key != key@,
        decreases fv.len() - i,
    {
        if str_eq(flags[i].key.as_str(), key) {
            proof {
                lemma_find_flag_skip(fv, key@, i as int);
                assert(fv.skip(i as int)[0] == fv[i as int]);
            }
            return Option::Some(&flags[i]);
        }
        i = i + 1;
    }
    proof {
        lemma_find_flag_skip(fv, key@, fv.len() as int);
        assert(fv.skip(fv.len() as int).len() == 0);
    }
    Option::None
}

/// The first variant with the given id, executable side.
#[verifier::loop_isolation(false)]
pub(crate) fn lookup_variant<'a>(variants: &'a Vec<Variant>, id: u128) -> (r: Option<&'a Variant>)
    ensures
        match r {
            Option::Some(v) => find_variant(views_of(*variants), id) == Option::Some(v@),
            Option::None => find_variant(views_of(*variants), id) is None,
        },
{
    let ghost vv = views_of(*variants);
    let mut i: usize = 0;
    while i < variants.len()
        invariant
            i <= vv.len(),
            forall|k: int| 0 <= k < i ==> (#[trigger] vv[k]).id != id,
        decreases vv.len() - i,
    {
        if variants[i].id == id {
            proof {
                lemma_find_variant_skip(vv, id, i as int);
                assert(vv.skip(i as int)[0] == vv[i as int]);
            }
            return Option::Some(&variants[i]);
        }
        i = i + 1;
    }
    proof {
        lemma_find_variant_skip(vv, id, vv.len() as int);
        assert(vv.skip(vv.len() as int).len() == 0);
    }
    Option::None
}

/// The first override with the given targeting key, executable side.
#[verifier::loop_isolation(false)]
fn lookup_override<'a>(overrides: &'a Vec<crate::types::FlagOverride>, tk: &str) -> (r: Option<
    &'a crate::types::FlagOverride,
>)
    ensures
        match r {
            Option::Some(o) => find_override(views_of(*overrides), tk@) == Option::Some(o@),
            Option::None => find_override(views_of(*overrides), tk@) is None,
        },
{
    let ghost ov = views_of(*overrides);
    let mut i: usize = 0;
    while i < overrides.len()
        invariant
            i <= ov.len(),
            forall|k: int| 0 <= k < i ==> (#[trigger] ov[k]).targeting_key != tk@,
        decreases ov.len() - i,
    {
        if str_eq(overrides[i].targeting_key.as_str(), tk) {
            proof {
                lemma_find_override_skip(ov, tk@, i as int);
                assert(ov.skip(i as int)[0] == ov[i as int]);
            }
            return Option::Some(&overrides[i]);
        }
        i = i + 1;
    }
    proof {
        lemma_find_override_skip(ov, tk@, ov.len() as int);
        assert(ov.skip(ov.len() as int).len() == 0);
    }
    Option::None
}

/// The first segment with the given id, executable side.
#[verifier::loop_isolation(false)]
fn lookup_segment<'a>(segments: &'a Vec<Segment>, id: u128) -> (r: Option<&'a Segment>)
    ensures
        match r {
            Option::Some(s) => find_segment(views_of(*segments), id) == Option::Some(s@),
            Option::None => find_segment(views_of(*segments), id) is None,
        },
{
    let ghost sv = views_of(*segments);
    let mut i: usize = 0;
    while i < segments.len()
        invariant
            i <= sv.len(),
            forall|k: int| 0 <= k < i ==> (#[trigger] sv[k]).id != id,
        decreases sv.len() - i,
    {
        if segments[i].id == id {
            proof {
                lemma_find_segment_skip(sv, id, i as int);
                assert(sv.skip(i as int)[0] == sv[i as int]);
            }
            return Option::Some(&segments[i]);
        }
        i = i + 1;
    }
    proof {
        lemma_find_segment_skip(sv, id, sv.len() as int);
        assert(sv.skip(sv.len() as int).len() == 0);
    }
    Option::None
}

/// The attribute value a constraint sees, executable side.
#[verifier::loop_isolation(false)]
fn context_attribute(ctx: &EvaluationContext, name: &str) -> (r: Option<JsonVal>)
    ensures
        match r {
            Option::Some(v) => ctx_attr(ctx@, name@) == Option::Some(v@),
            Option::None => ctx_attr(ctx@, name@) is None,
        },
{
    if str_eq(name, "targetingKey") {
        match &ctx.targeting_key {
            Option::Some(tk) => Option::Some(JsonVal::Str(tk.clone())),
            Option::None => Option::None,
        }
    } else {
        let ghost av = ctx@.attributes;
        let mut i: usize = 0;
        while i < ctx.attributes.len()
            invariant
                i <= av.len(),
                forall|k: int| 0 <= k < i ==> (#[trigger] av[k]).0 != name@,
            decreases av.len() - i,
        {
            if str_eq(ctx.attributes[i].0.as_str(), name) {
                proof {
                    lemma_find_attr_skip(av, name@, i as int);
                    assert(av.skip(i as int)[0] == av[i as int]);
                }
                return Option::Some(ctx.attributes[i].1.clone());
            }
            i = i + 1;
        }
        proof {
            lemma_find_attr_skip(av, name@, av.len() as int);
            assert(av.skip(av.len() as int).len() == 0);
        }
        Option::None
    }
}

/// One constraint against the context, executable side.
fn eval_constraint(c: &SegmentConstraint, ctx: &EvaluationContext) -> (r: bool)
    ensures
        r == constraint_holds(c@, ctx@),
{
    match context_attribute(ctx, c.attribute.as_str()) {
        Option::Some(v) => evaluate_operator(&c.operator, &v, c.values.as_slice()),
        Option::None => false,
    }
}

/// One segment against the context, executable side.
#[verifier::loop_isolation(false)]
fn eval_segment(seg: &Segment, ctx: &EvaluationContext) -> (r: bool)
    ensures
        r == segment_matches(seg@, ctx@),
{
    if seg.constraints.len() == 0 {
        return true;
    }
    let ghost cv = seg@.constraints;
    match seg.match_type {
        MatchType::All => {
            let mut i: usize = 0;
            while i < seg.constraints.len()
                invariant
                    i <= cv.len(),
                    forall|k: int| 0 <= k < i ==> constraint_holds(#[trigger] cv[k], ctx@),
                decreases cv.len() - i,
            {
                if !eval_constraint(&seg.constraints[i], ctx) {
                    proof {
                        assert(!constraint_holds(cv[i as int], ctx@));
                    }
                    return false;
                }
                i = i + 1;
            }
            true
        },
        MatchType::Any => {
            let mut i: usize = 0;
            while i < seg.constraints.len()
                invariant
                    i <= cv.len(),
                    forall|k: int| 0 <= k < i ==> !constraint_holds(#[trigger] cv[k], ctx@),
                decreases cv.len() - i,
            {
                if eval_constraint(&seg.constraints[i], ctx) {
                    proof {
                        assert(constraint_holds(cv[i as int], ctx@));
                    }
                    return true;
                }
                i = i + 1;
            }
            false
        },
    }
}

/// A rule's segment references against the context, executable side.
#[verifier::loop_isolation(false)]
fn rule_applies(rule: &TargetingRule, segments: &Vec<Segment>, ctx: &EvaluationContext) -> (r:
    bool)
    ensures
        r == rule_matches(rule@, views_of(*segments), ctx@),
{
    let ghost rs = rule@.segments;
    let mut i: usize = 0;
    while i < rule.segments.len()
        invariant
            i <= rs.len(),
            forall|k: int|
                0 <= k < i ==> rule_seg_matches(#[trigger] rs[k], views_of(*segments), ctx@),
        decreases rs.len() - i,
    {
        let seg_ref: RuleSegment = rule.segments[i];
        let m: bool = match lookup_segment(segments, seg_ref.segment_id) {
            Option::Some(s) => eval_segment(s, ctx),
            Option::None => false,
        };
        let hit: bool = if seg_ref.negate {
            !m
        } else {
            m
        };
        if !hit {
            proof {
                assert(!rule_seg_matches(rs[i as int], views_of(*segments), ctx@));
            }
            return false;
        }
        i = i + 1;
    }
    true
}

/// `insert_rule` inserts at the first position whose rule does not precede
/// the new rule.
proof fn lemma_insert_rule_at(s: Seq<TargetingRuleV>, r: TargetingRuleV, p: int)
    requires
        0 <= p <= s.len(),
        forall|k: int| 0 <= k < p ==> rule_precedes(#[trigger] s[k], r),
        p < s.len() ==> !rule_precedes(s[p], r),
    ensures
        insert_rule(s, r) == s.subrange(0, p) + seq![r] + s.subrange(p, s.len() as int),
    decreases p,
{
    if p == 0 {
        if s.len() == 0 {
            assert(insert_rule(s, r) =~= s.subrange(0, 0) + seq![r] + s.subrange(0, 0));
        } else {
            assert(insert_rule(s, r) =~= s.subrange(0, 0) + seq![r] + s.subrange(
                0,
                s.len() as int,
            ));
        }
    } else {
        let t = s.drop_first();
        assert(forall|k: int| 0 <= k < p - 1 ==> rule_precedes(#[trigger] t[k], r));
        lemma_insert_rule_at(t, r, p - 1);
        assert(insert_rule(s, r) == seq![s[0]] + insert_rule(t, r));
        assert(seq![s[0]] + (t.subrange(0, p - 1) + seq![r] + t.subrange(p - 1, t.len() as int))
            =~= s.subrange(0, p) + seq![r] + s.subrange(p, s.len() as int));
    }
}

/// The rules in evaluation order (ascending rank, ties by ascending id),
/// executable side.
#[verifier::loop_isolation(false)]
fn sorted_rules(rules: &Vec<TargetingRule>) -> (out: Vec<TargetingRule>)
    ensures
        views_of(out) == sort_rules(views_of(*rules)),
{
    let ghost rv = views_of(*rules);
    let mut out: Vec<TargetingRule> = Vec::new();
    let mut i: usize = 0;
    while i < rules.len()
        invariant
            i <= rv.len(),
            views_of(out) =~= sort_rules_pref(rv, i as int),
        decreases rv.len() - i,
    {
        let r: TargetingRule = rules[i].clone();
        let ghost before = views_of(out);
        let mut p: usize = 0;
        while p < out.len() && (out[p].rank < r.rank || (out[p].rank == r.rank && out[p].id
            <= r.id))
            invariant
                p <= before.len(),
                views_of(out) == before,
                out@.len() == before.len(),
                forall|k: int| 0 <= k < p ==> rule_precedes(#[trigger] before[k], r@),
            decreases before.len() - p,
        {
            p = p + 1;
        }
        proof {
            lemma_insert_rule_at(before, r@, p as int);
        }
        out.insert(p, r);
        proof {
            assert(views_of(out) =~= before.subrange(0, p as int) + seq![rv[i as int]]
                + before.subrange(p as int, before.len() as int));
            assert(views_of(out) =~= sort_rules_pref(rv, i as int + 1));
        }
        i = i + 1;
    }
    proof {
        assert(views_of(out) =~= sort_rules(rv));
    }
    out
}

/// The distribution a bucket value falls into, executable side.
#[verifier::loop_isolation(false)]
fn pick_distribution(ds: &Vec<RuleDistribution>, b: i32) -> (r: Option<u128>)
    ensures
        r == dist_pick(ds@, b as int, 0),
{
    let mut acc: i128 = 0;
    let mut i: usize = 0;
    proof {
        assert(ds@.skip(0) =~= ds@);
    }
    while i < ds.len()
        invariant
            i <= ds@.len(),
            -((i as int) * 0x8000_0000) <= acc as int <= (i as int) * 0x8000_0000,
            dist_pick(ds@, b as int, 0) == dist_pick(ds@.skip(i as int), b as int, acc as int),
        decreases ds@.len() - i,
    {
        proof {
            assert((i as int) * 0x8000_0000 <= 0xFFFF_FFFF_FFFF_FFFF * 0x8000_0000)
                by (nonlinear_arith)
                requires
                    0 <= i as int <= 0xFFFF_FFFF_FFFF_FFFF,
            ;
        }
        let c: i128 = acc + (ds[i].rollout_pct as i128);
        proof {
            assert(ds@.skip(i as int)[0] == ds@[i as int]);
        }
        if (b as i128) < c {
            return Option::Some(ds[i].variant_id);
        }
        proof {
            assert(ds@.skip(i as int).drop_first() =~= ds@.skip(i as int + 1));
        }
        acc = c;
        i = i + 1;
    }
    Option::None
}

/// Resolution of a variant id, executable side.
fn resolve_with_variant(
    flag: &FlagConfig,
    vid: u128,
    flag_key: &str,
    default_value: &JsonVal,
    reason: EvaluationReason,
    rule_id: Option<u128>,
) -> (r: EvaluationResult)
    ensures
        r@ == resolve_variant(flag@, vid, flag_key@, default_value@, reason, rule_id),
{
    match lookup_variant(&flag.variants, vid) {
        Option::Some(v) => EvaluationResult {
            flag_key: String::from_str(flag_key),
            variant_key: v.key.clone(),
            value: v.value.clone(),
            reason,
            rule_id,
        },
        Option::None => EvaluationResult {
            flag_key: String::from_str(flag_key),
            variant_key: String::new(),
            value: default_value.clone(),
            reason,
            rule_id,
        },
    }
}

/// Resolution of a matched rule, executable side.
fn resolve_rule(
    flag: &FlagConfig,
    rule: &TargetingRule,
    flag_key: &str,
    context: &EvaluationContext,
    default_value: &JsonVal,
) -> (r: EvaluationResult)
    ensures
        r@ == spec_resolve_rule(flag@, rule@, flag_key@, context@, default_value@),
{
    match rule.variant_id {
        Option::Some(vid) => resolve_with_variant(
            flag,
            vid,
            flag_key,
            default_value,
            EvaluationReason::RuleMatch,
            Option::Some(rule.id),
        ),
        Option::None => {
            if rule.distributions.len() > 0 {
                let tk: &str = match &context.targeting_key {
                    Option::Some(t) => t.as_str(),
                    Option::None => "__anonymous__",
                };
                let b: i32 = bucket(flag.key.as_str(), tk);
                match pick_distribution(&rule.distributions, b) {
                    Option::Some(vid) => resolve_with_variant(
                        flag,
                        vid,
                        flag_key,
                        default_value,
                        EvaluationReason::RuleMatch,
                        Option::Some(rule.id),
                    ),
                    Option::None => resolve_with_variant(
                        flag,
                        flag.environment.default_variant_id,
                        flag_key,
                        default_value,
                        EvaluationReason::Default,
                        Option::None,
                    ),
                }
            } else {
                resolve_with_variant(
                    flag,
                    flag.environment.default_variant_id,
                    flag_key,
                    default_value,
                    EvaluationReason::Default,
                    Option::None,
                )
            }
        },
    }
}

impl Evaluator {
    /// Evaluate a single flag against a context: overrides first, then
    /// rules by ascending rank, then the default variant. Total and
    /// deterministic: the result is a function of the snapshot, the flag
    /// key, the context and the default value alone.
    #[verifier::loop_isolation(false)]
    pub fn evaluate(
        &self,
        flag_key: &str,
        context: &EvaluationContext,
        default_value: &JsonVal,
    ) -> (r: EvaluationResult)
        ensures
            r@ == spec_evaluate(self@, flag_key@, context@, default_value@),
    {
        let flag: &FlagConfig = match lookup_flag(&self.flags, flag_key) {
            Option::Some(f) => f,
            Option::None => {
                return EvaluationResult {
                    flag_key: String::from_str(flag_key),
                    variant_key: String::new(),
                    value: default_value.clone(),
                    reason: EvaluationReason::FlagNotFound,
                    rule_id: Option::None,
                };
            },
        };

        if !flag.environment.enabled {
            return resolve_with_variant(
                flag,
                flag.environment.default_variant_id,
                flag_key,
                default_value,
                EvaluationReason::Disabled,
                Option::None,
            );
        }

        match &context.targeting_key {
            Option::Some(tk) => {
                match lookup_override(&flag.environment.overrides, tk.as_str()) {
                    Option::Some(ov) => {
                        return resolve_with_variant(
                            flag,
                            ov.variant_id,
                            flag_key,
                            default_value,
                            EvaluationReason::Override,
                            Option::None,
                        );
                    },
                    Option::None => {},
                }
            },
            Option::None => {},
        }

        let sorted: Vec<TargetingRule> = sorted_rules(&flag.environment.rules);
        let ghost sv = views_of(sorted);
        let mut i: usize = 0;
        while i < sorted.len()
            invariant
                i <= sv.len(),
                forall|k: int| 0 <= k < i ==> !rule_matches(#[trigger] sv[k], self@.segments, context@),
            decreases sv.len() - i,
        {
            if rule_applies(&sorted[i], &self.segments, context) {
                proof {
                    lemma_find_matching_rule_skip(sv, self@.segments, context@, i as int);
                    assert(sv.skip(i as int)[0] == sv[i as int]);
                }
                return resolve_rule(flag, &sorted[i], flag_key, context, default_value);
            }
            i = i + 1;
        }
        proof {
            lemma_find_matching_rule_skip(sv, self@.segments, context@, sv.len() as int);
            assert(sv.skip(sv.len() as int).len() == 0);
        }
        resolve_with_variant(
            flag,
            flag.environment.default_variant_id,
            flag_key,
            default_value,
            EvaluationReason::Default,
            Option::None,
        )
    }
}

} // verus!
