//! The configuration snapshot model: flags, variants, rules, segments,
//! overrides and evaluation inputs/outputs.
//!
//! Each data-carrying type has a mathematical view (`...V`) over character
//! sequences and JSON value models; contracts are stated over those views.

use vstd::prelude::*;

use crate::json::JsonV;
use crate::json::JsonVal;
use crate::strutil::str_eq;

verus! {

broadcast use vstd::string::group_string_axioms;

/// A flag type parsed from its wire name: unknown names coerce to
/// `Boolean`.
pub open spec fn spec_parse_flag_type(s: Seq<char>) -> FlagType {
    if s == "string"@ {
        FlagType::Text
    } else if s == "number"@ {
        FlagType::Number
    } else if s == "json"@ {
        FlagType::Json
    } else {
        FlagType::Boolean
    }
}

/// A match type parsed from its wire name: `"any"` means any, anything
/// else means all.
pub open spec fn spec_parse_match_type(s: Seq<char>) -> MatchType {
    if s == "any"@ {
        MatchType::Any
    } else {
        MatchType::All
    }
}

/// An operator parsed from its wire name: unknown names coerce to `Eq`.
pub open spec fn spec_parse_operator(s: Seq<char>) -> Operator {
    if s == "eq"@ {
        Operator::Eq
    } else if s == "neq"@ {
        Operator::Neq
    } else if s == "gt"@ {
        Operator::Gt
    } else if s == "gte"@ {
        Operator::Gte
    } else if s == "lt"@ {
        Operator::Lt
    } else if s == "lte"@ {
        Operator::Lte
    } else if s == "in"@ {
        Operator::In
    } else if s == "not_in"@ {
        Operator::NotIn
    } else if s == "contains"@ {
        Operator::Contains
    } else if s == "starts_with"@ {
        Operator::StartsWith
    } else if s == "ends_with"@ {
        Operator::EndsWith
    } else if s == "matches"@ {
        Operator::Matches
    } else if s == "semver_eq"@ {
        Operator::SemverEq
    } else if s == "semver_gt"@ {
        Operator::SemverGt
    } else if s == "semver_lt"@ {
        Operator::SemverLt
    } else {
        Operator::Eq
    }
}

/// The view of a vector of viewable values: the sequence of their views.
pub open spec fn views_of<T: View>(v: Vec<T>) -> Seq<T::V> {
    Seq::new(v@.len(), |i: int| v@[i].view())
}

/// The view of a sequence of strings: the sequence of their character
/// sequences.
pub open spec fn str_views(s: Seq<String>) -> Seq<Seq<char>> {
    Seq::new(s.len(), |i: int| s[i]@)
}

/// The view of an optional string.
pub open spec fn opt_str_view(o: Option<String>) -> Option<Seq<char>> {
    match o {
        Option::Some(s) => Option::Some(s@),
        Option::None => Option::None,
    }
}

/// The type of value a flag can hold.
#[derive(Debug, Clone, Copy, PartialEq, Eq, Structural)]
pub enum FlagType {
    Boolean,
    Text,
    Number,
    Json,
}

/// How constraints are combined within a segment.
#[derive(Debug, Clone, Copy, PartialEq, Eq, Structural)]
pub enum MatchType {
    All,
    Any,
}

/// All supported comparison operators.
#[derive(Debug, Clone, Copy, PartialEq, Eq, Structural)]
pub enum Operator {
    Eq,
    Neq,
    Gt,
    Gte,
    Lt,
    Lte,
    In,
    NotIn,
    Contains,
    StartsWith,
    EndsWith,
    Matches,
    SemverEq,
    SemverGt,
    SemverLt,
}

/// Why a particular variant was chosen.
#[derive(Debug, Clone, Copy, PartialEq, Eq, Structural)]
pub enum EvaluationReason {
    FlagNotFound,
    Disabled,
    Override,
    RuleMatch,
    Default,
    Error,
}

/// Parse a flag type from its wire name: unknown names coerce to
/// `Boolean`.
pub fn parse_flag_type(s: &str) -> (t: FlagType)
    ensures
        t == spec_parse_flag_type(s@),
{
    if str_eq(s, "string") {
        FlagType::Text
    } else if str_eq(s, "number") {
        FlagType::Number
    } else if str_eq(s, "json") {
        FlagType::Json
    } else {
        FlagType::Boolean
    }
}

/// The wire name of a flag type; parsing it back returns the flag type.
pub fn flag_type_str(t: &FlagType) -> (s: &'static str)
    ensures
        spec_parse_flag_type(s@) == *t,
{
    proof {
        reveal_strlit("boolean");
        reveal_strlit("string");
        reveal_strlit("number");
        reveal_strlit("json");
        assert("boolean"@.len() == 7);
        assert("string"@.len() == 6);
        assert("number"@.len() == 6);
        assert("json"@.len() == 4);
        assert("string"@[0] == 's');
        assert("number"@[0] == 'n');
    }
    match t {
        FlagType::Boolean => "boolean",
        FlagType::Text => "string",
        FlagType::Number => "number",
        FlagType::Json => "json",
    }
}

/// Parse a match type from its wire name: `"any"` means any, anything else
/// means all.
pub fn parse_match_type(s: &str) -> (t: MatchType)
    ensures
        t == spec_parse_match_type(s@),
{
    if str_eq(s, "any") {
        MatchType::Any
    } else {
        MatchType::All
    }
}

/// The wire name of a match type; parsing it back returns the match type.
pub fn match_type_str(t: &MatchType) -> (s: &'static str)
    ensures
        spec_parse_match_type(s@) == *t,
{
    proof {
        reveal_strlit("all");
        reveal_strlit("any");
        assert("all"@[1] == 'l');
        assert("any"@[1] == 'n');
    }
    match t {
        MatchType::All => "all",
        MatchType::Any => "any",
    }
}

/// Parse an operator from its wire name: unknown names coerce to `Eq`.
pub fn parse_operator(s: &str) -> (op: Operator)
    ensures
        op == spec_parse_operator(s@),
{
    if str_eq(s, "eq") {
        Operator::Eq
    } else if str_eq(s, "neq") {
        Operator::Neq
    } else if str_eq(s, "gt") {
        Operator::Gt
    } else if str_eq(s, "gte") {
        Operator::Gte
    } else if str_eq(s, "lt") {
        Operator::Lt
    } else if str_eq(s, "lte") {
        Operator::Lte
    } else if str_eq(s, "in") {
        Operator::In
    } else if str_eq(s, "not_in") {
        Operator::NotIn
    } else if str_eq(s, "contains") {
        Operator::Contains
    } else if str_eq(s, "starts_with") {
        Operator::StartsWith
    } else if str_eq(s, "ends_with") {
        Operator::EndsWith
    } else if str_eq(s, "matches") {
        Operator::Matches
    } else if str_eq(s, "semver_eq") {
        Operator::SemverEq
    } else if str_eq(s, "semver_gt") {
        Operator::SemverGt
    } else if str_eq(s, "semver_lt") {
        Operator::SemverLt
    } else {
        Operator::Eq
    }
}

/// The wire name of an operator; parsing it back returns the operator.
pub fn operator_str(op: &Operator) -> (s: &'static str)
    ensures
        spec_parse_operator(s@) == *op,
{
    proof {
        reveal_strlit("eq");
        reveal_strlit("neq");
        reveal_strlit("gt");
        reveal_strlit("gte");
        reveal_strlit("lt");
        reveal_strlit("lte");
        reveal_strlit("in");
        reveal_strlit("not_in");
        reveal_strlit("contains");
        reveal_strlit("starts_with");
        reveal_strlit("ends_with");
        reveal_strlit("matches");
        reveal_strlit("semver_eq");
        reveal_strlit("semver_gt");
        reveal_strlit("semver_lt");
        assert("eq"@.len() == 2 && "eq"@[0] == 'e');
        assert("neq"@.len() == 3 && "neq"@[0] == 'n');
        assert("gt"@.len() == 2 && "gt"@[0] == 'g');
        assert("gte"@.len() == 3 && "gte"@[0] == 'g');
        assert("lt"@.len() == 2 && "lt"@[0] == 'l');
        assert("lte"@.len() == 3 && "lte"@[0] == 'l');
        assert("in"@.len() == 2 && "in"@[0] == 'i');
        assert("not_in"@.len() == 6 && "not_in"@[0] == 'n');
        assert("contains"@.len() == 8 && "contains"@[0] == 'c');
        assert("starts_with"@.len() == 11 && "starts_with"@[0] == 's');
        assert("ends_with"@.len() == 9 && "ends_with"@[0] == 'e');
        assert("matches"@.len() == 7 && "matches"@[0] == 'm');
        assert("semver_eq"@.len() == 9 && "semver_eq"@[0] == 's' && "semver_eq"@[7] == 'e');
        assert("semver_gt"@.len() == 9 && "semver_gt"@[0] == 's' && "semver_gt"@[7] == 'g');
        assert("semver_lt"@.len() == 9 && "semver_lt"@[0] == 's' && "semver_lt"@[7] == 'l');
    }
    match op {
        Operator::Eq => "eq",
        Operator::Neq => "neq",
        Operator::Gt => "gt",
        Operator::Gte => "gte",
        Operator::Lt => "lt",
        Operator::Lte => "lte",
        Operator::In => "in",
        Operator::NotIn => "not_in",
        Operator::Contains => "contains",
        Operator::StartsWith => "starts_with",
        Operator::EndsWith => "ends_with",
        Operator::Matches => "matches",
        Operator::SemverEq => "semver_eq",
        Operator::SemverGt => "semver_gt",
        Operator::SemverLt => "semver_lt",
    }
}

/// A single variant of a feature flag.
#[derive(Debug, PartialEq, Eq)]
pub struct Variant {
    pub id: u128,
    pub key: String,
    pub value: JsonVal,
    pub description: Option<String>,
}

/// The model of a variant.
pub struct VariantV {
    pub id: u128,
    pub key: Seq<char>,
    pub value: JsonV,
    pub description: Option<Seq<char>>,
}

impl View for Variant {
    type V = VariantV;

    open spec fn view(&self) -> VariantV {
        VariantV {
            id: self.id,
            key: self.key@,
            value: self.value@,
            description: opt_str_view(self.description),
        }
    }
}

/// An individual user override.
#[derive(Debug, PartialEq, Eq)]
pub struct FlagOverride {
    pub targeting_key: String,
    pub variant_id: u128,
}

impl Clone for Variant {
    /// Cloning preserves the model.
    fn clone(&self) -> (res: Self)
        ensures
            res@ == self@,
    {
        Variant {
            id: self.id,
            key: self.key.clone(),
            value: self.value.clone(),
            description: match &self.description {
                Option::Some(d) => Option::Some(d.clone()),
                Option::None => Option::None,
            },
        }
    }
}

/// The model of an override.
pub struct FlagOverrideV {
    pub targeting_key: Seq<char>,
    pub variant_id: u128,
}

impl View for FlagOverride {
    type V = FlagOverrideV;

    open spec fn view(&self) -> FlagOverrideV {
        FlagOverrideV { targeting_key: self.targeting_key@, variant_id: self.variant_id }
    }
}

impl Clone for FlagOverride {
    /// Cloning preserves the model.
    fn clone(&self) -> (res: Self)
        ensures
            res@ == self@,
    {
        FlagOverride {
            targeting_key: self.targeting_key.clone(),
            variant_id: self.variant_id,
        }
    }
}

/// A segment reference within a rule.
#[derive(Debug, Clone, Copy, PartialEq, Eq, Structural)]
pub struct RuleSegment {
    pub segment_id: u128,
    pub negate: bool,
}

/// Distribution bucket for percentage rollouts. `rollout_pct` is in basis
/// points (0 to 10000).
#[derive(Debug, Clone, Copy, PartialEq, Eq, Structural)]
pub struct RuleDistribution {
    pub variant_id: u128,
    pub rollout_pct: i32,
}

/// A targeting rule with optional segment matching and distribution.
#[derive(Debug, PartialEq, Eq)]
pub struct TargetingRule {
    pub id: u128,
    pub rank: i32,
    pub description: Option<String>,
    pub segments: Vec<RuleSegment>,
    pub distributions: Vec<RuleDistribution>,
    /// If no distributions, serve this variant directly.
    pub variant_id: Option<u128>,
}

/// The model of a targeting rule.
pub struct TargetingRuleV {
    pub id: u128,
    pub rank: i32,
    pub description: Option<Seq<char>>,
    pub segments: Seq<RuleSegment>,
    pub distributions: Seq<RuleDistribution>,
    pub variant_id: Option<u128>,
}

impl View for TargetingRule {
    type V = TargetingRuleV;

    open spec fn view(&self) -> TargetingRuleV {
        TargetingRuleV {
            id: self.id,
            rank: self.rank,
            description: opt_str_view(self.description),
            segments: self.segments@,
            distributions: self.distributions@,
            variant_id: self.variant_id,
        }
    }
}

/// Copy a vector of plain values.
fn copy_vec<T: Copy>(v: &Vec<T>) -> (out: Vec<T>)
    ensures
        out@ == v@,
{
    let mut out: Vec<T> = Vec::new();
    let mut i: usize = 0;
    while i < v.len()
        invariant
            i <= v@.len(),
            out@ =~= v@.subrange(0, i as int),
        decreases v@.len() - i,
    {
        out.push(v[i]);
        i = i + 1;
        assert(out@ =~= v@.subrange(0, i as int));
    }
    proof {
        assert(out@ =~= v@);
    }
    out
}

impl Clone for TargetingRule {
    /// Cloning preserves the model.
    fn clone(&self) -> (res: Self)
        ensures
            res@ == self@,
    {
        TargetingRule {
            id: self.id,
            rank: self.rank,
            description: match &self.description {
                Option::Some(d) => Option::Some(d.clone()),
                Option::None => Option::None,
            },
            segments: copy_vec(&self.segments),
            distributions: copy_vec(&self.distributions),
            variant_id: self.variant_id,
        }
    }
}

/// Per-environment flag configuration.
#[derive(Debug, Clone, PartialEq, Eq)]
pub struct FlagEnvironment {
    pub enabled: bool,
    pub default_variant_id: u128,
    pub rules: Vec<TargetingRule>,
    pub overrides: Vec<FlagOverride>,
}

/// The model of a per-environment flag configuration.
pub struct FlagEnvironmentV {
    pub enabled: bool,
    pub default_variant_id: u128,
    pub rules: Seq<TargetingRuleV>,
    pub overrides: Seq<FlagOverrideV>,
}

impl View for FlagEnvironment {
    type V = FlagEnvironmentV;

    open spec fn view(&self) -> FlagEnvironmentV {
        FlagEnvironmentV {
            enabled: self.enabled,
            default_variant_id: self.default_variant_id,
            rules: views_of(self.rules),
            overrides: views_of(self.overrides),
        }
    }
}

/// A single constraint within a segment.
#[derive(Debug, Clone, PartialEq, Eq)]
pub struct SegmentConstraint {
    pub attribute: String,
    pub operator: Operator,
    pub values: Vec<String>,
}

/// The model of a segment constraint.
pub struct SegmentConstraintV {
    pub attribute: Seq<char>,
    pub operator: Operator,
    pub values: Seq<Seq<char>>,
}

impl View for SegmentConstraint {
    type V = SegmentConstraintV;

    open spec fn view(&self) -> SegmentConstraintV {
        SegmentConstraintV {
            attribute: self.attribute@,
            operator: self.operator,
            values: str_views(self.values@),
        }
    }
}

/// A reusable segment with constraints.
#[derive(Debug, Clone, PartialEq, Eq)]
pub struct Segment {
    pub id: u128,
    pub key: String,
    pub name: String,
    pub match_type: MatchType,
    pub constraints: Vec<SegmentConstraint>,
}

/// The model of a segment.
pub struct SegmentV {
    pub id: u128,
    pub key: Seq<char>,
    pub name: Seq<char>,
    pub match_type: MatchType,
    pub constraints: Seq<SegmentConstraintV>,
}

impl View for Segment {
    type V = SegmentV;

    open spec fn view(&self) -> SegmentV {
        SegmentV {
            id: self.id,
            key: self.key@,
            name: self.name@,
            match_type: self.match_type,
            constraints: views_of(self.constraints),
        }
    }
}

/// Complete flag configuration for evaluation.
#[derive(Debug, Clone, PartialEq, Eq)]
pub struct FlagConfig {
    pub key: String,
    pub flag_type: FlagType,
    pub variants: Vec<Variant>,
    pub environment: FlagEnvironment,
}

/// The model of a flag configuration.
pub struct FlagConfigV {
    pub key: Seq<char>,
    pub flag_type: FlagType,
    pub variants: Seq<VariantV>,
    pub environment: FlagEnvironmentV,
}

impl View for FlagConfig {
    type V = FlagConfigV;

    open spec fn view(&self) -> FlagConfigV {
        FlagConfigV {
            key: self.key@,
            flag_type: self.flag_type,
            variants: views_of(self.variants),
            environment: self.environment@,
        }
    }
}

/// The evaluation context provided by the caller. Attributes are an
/// association list; on duplicate names the first entry wins.
#[derive(Debug, Clone, PartialEq, Eq)]
pub struct EvaluationContext {
    /// The primary key for targeting (usually user ID).
    pub targeting_key: Option<String>,
    /// Arbitrary attributes for segment matching.
    pub attributes: Vec<(String, JsonVal)>,
}

/// The model of an evaluation context.
pub struct EvaluationContextV {
    pub targeting_key: Option<Seq<char>>,
    pub attributes: Seq<(Seq<char>, JsonV)>,
}

impl View for EvaluationContext {
    type V = EvaluationContextV;

    open spec fn view(&self) -> EvaluationContextV {
        EvaluationContextV {
            targeting_key: opt_str_view(self.targeting_key),
            attributes: Seq::new(
                self.attributes@.len(),
                |i: int| (self.attributes@[i].0@, self.attributes@[i].1@),
            ),
        }
    }
}

impl Default for EvaluationContext {
    /// The empty context: no targeting key and no attributes.
    fn default() -> (result: Self)
        ensures
            result@.targeting_key is None,
            result@.attributes.len() == 0,
    {
        EvaluationContext { targeting_key: Option::None, attributes: Vec::new() }
    }
}

/// The result of evaluating a flag.
#[derive(Debug, Clone, PartialEq, Eq)]
pub struct EvaluationResult {
    pub flag_key: String,
    pub variant_key: String,
    pub value: JsonVal,
    pub reason: EvaluationReason,
    pub rule_id: Option<u128>,
}

/// The model of an evaluation result.
pub struct EvaluationResultV {
    pub flag_key: Seq<char>,
    pub variant_key: Seq<char>,
    pub value: JsonV,
    pub reason: EvaluationReason,
    pub rule_id: Option<u128>,
}

impl View for EvaluationResult {
    type V = EvaluationResultV;

    open spec fn view(&self) -> EvaluationResultV {
        EvaluationResultV {
            flag_key: self.flag_key@,
            variant_key: self.variant_key@,
            value: self.value@,
            reason: self.reason,
            rule_id: self.rule_id,
        }
    }
}

/// Full configuration snapshot sent to server SDKs. Flags and segments are
/// kept in storage order; flag keys and segment ids are unique.
#[derive(Debug, Clone, PartialEq, Eq)]
pub struct FlagsConfig {
    pub flags: Vec<FlagConfig>,
    pub segments: Vec<Segment>,
    pub version: i64,
}

/// The model of a configuration snapshot.
pub struct FlagsConfigV {
    pub flags: Seq<FlagConfigV>,
    pub segments: Seq<SegmentV>,
    pub version: i64,
}

impl View for FlagsConfig {
    type V = FlagsConfigV;

    open spec fn view(&self) -> FlagsConfigV {
        FlagsConfigV {
            flags: views_of(self.flags),
            segments: views_of(self.segments),
            version: self.version,
        }
    }
}

} // verus!
