//! The snapshot builder.
//!
//! Materializes a self-contained `FlagsConfig` for one (project,
//! environment) pair from plain rows read out of the durable store: flags
//! without a per-environment row are omitted, a missing or dangling
//! default variant id falls back to the first variant, and the stored
//! names of flag types,
//! match types and operators are coerced to their closed enums.

use vstd::prelude::*;

use crate::evaluator::find_variant;
use crate::evaluator::lookup_variant;
use crate::types::spec_parse_flag_type;
use crate::types::spec_parse_match_type;
use crate::types::spec_parse_operator;
use crate::types::str_views;
use crate::types::views_of;
use crate::types::parse_flag_type;
use crate::types::parse_match_type;
use crate::types::parse_operator;
use crate::types::FlagConfig;
use crate::types::FlagConfigV;
use crate::types::FlagEnvironment;
use crate::types::FlagEnvironmentV;
use crate::types::FlagOverride;
use crate::types::FlagsConfig;
use crate::types::Segment;
use crate::types::SegmentConstraint;
use crate::types::SegmentV;
use crate::types::TargetingRule;
use crate::types::Variant;
use crate::types::VariantV;

verus! {

/// What the store holds for one flag in one project, before assembly.
pub struct FlagSource {
    pub key: String,
    /// The stored name of the flag's type.
    pub flag_type: String,
    pub variants: Vec<Variant>,
    /// The flag's row for the target environment, if it has one.
    pub environment: Option<FlagEnvironmentSource>,
}

/// What the store holds for one (flag, environment) row.
pub struct FlagEnvironmentSource {
    pub enabled: bool,
    /// The stored default variant reference, possibly absent or dangling.
    pub default_variant_id: Option<u128>,
    pub rules: Vec<TargetingRule>,
    pub overrides: Vec<FlagOverride>,
}

/// What the store holds for one segment constraint.
pub struct ConstraintSource {
    pub attribute: String,
    /// The stored name of the operator.
    pub operator: String,
    pub values: Vec<String>,
}

/// What the store holds for one segment.
pub struct SegmentSource {
    pub id: u128,
    pub key: String,
    pub name: String,
    /// The stored name of the match type.
    pub match_type: String,
    pub constraints: Vec<ConstraintSource>,
}

/// The model of a per-environment source row.
pub struct FlagEnvironmentSourceV {
    pub enabled: bool,
    pub default_variant_id: Option<u128>,
    pub rules: Seq<crate::types::TargetingRuleV>,
    pub overrides: Seq<crate::types::FlagOverrideV>,
}

/// The model of a flag source.
pub struct FlagSourceV {
    pub key: Seq<char>,
    pub flag_type: Seq<char>,
    pub variants: Seq<VariantV>,
    pub environment: Option<FlagEnvironmentSourceV>,
}

impl View for FlagEnvironmentSource {
    type V = FlagEnvironmentSourceV;

    open spec fn view(&self) -> FlagEnvironmentSourceV {
        FlagEnvironmentSourceV {
            enabled: self.enabled,
            default_variant_id: self.default_variant_id,
            rules: views_of(self.rules),
            overrides: views_of(self.overrides),
        }
    }
}

impl View for FlagSource {
    type V = FlagSourceV;

    open spec fn view(&self) -> FlagSourceV {
        FlagSourceV {
            key: self.key@,
            flag_type: self.flag_type@,
            variants: views_of(self.variants),
            environment: match self.environment {
                Option::Some(e) => Option::Some(e@),
                Option::None => Option::None,
            },
        }
    }
}

/// The model of a constraint source.
pub struct ConstraintSourceV {
    pub attribute: Seq<char>,
    pub operator: Seq<char>,
    pub values: Seq<Seq<char>>,
}

/// The model of a segment source.
pub struct SegmentSourceV {
    pub id: u128,
    pub key: Seq<char>,
    pub name: Seq<char>,
    pub match_type: Seq<char>,
    pub constraints: Seq<ConstraintSourceV>,
}

impl View for ConstraintSource {
    type V = ConstraintSourceV;

    open spec fn view(&self) -> ConstraintSourceV {
        ConstraintSourceV {
            attribute: self.attribute@,
            operator: self.operator@,
            values: str_views(self.values@),
        }
    }
}

impl View for SegmentSource {
    type V = SegmentSourceV;

    open spec fn view(&self) -> SegmentSourceV {
        SegmentSourceV {
            id: self.id,
            key: self.key@,
            name: self.name@,
            match_type: self.match_type@,
            constraints: views_of(self.constraints),
        }
    }
}

/// The first variant's id, or the nil id when there are no variants.
pub open spec fn first_variant_or_nil(variants: Seq<VariantV>) -> u128 {
    if variants.len() > 0 {
        variants[0].id
    } else {
        0
    }
}

/// The default variant the assembled flag falls back to: the stored
/// reference when it resolves among the flag's variants; a missing or
/// dangling reference is substituted by the first variant's id, or the nil
/// id when there are no variants.
pub open spec fn fallback_default_variant(
    stored: Option<u128>,
    variants: Seq<VariantV>,
) -> u128 {
    match stored {
        Option::Some(id) => if find_variant(variants, id) is Some {
            id
        } else {
            first_variant_or_nil(variants)
        },
        Option::None => first_variant_or_nil(variants),
    }
}

/// The assembled flag for one source, when it has a row for the target
/// environment.
pub open spec fn build_flag(f: FlagSourceV) -> Option<FlagConfigV> {
    match f.environment {
        Option::None => Option::None,
        Option::Some(e) => Option::Some(
            FlagConfigV {
                key: f.key,
                flag_type: spec_parse_flag_type(f.flag_type),
                variants: f.variants,
                environment: FlagEnvironmentV {
                    enabled: e.enabled,
                    default_variant_id: fallback_default_variant(
                        e.default_variant_id,
                        f.variants,
                    ),
                    rules: e.rules,
                    overrides: e.overrides,
                },
            },
        ),
    }
}

/// The assembled flags, in storage order, omitting flags without an
/// environment row.
pub open spec fn build_flags(fs: Seq<FlagSourceV>) -> Seq<FlagConfigV>
    decreases fs.len(),
{
    if fs.len() == 0 {
        Seq::empty()
    } else {
        match build_flag(fs[0]) {
            Option::Some(c) => seq![c] + build_flags(fs.drop_first()),
            Option::None => build_flags(fs.drop_first()),
        }
    }
}

/// The assembled segment for one source.
pub open spec fn build_segment(s: SegmentSourceV) -> SegmentV {
    SegmentV {
        id: s.id,
        key: s.key,
        name: s.name,
        match_type: spec_parse_match_type(s.match_type),
        constraints: Seq::new(
            s.constraints.len(),
            |i: int| crate::types::SegmentConstraintV {
                attribute: s.constraints[i].attribute,
                operator: spec_parse_operator(s.constraints[i].operator),
                values: s.constraints[i].values,
            },
        ),
    }
}

proof fn lemma_build_flags_snoc(fs: Seq<FlagSourceV>, i: int)
    requires
        0 <= i < fs.len(),
    ensures
        build_flags(fs.subrange(0, i + 1)) == build_flags(fs.subrange(0, i)) + (
        match build_flag(fs[i]) {
            Option::Some(c) => seq![c],
            Option::None => Seq::<FlagConfigV>::empty(),
        }),
    decreases i,
{
    let a = fs.subrange(0, i + 1);
    let b = fs.subrange(0, i);
    if i == 0 {
        assert(a.len() == 1);
        assert(a[0] == fs[0]);
        assert(a.drop_first() =~= Seq::<FlagSourceV>::empty());
        assert(b =~= Seq::<FlagSourceV>::empty());
        assert(build_flags(Seq::<FlagSourceV>::empty()) =~= Seq::<FlagConfigV>::empty());
        match build_flag(fs[0]) {
            Option::Some(c) => {
                assert(build_flags(a) == seq![c] + build_flags(a.drop_first()));
                assert(build_flags(a) =~= seq![c]);
                assert(build_flags(b) + seq![c] =~= seq![c]);
            },
            Option::None => {
                assert(build_flags(a) == build_flags(a.drop_first()));
                assert(build_flags(a) =~= Seq::<FlagConfigV>::empty());
                assert(build_flags(b) + Seq::<FlagConfigV>::empty() =~= Seq::<
                    FlagConfigV,
                >::empty());
            },
        }
    } else {
        let t = fs.drop_first();
        lemma_build_flags_snoc(t, i - 1);
        assert(a.drop_first() =~= t.subrange(0, i));
        assert(b.drop_first() =~= t.subrange(0, i - 1));
        assert(a[0] == fs[0]);
        assert(b[0] == fs[0]);
        assert(t[i - 1] == fs[i]);
        match build_flag(fs[0]) {
            Option::Some(c) => {
                assert(build_flags(a) == seq![c] + build_flags(t.subrange(0, i)));
                assert(build_flags(b) == seq![c] + build_flags(t.subrange(0, i - 1)));
                match build_flag(fs[i]) {
                    Option::Some(d) => {
                        assert((seq![c] + (build_flags(t.subrange(0, i - 1)) + seq![d])) =~= (
                        seq![c] + build_flags(t.subrange(0, i - 1))) + seq![d]);
                    },
                    Option::None => {
                        assert((seq![c] + (build_flags(t.subrange(0, i - 1))
                            + Seq::<FlagConfigV>::empty())) =~= (seq![c] + build_flags(
                            t.subrange(0, i - 1),
                        )) + Seq::<FlagConfigV>::empty());
                    },
                }
            },
            Option::None => {
                assert(build_flags(a) == build_flags(t.subrange(0, i)));
                assert(build_flags(b) == build_flags(t.subrange(0, i - 1)));
            },
        }
    }
}


/// Copy a vector of variants, preserving its model.
#[verifier::loop_isolation(false)]
fn clone_variants(src: &Vec<Variant>) -> (out: Vec<Variant>)
    ensures
        views_of(out) == views_of(*src),
{
    let mut out: Vec<Variant> = Vec::new();
    let mut i: usize = 0;
    while i < src.len()
        invariant
            i <= src@.len(),
            out@.len() == i,
            forall|k: int| 0 <= k < i ==> views_of(out)[k] == #[trigger] views_of(*src)[k],
        decreases src@.len() - i,
    {
        out.push(src[i].clone());
        i = i + 1;
    }
    proof {
        assert(views_of(out) =~= views_of(*src));
    }
    out
}

/// Copy a vector of rules, preserving its model.
#[verifier::loop_isolation(false)]
fn clone_rules(src: &Vec<TargetingRule>) -> (out: Vec<TargetingRule>)
    ensures
        views_of(out) == views_of(*src),
{
    let mut out: Vec<TargetingRule> = Vec::new();
    let mut i: usize = 0;
    while i < src.len()
        invariant
            i <= src@.len(),
            out@.len() == i,
            forall|k: int| 0 <= k < i ==> views_of(out)[k] == #[trigger] views_of(*src)[k],
        decreases src@.len() - i,
    {
        out.push(src[i].clone());
        i = i + 1;
    }
    proof {
        assert(views_of(out) =~= views_of(*src));
    }
    out
}

/// Copy a vector of overrides, preserving its model.
#[verifier::loop_isolation(false)]
fn clone_overrides(src: &Vec<FlagOverride>) -> (out: Vec<FlagOverride>)
    ensures
        views_of(out) == views_of(*src),
{
    let mut out: Vec<FlagOverride> = Vec::new();
    let mut i: usize = 0;
    while i < src.len()
        invariant
            i <= src@.len(),
            out@.len() == i,
            forall|k: int| 0 <= k < i ==> views_of(out)[k] == #[trigger] views_of(*src)[k],
        decreases src@.len() - i,
    {
        out.push(src[i].clone());
        i = i + 1;
    }
    proof {
        assert(views_of(out) =~= views_of(*src));
    }
    out
}

/// Copy a vector of strings, preserving its model.
#[verifier::loop_isolation(false)]
fn clone_strings(src: &Vec<String>) -> (out: Vec<String>)
    ensures
        str_views(out@) == str_views(src@),
{
    let mut out: Vec<String> = Vec::new();
    let mut i: usize = 0;
    while i < src.len()
        invariant
            i <= src@.len(),
            out@.len() == i,
            forall|k: int| 0 <= k < i ==> str_views(out@)[k] == #[trigger] str_views(src@)[k],
        decreases src@.len() - i,
    {
        out.push(src[i].clone());
        i = i + 1;
    }
    proof {
        assert(str_views(out@) =~= str_views(src@));
    }
    out
}

/// Assemble one flag from its source, when it has an environment row.
fn assemble_flag(f: &FlagSource) -> (r: Option<FlagConfig>)
    ensures
        match r {
            Option::Some(c) => build_flag(f@) == Option::Some(c@),
            Option::None => build_flag(f@) is None,
        },
{
    let f_owned = f;
    match &f_owned.environment {
        Option::None => Option::None,
        Option::Some(env) => {
            let fallback: u128 = if f_owned.variants.len() > 0 {
                f_owned.variants[0].id
            } else {
                0
            };
            let default_variant_id: u128 = match env.default_variant_id {
                Option::Some(id) => match lookup_variant(&f_owned.variants, id) {
                    Option::Some(_) => id,
                    Option::None => fallback,
                },
                Option::None => fallback,
            };
            let variants: Vec<Variant> = clone_variants(&f_owned.variants);
            let rules: Vec<TargetingRule> = clone_rules(&env.rules);
            let overrides: Vec<FlagOverride> = clone_overrides(&env.overrides);
            Option::Some(
                FlagConfig {
                    key: f_owned.key.clone(),
                    flag_type: parse_flag_type(f_owned.flag_type.as_str()),
                    variants,
                    environment: FlagEnvironment {
                        enabled: env.enabled,
                        default_variant_id,
                        rules,
                        overrides,
                    },
                },
            )
        },
    }
}

/// Assemble one segment from its source.
#[verifier::loop_isolation(false)]
fn assemble_segment(s: &SegmentSource) -> (r: Segment)
    ensures
        r@ == build_segment(s@),
{
    let mut constraints: Vec<SegmentConstraint> = Vec::new();
    let mut i: usize = 0;
    while i < s.constraints.len()
        invariant
            i <= s.constraints@.len(),
            views_of(constraints) =~= build_segment(s@).constraints.subrange(0, i as int),
        decreases s.constraints@.len() - i,
    {
        let src: &ConstraintSource = &s.constraints[i];
        let values: Vec<String> = clone_strings(&src.values);
        constraints.push(
            SegmentConstraint {
                attribute: src.attribute.clone(),
                operator: parse_operator(src.operator.as_str()),
                values,
            },
        );
        i = i + 1;
        proof {
            assert(views_of(constraints) =~= build_segment(s@).constraints.subrange(
                0,
                i as int,
            ));
        }
    }
    proof {
        assert(views_of(constraints) =~= build_segment(s@).constraints);
    }
    Segment {
        id: s.id,
        key: s.key.clone(),
        name: s.name.clone(),
        match_type: parse_match_type(s.match_type.as_str()),
        constraints,
    }
}

/// Materialize a self-contained snapshot from the rows the store returned:
/// flags without an environment row are omitted in storage order, stored
/// enum names are coerced, a missing default variant reference falls back
/// to the first variant, and a missing version row means version 1.
#[verifier::loop_isolation(false)]
pub fn build_flags_config(
    flags: Vec<FlagSource>,
    segments: Vec<SegmentSource>,
    version: Option<i64>,
) -> (c: FlagsConfig)
    ensures
        c@.flags == build_flags(views_of(flags)),
        c@.segments.len() == segments@.len(),
        forall|i: int|
            0 <= i < segments@.len() ==> c@.segments[i] == build_segment(
                #[trigger] views_of(segments)[i],
            ),
        c@.version == match version {
            Option::Some(v) => v,
            Option::None => 1,
        },
{
    let ghost fsv = views_of(flags);
    let mut out_flags: Vec<FlagConfig> = Vec::new();
    let mut i: usize = 0;
    proof {
        assert(fsv.subrange(0, 0) =~= Seq::<FlagSourceV>::empty());
    }
    while i < flags.len()
        invariant
            i <= fsv.len(),
            views_of(out_flags) =~= build_flags(fsv.subrange(0, i as int)),
        decreases fsv.len() - i,
    {
        proof {
            lemma_build_flags_snoc(fsv, i as int);
        }
        match assemble_flag(&flags[i]) {
            Option::Some(c) => {
                out_flags.push(c);
            },
            Option::None => {},
        }
        i = i + 1;
        proof {
            assert(views_of(out_flags) =~= build_flags(fsv.subrange(0, i as int)));
        }
    }
    proof {
        assert(fsv.subrange(0, fsv.len() as int) =~= fsv);
    }

    let mut out_segments: Vec<Segment> = Vec::new();
    let mut k: usize = 0;
    while k < segments.len()
        invariant
            k <= segments@.len(),
            views_of(out_segments).len() == k,
            forall|m: int|
                0 <= m < k ==> views_of(out_segments)[m] == build_segment(
                    #[trigger] views_of(segments)[m],
                ),
        decreases segments@.len() - k,
    {
        out_segments.push(assemble_segment(&segments[k]));
        k = k + 1;
    }

    let v: i64 = match version {
        Option::Some(v) => v,
        Option::None => 1,
    };
    FlagsConfig { flags: out_flags, segments: out_segments, version: v }
}


/// The first variant whose key equals the given key, in storage order.
pub open spec fn find_variant_by_key(variants: Seq<VariantV>, key: Seq<char>) -> Option<
    VariantV,
>
    decreases variants.len(),
{
    if variants.len() == 0 {
        Option::None
    } else if variants[0].key == key {
        Option::Some(variants[0])
    } else {
        find_variant_by_key(variants.drop_first(), key)
    }
}

proof fn lemma_find_variant_by_key_skip(variants: Seq<VariantV>, key: Seq<char>, i: int)
    requires
        0 <= i <= variants.len(),
        forall|k: int| 0 <= k < i ==> (#[trigger] variants[k]).key != key,
    ensures
        find_variant_by_key(variants, key) == find_variant_by_key(variants.skip(i), key),
    decreases i,
{
    if i == 0 {
        assert(variants.skip(0) =~= variants);
    } else {
        let t = variants.drop_first();
        assert(t =~= variants.skip(1));
        assert(forall|k: int| 0 <= k < i - 1 ==> (#[trigger] t[k]).key != key);
        lemma_find_variant_by_key_skip(t, key, i - 1);
        assert(t.skip(i - 1) =~= variants.skip(i));
    }
}

/// The id of the variant a new flag defaults to: the first variant whose
/// key matches the requested default key, if any.
#[verifier::loop_isolation(false)]
pub fn select_default_variant(variants: &Vec<Variant>, default_key: &str) -> (r: Option<u128>)
    ensures
        match r {
            Option::Some(id) => find_variant_by_key(views_of(*variants), default_key@)
                is Some && find_variant_by_key(views_of(*variants), default_key@)->Some_0.id
                == id,
            Option::None => find_variant_by_key(views_of(*variants), default_key@) is None,
        },
{
    let ghost vv = views_of(*variants);
    let mut i: usize = 0;
    while i < variants.len()
        invariant
            i <= vv.len(),
            forall|k: int| 0 <= k < i ==> (#[trigger] vv[k]).key != default_key@,
        decreases vv.len() - i,
    {
        if crate::strutil::str_eq(variants[i].key.as_str(), default_key) {
            proof {
                lemma_find_variant_by_key_skip(vv, default_key@, i as int);
                assert(vv.skip(i as int)[0] == vv[i as int]);
            }
            return Option::Some(variants[i].id);
        }
        i = i + 1;
    }
    proof {
        lemma_find_variant_by_key_skip(vv, default_key@, vv.len() as int);
        assert(vv.skip(vv.len() as int).len() == 0);
    }
    Option::None
}

} // verus!
