//! The canonical JSON form of a configuration snapshot.
//!
//! `FlagsConfig::to_json` emits a self-contained JSON value whose contract
//! is the round-trip law itself: whatever it emits, `from_json` decodes
//! back to the original snapshot, with the storage order of flags,
//! variants, rules, constraints and distributions preserved.

use vstd::prelude::*;

use crate::decimal::all_digits;
use crate::decimal::digit_val;
use crate::decimal::digits_val;
use crate::decimal::is_digit;
use crate::decimal::lemma_digits_val_append;
use crate::decimal::lemma_digits_val_singleton;
use crate::decimal::lemma_digits_val_step;
use crate::decimal::lemma_digits_val_bounds;
use crate::decimal::lemma_pow10_pos;
use crate::decimal::pow10;
use crate::json::jsonv;
use crate::json::JsonV;
use crate::json::JsonVal;
use crate::strutil::str_eq;
use crate::types::str_views;
use crate::types::views_of;
use crate::types::FlagConfig;
use crate::types::FlagConfigV;
use crate::types::FlagEnvironment;
use crate::types::FlagType;
use crate::types::FlagsConfig;
use crate::types::FlagsConfigV;
use crate::types::MatchType;
use crate::types::Segment;
use crate::types::SegmentV;
use crate::types::FlagEnvironmentV;
use crate::types::FlagOverride;
use crate::types::Operator;
use crate::types::SegmentConstraint;
use crate::types::SegmentConstraintV;
use crate::types::TargetingRule;
use crate::types::TargetingRuleV;
use crate::types::FlagOverrideV;
use crate::types::RuleDistribution;
use crate::types::RuleSegment;
use crate::types::Variant;
use crate::types::VariantV;

verus! {

use vstd::string::StrSliceExecFns;
use vstd::string::StringExecFns;

broadcast use crate::json::lemma_jsonv_shape;

/// The decimal digits of `n`, most significant first, without leading
/// zeros.
pub open spec fn dec_rep(n: nat) -> Seq<char>
    decreases n,
{
    if n < 10 {
        seq![((48 + n) as u8) as char]
    } else {
        dec_rep(n / 10) + seq![((48 + (n % 10)) as u8) as char]
    }
}

/// The digits of `n` denote `n`.
pub proof fn lemma_dec_rep_val(n: nat)
    ensures
        all_digits(dec_rep(n)),
        digits_val(dec_rep(n)) == n,
        dec_rep(n).len() >= 1,
    decreases n,
{
    if n < 10 {
        let c = ((48 + n) as u8) as char;
        assert(c as int == 48 + n);
        assert(is_digit(c));
        lemma_digits_val_singleton(c);
    } else {
        lemma_dec_rep_val(n / 10);
        let c = ((48 + (n % 10)) as u8) as char;
        assert(c as int == 48 + (n % 10));
        assert(is_digit(c));
        lemma_digits_val_append(dec_rep(n / 10), seq![c]);
        lemma_digits_val_singleton(c);
        assert(pow10(1) == 10);
        assert(digits_val(dec_rep(n)) == (n / 10) * 10 + (n % 10));
    }
}

/// Digits parsed as an unsigned 128-bit integer: defined when the text is
/// nonempty, all digits, and the value fits.
pub open spec fn spec_parse_u128(s: Seq<char>) -> Option<u128> {
    if s.len() > 0 && all_digits(s) && digits_val(s) <= u128::MAX {
        Option::Some(digits_val(s) as u128)
    } else {
        Option::None
    }
}

/// The printed form of `n` parses back to `n`.
pub proof fn lemma_parse_dec_rep(n: u128)
    ensures
        spec_parse_u128(dec_rep(n as nat)) == Option::Some(n),
{
    lemma_dec_rep_val(n as nat);
}

/// A prefix of a digit string never denotes more than the whole.
proof fn lemma_digits_val_prefix(s: Seq<char>, m: int)
    requires
        all_digits(s),
        0 <= m <= s.len(),
    ensures
        digits_val(s.subrange(0, m)) <= digits_val(s),
{
    let a = s.subrange(0, m);
    let b = s.subrange(m, s.len() as int);
    assert(s =~= a + b);
    assert(all_digits(a));
    assert(all_digits(b));
    lemma_digits_val_append(a, b);
    lemma_digits_val_bounds(a);
    lemma_digits_val_bounds(b);
    lemma_pow10_pos(b.len());
    let va = digits_val(a);
    let p = pow10(b.len());
    assert(va * p >= va) by (nonlinear_arith)
        requires
            va >= 0,
            p >= 1,
    ;
}

/// The single digit as a string slice.
fn digit_str(d: u128) -> (s: &'static str)
    requires
        d < 10,
    ensures
        s@ =~= seq![((48 + d) as u8) as char],
{
    proof {
        reveal_strlit("0");
        reveal_strlit("1");
        reveal_strlit("2");
        reveal_strlit("3");
        reveal_strlit("4");
        reveal_strlit("5");
        reveal_strlit("6");
        reveal_strlit("7");
        reveal_strlit("8");
        reveal_strlit("9");
    }
    if d == 0 {
        "0"
    } else if d == 1 {
        "1"
    } else if d == 2 {
        "2"
    } else if d == 3 {
        "3"
    } else if d == 4 {
        "4"
    } else if d == 5 {
        "5"
    } else if d == 6 {
        "6"
    } else if d == 7 {
        "7"
    } else if d == 8 {
        "8"
    } else {
        "9"
    }
}

/// The decimal text of an unsigned 128-bit integer.
pub fn u128_to_string(n: u128) -> (s: String)
    ensures
        s@ == dec_rep(n as nat),
    decreases n,
{
    if n < 10 {
        String::from_str(digit_str(n))
    } else {
        let mut s = u128_to_string(n / 10);
        s.append(digit_str(n % 10));
        proof {
            assert(s@ =~= dec_rep(n as nat));
        }
        s
    }
}

/// Parse decimal digits as an unsigned 128-bit integer.
#[verifier::loop_isolation(false)]
pub fn parse_u128(s: &str) -> (r: Option<u128>)
    ensures
        r == spec_parse_u128(s@),
{
    let n: usize = s.unicode_len();
    if n == 0 {
        return Option::None;
    }
    let mut acc: u128 = 0;
    let mut i: usize = 0;
    proof {
        assert(s@.subrange(0, 0) =~= Seq::<char>::empty());
    }
    while i < n
        invariant
            0 <= i <= n,
            all_digits(s@.subrange(0, i as int)),
            acc == digits_val(s@.subrange(0, i as int)),
        decreases n - i,
    {
        let c: char = s.get_char(i);
        let u: u32 = c as u32;
        if u < 48 || u > 57 {
            proof {
                assert(!is_digit(s@[i as int]));
            }
            return Option::None;
        }
        let d: u128 = (u - 48) as u128;
        proof {
            assert(is_digit(s@[i as int]));
            assert(s@.subrange(0, i as int + 1) =~= s@.subrange(0, i as int) + seq![s@[i as int]]);
            lemma_digits_val_step(s@, i as int);
        }
        let step = match acc.checked_mul(10) {
            Option::Some(m) => m.checked_add(d),
            Option::None => Option::None,
        };
        match step {
            Option::Some(v) => {
                acc = v;
            },
            Option::None => {
                proof {
                    assert(digits_val(s@.subrange(0, i as int + 1)) > u128::MAX);
                    assert(forall|k: int|
                        0 <= k < i + 1 ==> is_digit(#[trigger] s@.subrange(0, i as int + 1)[k]));
                    if all_digits(s@) {
                        lemma_digits_val_prefix(s@, i as int + 1);
                    }
                }
                return Option::None;
            },
        }
        i = i + 1;
    }
    proof {
        assert(s@.subrange(0, n as int) =~= s@);
    }
    Option::Some(acc)
}

/// The signed decimal text of an integer: a minus sign where negative.
pub open spec fn dec_int_rep(n: int) -> Seq<char> {
    if n < 0 {
        seq!['-'] + dec_rep((-n) as nat)
    } else {
        dec_rep(n as nat)
    }
}

/// Signed decimal text parsed as a mathematical integer, when well-formed
/// and within the given bounds.
pub open spec fn spec_parse_int(s: Seq<char>, lo: int, hi: int) -> Option<int> {
    if s.len() > 0 && s[0] == '-' {
        let t = s.drop_first();
        if t.len() > 0 && all_digits(t) && -digits_val(t) >= lo && -digits_val(t) <= hi {
            Option::Some(-digits_val(t))
        } else {
            Option::None
        }
    } else {
        if s.len() > 0 && all_digits(s) && digits_val(s) >= lo && digits_val(s) <= hi {
            Option::Some(digits_val(s))
        } else {
            Option::None
        }
    }
}

/// The printed form of a signed integer parses back to it.
pub proof fn lemma_parse_dec_int_rep(n: int, lo: int, hi: int)
    requires
        lo <= n <= hi,
        -0x1_0000_0000_0000_0000_0000_0000_0000_0000 <= n
            <= 0x1_0000_0000_0000_0000_0000_0000_0000_0000,
    ensures
        spec_parse_int(dec_int_rep(n), lo, hi) == Option::Some(n),
{
    if n < 0 {
        lemma_dec_rep_val((-n) as nat);
        let s = dec_int_rep(n);
        assert(s[0] == '-');
        assert(s.drop_first() =~= dec_rep((-n) as nat));
    } else {
        lemma_dec_rep_val(n as nat);
        let s = dec_int_rep(n);
        assert(all_digits(s));
        assert(s.len() > 0);
        assert(is_digit(s[0]));
        assert(s[0] != '-');
    }
}

/// The decimal text of a signed 64-bit integer.
pub fn i64_to_string(n: i64) -> (s: String)
    ensures
        s@ == dec_int_rep(n as int),
{
    if n < 0 {
        let mag: u128 = (-(n as i128)) as u128;
        let mut s = String::from_str("-");
        proof {
            reveal_strlit("-");
        }
        s.append(u128_to_string(mag).as_str());
        proof {
            assert(s@ =~= dec_int_rep(n as int));
        }
        s
    } else {
        u128_to_string(n as u128)
    }
}

/// Parse a signed decimal as an `i64`.
pub fn parse_i64(s: &str) -> (r: Option<i64>)
    ensures
        match r {
            Option::Some(v) => spec_parse_int(s@, i64::MIN as int, i64::MAX as int)
                == Option::Some(v as int),
            Option::None => spec_parse_int(s@, i64::MIN as int, i64::MAX as int) is None,
        },
{
    let n: usize = s.unicode_len();
    if n == 0 {
        return Option::None;
    }
    let c0: char = s.get_char(0);
    if c0 == '-' {
        let rest: &str = s.substring_char(1, n);
        proof {
            assert(rest@ =~= s@.drop_first());
        }
        match parse_u128(rest) {
            Option::Some(m) => {
                if m <= 0x8000_0000_0000_0000u128 {
                    let v: i64 = (-(m as i128)) as i64;
                    proof {
                        lemma_digits_val_bounds(rest@);
                    }
                    Option::Some(v)
                } else {
                    proof {
                        lemma_digits_val_bounds(rest@);
                    }
                    Option::None
                }
            },
            Option::None => {
                proof {
                    if all_digits(rest@) && rest@.len() > 0 {
                        lemma_digits_val_bounds(rest@);
                        if digits_val(rest@) > u128::MAX {
                        }
                    }
                }
                Option::None
            },
        }
    } else {
        match parse_u128(s) {
            Option::Some(m) => {
                proof {
                    lemma_digits_val_bounds(s@);
                }
                if m <= i64::MAX as u128 {
                    Option::Some(m as i64)
                } else {
                    Option::None
                }
            },
            Option::None => {
                proof {
                    if s@.len() > 0 && all_digits(s@) {
                        assert(digits_val(s@) > u128::MAX);
                    }
                }
                Option::None
            },
        }
    }
}


/// Parse a JSON string field as an unsigned 128-bit id.
pub open spec fn id_from_json(j: JsonV) -> Option<u128> {
    match j {
        JsonV::Str(s) => spec_parse_u128(s),
        _ => Option::None,
    }
}

/// Parse a JSON number as an `i32`.
pub open spec fn i32_from_json(j: JsonV) -> Option<int> {
    match j {
        JsonV::Num(s) => spec_parse_int(s, i32::MIN as int, i32::MAX as int),
        _ => Option::None,
    }
}

/// Parse a JSON number as an `i64`.
pub open spec fn i64_from_json(j: JsonV) -> Option<int> {
    match j {
        JsonV::Num(s) => spec_parse_int(s, i64::MIN as int, i64::MAX as int),
        _ => Option::None,
    }
}

/// An optional string field: JSON null or a JSON string.
pub open spec fn opt_str_from_json(j: JsonV) -> Option<Option<Seq<char>>> {
    match j {
        JsonV::Null => Option::Some(Option::None),
        JsonV::Str(s) => Option::Some(Option::Some(s)),
        _ => Option::None,
    }
}

/// Parse a signed decimal as an `i32`.
pub fn parse_i32(s: &str) -> (r: Option<i32>)
    ensures
        match r {
            Option::Some(v) => spec_parse_int(s@, i32::MIN as int, i32::MAX as int)
                == Option::Some(v as int),
            Option::None => spec_parse_int(s@, i32::MIN as int, i32::MAX as int) is None,
        },
{
    match parse_i64(s) {
        Option::Some(v) => if (i32::MIN as i64) <= v && v <= (i32::MAX as i64) {
            Option::Some(v as i32)
        } else {
            Option::None
        },
        Option::None => Option::None,
    }
}

/// Decode an id field.
fn decode_id(j: &JsonVal) -> (r: Option<u128>)
    ensures
        r == id_from_json(j@),
{
    match j {
        JsonVal::Str(s) => parse_u128(s.as_str()),
        _ => Option::None,
    }
}

/// Decode an optional string field.
fn decode_opt_str(j: &JsonVal) -> (r: Option<Option<String>>)
    ensures
        match r {
            Option::Some(o) => opt_str_from_json(j@) == Option::Some(crate::types::opt_str_view(o)),
            Option::None => opt_str_from_json(j@) is None,
        },
{
    match j {
        JsonVal::Null => Option::Some(Option::None),
        JsonVal::Str(s) => Option::Some(Option::Some(s.clone())),
        _ => Option::None,
    }
}

/// A variant decoded from its JSON object.
pub open spec fn variant_from_json(j: JsonV) -> Option<VariantV> {
    match j {
        JsonV::Obj(fields) => {
            if fields.len() == 4 && fields[0].0 == "id"@ && fields[1].0 == "key"@ && fields[2].0
                == "value"@ && fields[3].0 == "description"@ && id_from_json(fields[0].1) is Some
                && fields[1].1 is Str && opt_str_from_json(fields[3].1) is Some {
                Option::Some(
                    VariantV {
                        id: id_from_json(fields[0].1)->Some_0,
                        key: fields[1].1->Str_0,
                        value: fields[2].1,
                        description: opt_str_from_json(fields[3].1)->Some_0,
                    },
                )
            } else {
                Option::None
            }
        },
        _ => Option::None,
    }
}

/// Decode a variant.
fn decode_variant(j: &JsonVal) -> (r: Option<Variant>)
    ensures
        match r {
            Option::Some(v) => variant_from_json(j@) == Option::Some(v@),
            Option::None => variant_from_json(j@) is None,
        },
{
    match j {
        JsonVal::Obj(fields) => {
            if fields.len() != 4 {
                return Option::None;
            }
            if !str_eq(fields[0].0.as_str(), "id") || !str_eq(fields[1].0.as_str(), "key")
                || !str_eq(fields[2].0.as_str(), "value") || !str_eq(
                fields[3].0.as_str(),
                "description",
            ) {
                return Option::None;
            }
            let id: u128 = match decode_id(&fields[0].1) {
                Option::Some(v) => v,
                Option::None => {
                    return Option::None;
                },
            };
            let key: String = match &fields[1].1 {
                JsonVal::Str(s) => s.clone(),
                _ => {
                    return Option::None;
                },
            };
            let value: JsonVal = fields[2].1.clone();
            let description: Option<String> = match decode_opt_str(&fields[3].1) {
                Option::Some(o) => o,
                Option::None => {
                    return Option::None;
                },
            };
            Option::Some(Variant { id, key, value, description })
        },
        _ => Option::None,
    }
}

/// Encode a variant; the result decodes back to it.
fn variant_to_json(v: &Variant) -> (r: JsonVal)
    ensures
        variant_from_json(r@) == Option::Some(v@),
{
    let fields: Vec<(String, JsonVal)> = vec![
        (String::from_str("id"), JsonVal::Str(u128_to_string(v.id))),
        (String::from_str("key"), JsonVal::Str(v.key.clone())),
        (String::from_str("value"), v.value.clone()),
        (
            String::from_str("description"),
            match &v.description {
                Option::Some(d) => JsonVal::Str(d.clone()),
                Option::None => JsonVal::Null,
            },
        ),
    ];
    let r = JsonVal::Obj(fields);
    proof {
        lemma_parse_dec_rep(v.id);
    }
    r
}

/// An override decoded from its JSON object.
pub open spec fn override_from_json(j: JsonV) -> Option<FlagOverrideV> {
    match j {
        JsonV::Obj(fields) => {
            if fields.len() == 2 && fields[0].0 == "targeting_key"@ && fields[1].0
                == "variant_id"@ && fields[0].1 is Str && id_from_json(fields[1].1) is Some {
                Option::Some(
                    FlagOverrideV {
                        targeting_key: fields[0].1->Str_0,
                        variant_id: id_from_json(fields[1].1)->Some_0,
                    },
                )
            } else {
                Option::None
            }
        },
        _ => Option::None,
    }
}

/// Decode an override.
fn decode_override(j: &JsonVal) -> (r: Option<FlagOverride>)
    ensures
        match r {
            Option::Some(v) => override_from_json(j@) == Option::Some(v@),
            Option::None => override_from_json(j@) is None,
        },
{
    match j {
        JsonVal::Obj(fields) => {
            if fields.len() != 2 {
                return Option::None;
            }
            if !str_eq(fields[0].0.as_str(), "targeting_key") || !str_eq(
                fields[1].0.as_str(),
                "variant_id",
            ) {
                return Option::None;
            }
            let targeting_key: String = match &fields[0].1 {
                JsonVal::Str(s) => s.clone(),
                _ => {
                    return Option::None;
                },
            };
            let variant_id: u128 = match decode_id(&fields[1].1) {
                Option::Some(v) => v,
                Option::None => {
                    return Option::None;
                },
            };
            Option::Some(FlagOverride { targeting_key, variant_id })
        },
        _ => Option::None,
    }
}

/// Encode an override; the result decodes back to it.
fn override_to_json(v: &FlagOverride) -> (r: JsonVal)
    ensures
        override_from_json(r@) == Option::Some(v@),
{
    let mut fields: Vec<(String, JsonVal)> = Vec::new();
    fields.push((String::from_str("targeting_key"), JsonVal::Str(v.targeting_key.clone())));
    fields.push((String::from_str("variant_id"), JsonVal::Str(u128_to_string(v.variant_id))));
    let r = JsonVal::Obj(fields);
    proof {
        lemma_parse_dec_rep(v.variant_id);
    }
    r
}

/// A rule segment reference decoded from its JSON object.
pub open spec fn rule_segment_from_json(j: JsonV) -> Option<RuleSegment> {
    match j {
        JsonV::Obj(fields) => {
            if fields.len() == 2 && fields[0].0 == "segment_id"@ && fields[1].0 == "negate"@
                && id_from_json(fields[0].1) is Some && fields[1].1 is Bool {
                Option::Some(
                    RuleSegment {
                        segment_id: id_from_json(fields[0].1)->Some_0,
                        negate: fields[1].1->Bool_0,
                    },
                )
            } else {
                Option::None
            }
        },
        _ => Option::None,
    }
}

/// Decode a rule segment reference.
fn decode_rule_segment(j: &JsonVal) -> (r: Option<RuleSegment>)
    ensures
        match r {
            Option::Some(v) => rule_segment_from_json(j@) == Option::Some(v),
            Option::None => rule_segment_from_json(j@) is None,
        },
{
    match j {
        JsonVal::Obj(fields) => {
            if fields.len() != 2 {
                return Option::None;
            }
            if !str_eq(fields[0].0.as_str(), "segment_id") || !str_eq(
                fields[1].0.as_str(),
                "negate",
            ) {
                return Option::None;
            }
            let segment_id: u128 = match decode_id(&fields[0].1) {
                Option::Some(v) => v,
                Option::None => {
                    return Option::None;
                },
            };
            let negate: bool = match &fields[1].1 {
                JsonVal::Bool(b) => *b,
                _ => {
                    return Option::None;
                },
            };
            Option::Some(RuleSegment { segment_id, negate })
        },
        _ => Option::None,
    }
}

/// Encode a rule segment reference; the result decodes back to it.
fn rule_segment_to_json(v: &RuleSegment) -> (r: JsonVal)
    ensures
        rule_segment_from_json(r@) == Option::Some(*v),
{
    let mut fields: Vec<(String, JsonVal)> = Vec::new();
    fields.push((String::from_str("segment_id"), JsonVal::Str(u128_to_string(v.segment_id))));
    fields.push((String::from_str("negate"), JsonVal::Bool(v.negate)));
    let r = JsonVal::Obj(fields);
    proof {
        lemma_parse_dec_rep(v.segment_id);
    }
    r
}

/// A distribution decoded from its JSON object.
pub open spec fn distribution_from_json(j: JsonV) -> Option<RuleDistribution> {
    match j {
        JsonV::Obj(fields) => {
            if fields.len() == 2 && fields[0].0 == "variant_id"@ && fields[1].0 == "rollout_pct"@
                && id_from_json(fields[0].1) is Some && i32_from_json(fields[1].1) is Some {
                Option::Some(
                    RuleDistribution {
                        variant_id: id_from_json(fields[0].1)->Some_0,
                        rollout_pct: i32_from_json(fields[1].1)->Some_0 as i32,
                    },
                )
            } else {
                Option::None
            }
        },
        _ => Option::None,
    }
}

/// Decode a distribution.
fn decode_distribution(j: &JsonVal) -> (r: Option<RuleDistribution>)
    ensures
        match r {
            Option::Some(v) => distribution_from_json(j@) == Option::Some(v),
            Option::None => distribution_from_json(j@) is None,
        },
{
    match j {
        JsonVal::Obj(fields) => {
            if fields.len() != 2 {
                return Option::None;
            }
            if !str_eq(fields[0].0.as_str(), "variant_id") || !str_eq(
                fields[1].0.as_str(),
                "rollout_pct",
            ) {
                return Option::None;
            }
            let variant_id: u128 = match decode_id(&fields[0].1) {
                Option::Some(v) => v,
                Option::None => {
                    return Option::None;
                },
            };
            let rollout_pct: i32 = match &fields[1].1 {
                JsonVal::Num(s) => match parse_i32(s.as_str()) {
                    Option::Some(v) => v,
                    Option::None => {
                        return Option::None;
                    },
                },
                _ => {
                    return Option::None;
                },
            };
            Option::Some(RuleDistribution { variant_id, rollout_pct })
        },
        _ => Option::None,
    }
}

/// Encode a distribution; the result decodes back to it.
fn distribution_to_json(v: &RuleDistribution) -> (r: JsonVal)
    ensures
        distribution_from_json(r@) == Option::Some(*v),
{
    let mut fields: Vec<(String, JsonVal)> = Vec::new();
    fields.push((String::from_str("variant_id"), JsonVal::Str(u128_to_string(v.variant_id))));
    fields.push((String::from_str("rollout_pct"), JsonVal::Num(i64_to_string(v.rollout_pct as i64))));
    let r = JsonVal::Obj(fields);
    proof {
        lemma_parse_dec_rep(v.variant_id);
        lemma_parse_dec_int_rep(v.rollout_pct as int, i32::MIN as int, i32::MAX as int);
    }
    r
}


/// A string element of a JSON array.
pub open spec fn string_from_json(j: JsonV) -> Option<Seq<char>> {
    match j {
        JsonV::Str(s) => Option::Some(s),
        _ => Option::None,
    }
}

/// Decode a JSON string element.
fn decode_string(j: &JsonVal) -> (r: Option<String>)
    ensures
        match r {
            Option::Some(s) => string_from_json(j@) == Option::Some(s@),
            Option::None => string_from_json(j@) is None,
        },
{
    match j {
        JsonVal::Str(s) => Option::Some(s.clone()),
        _ => Option::None,
    }
}

/// A list of elements decoded elementwise; any bad element fails the list.
pub open spec fn variants_from_json(items: Seq<JsonV>) -> Option<Seq<VariantV>> {
    if forall|i: int| 0 <= i < items.len() ==> variant_from_json(#[trigger] items[i]) is Some {
        Option::Some(Seq::new(items.len(), |i: int| variant_from_json(items[i])->Some_0))
    } else {
        Option::None
    }
}

/// Decode a JSON array of elements.
#[verifier::loop_isolation(false)]
fn decode_variants(j: &JsonVal) -> (r: Option<Vec<Variant>>)
    ensures
        match r {
            Option::Some(vs) => j@ is Arr && variants_from_json(j@->Arr_0) == Option::Some(
                views_of(vs),
            ),
            Option::None => !(j@ is Arr && variants_from_json(j@->Arr_0) is Some),
        },
{
    match j {
        JsonVal::Arr(items) => {
            let ghost av: Seq<JsonV> = j@->Arr_0;
            let mut out: Vec<Variant> = Vec::new();
            let mut i: usize = 0;
            while i < items.len()
                invariant
                    av.len() == items@.len(),
                    i <= items@.len(),
                    out@.len() == i,
                    forall|k: int|
                        0 <= k < i ==> variant_from_json(#[trigger] av[k]) is Some && views_of(out)[k]
                            == variant_from_json(av[k])->Some_0,
                decreases items@.len() - i,
            {
                match decode_variant(&items[i]) {
                    Option::Some(x) => {
                        out.push(x);
                    },
                    Option::None => {
                        proof {
                            assert(variant_from_json(av[i as int]) is None);
                        }
                        return Option::None;
                    },
                }
                i = i + 1;
            }
            proof {
                assert(variants_from_json(av) is Some);
                assert(variants_from_json(av)->Some_0 =~= views_of(out));
            }
            Option::Some(out)
        },
        _ => Option::None,
    }
}

/// Encode a list of elements as a JSON array; it decodes back to the list.
#[verifier::loop_isolation(false)]
fn variants_to_json(vs: &Vec<Variant>) -> (r: JsonVal)
    ensures
        r@ is Arr,
        variants_from_json(r@->Arr_0) == Option::Some(views_of((*vs))),
{
    let mut out: Vec<JsonVal> = Vec::new();
    let mut i: usize = 0;
    while i < vs.len()
        invariant
            i <= vs@.len(),
            out@.len() == i,
            forall|k: int|
                0 <= k < i ==> variant_from_json(jsonv(#[trigger] out@[k])) == Option::Some(
                    vs@[k]@,
                ),
        decreases vs@.len() - i,
    {
        out.push(variant_to_json(&vs[i]));
        i = i + 1;
    }
    let r = JsonVal::Arr(out);
    proof {
        assert(variants_from_json(r@->Arr_0) is Some);
        assert(variants_from_json(r@->Arr_0)->Some_0 =~= views_of((*vs)));
    }
    r
}

/// A list of elements decoded elementwise; any bad element fails the list.
pub open spec fn overrides_from_json(items: Seq<JsonV>) -> Option<Seq<FlagOverrideV>> {
    if forall|i: int| 0 <= i < items.len() ==> override_from_json(#[trigger] items[i]) is Some {
        Option::Some(Seq::new(items.len(), |i: int| override_from_json(items[i])->Some_0))
    } else {
        Option::None
    }
}

/// Decode a JSON array of elements.
#[verifier::loop_isolation(false)]
fn decode_overrides(j: &JsonVal) -> (r: Option<Vec<FlagOverride>>)
    ensures
        match r {
            Option::Some(vs) => j@ is Arr && overrides_from_json(j@->Arr_0) == Option::Some(
                views_of(vs),
            ),
            Option::None => !(j@ is Arr && overrides_from_json(j@->Arr_0) is Some),
        },
{
    match j {
        JsonVal::Arr(items) => {
            let ghost av: Seq<JsonV> = j@->Arr_0;
            let mut out: Vec<FlagOverride> = Vec::new();
            let mut i: usize = 0;
            while i < items.len()
                invariant
                    av.len() == items@.len(),
                    i <= items@.len(),
                    out@.len() == i,
                    forall|k: int|
                        0 <= k < i ==> override_from_json(#[trigger] av[k]) is Some && views_of(out)[k]
                            == override_from_json(av[k])->Some_0,
                decreases items@.len() - i,
            {
                match decode_override(&items[i]) {
                    Option::Some(x) => {
                        out.push(x);
                    },
                    Option::None => {
                        proof {
                            assert(override_from_json(av[i as int]) is None);
                        }
                        return Option::None;
                    },
                }
                i = i + 1;
            }
            proof {
                assert(overrides_from_json(av) is Some);
                assert(overrides_from_json(av)->Some_0 =~= views_of(out));
            }
            Option::Some(out)
        },
        _ => Option::None,
    }
}

/// Encode a list of elements as a JSON array; it decodes back to the list.
#[verifier::loop_isolation(false)]
fn overrides_to_json(vs: &Vec<FlagOverride>) -> (r: JsonVal)
    ensures
        r@ is Arr,
        overrides_from_json(r@->Arr_0) == Option::Some(views_of((*vs))),
{
    let mut out: Vec<JsonVal> = Vec::new();
    let mut i: usize = 0;
    while i < vs.len()
        invariant
            i <= vs@.len(),
            out@.len() == i,
            forall|k: int|
                0 <= k < i ==> override_from_json(jsonv(#[trigger] out@[k])) == Option::Some(
                    vs@[k]@,
                ),
        decreases vs@.len() - i,
    {
        out.push(override_to_json(&vs[i]));
        i = i + 1;
    }
    let r = JsonVal::Arr(out);
    proof {
        assert(overrides_from_json(r@->Arr_0) is Some);
        assert(overrides_from_json(r@->Arr_0)->Some_0 =~= views_of((*vs)));
    }
    r
}

/// A list of elements decoded elementwise; any bad element fails the list.
pub open spec fn rule_segments_from_json(items: Seq<JsonV>) -> Option<Seq<RuleSegment>> {
    if forall|i: int| 0 <= i < items.len() ==> rule_segment_from_json(#[trigger] items[i]) is Some {
        Option::Some(Seq::new(items.len(), |i: int| rule_segment_from_json(items[i])->Some_0))
    } else {
        Option::None
    }
}

/// Decode a JSON array of elements.
#[verifier::loop_isolation(false)]
fn decode_rule_segments(j: &JsonVal) -> (r: Option<Vec<RuleSegment>>)
    ensures
        match r {
            Option::Some(vs) => j@ is Arr && rule_segments_from_json(j@->Arr_0) == Option::Some(
                vs@,
            ),
            Option::None => !(j@ is Arr && rule_segments_from_json(j@->Arr_0) is Some),
        },
{
    match j {
        JsonVal::Arr(items) => {
            let ghost av: Seq<JsonV> = j@->Arr_0;
            let mut out: Vec<RuleSegment> = Vec::new();
            let mut i: usize = 0;
            while i < items.len()
                invariant
                    av.len() == items@.len(),
                    i <= items@.len(),
                    out@.len() == i,
                    forall|k: int|
                        0 <= k < i ==> rule_segment_from_json(#[trigger] av[k]) is Some && out@[k]
                            == rule_segment_from_json(av[k])->Some_0,
                decreases items@.len() - i,
            {
                match decode_rule_segment(&items[i]) {
                    Option::Some(x) => {
                        out.push(x);
                    },
                    Option::None => {
                        proof {
                            assert(rule_segment_from_json(av[i as int]) is None);
                        }
                        return Option::None;
                    },
                }
                i = i + 1;
            }
            proof {
                assert(rule_segments_from_json(av) is Some);
                assert(rule_segments_from_json(av)->Some_0 =~= out@);
            }
            Option::Some(out)
        },
        _ => Option::None,
    }
}

/// Encode a list of elements as a JSON array; it decodes back to the list.
#[verifier::loop_isolation(false)]
fn rule_segments_to_json(vs: &Vec<RuleSegment>) -> (r: JsonVal)
    ensures
        r@ is Arr,
        rule_segments_from_json(r@->Arr_0) == Option::Some((*vs)@),
{
    let mut out: Vec<JsonVal> = Vec::new();
    let mut i: usize = 0;
    while i < vs.len()
        invariant
            i <= vs@.len(),
            out@.len() == i,
            forall|k: int|
                0 <= k < i ==> rule_segment_from_json(jsonv(#[trigger] out@[k])) == Option::Some(
                    vs@[k],
                ),
        decreases vs@.len() - i,
    {
        out.push(rule_segment_to_json(&vs[i]));
        i = i + 1;
    }
    let r = JsonVal::Arr(out);
    proof {
        assert(rule_segments_from_json(r@->Arr_0) is Some);
        assert(rule_segments_from_json(r@->Arr_0)->Some_0 =~= (*vs)@);
    }
    r
}

/// A list of elements decoded elementwise; any bad element fails the list.
pub open spec fn distributions_from_json(items: Seq<JsonV>) -> Option<Seq<RuleDistribution>> {
    if forall|i: int| 0 <= i < items.len() ==> distribution_from_json(#[trigger] items[i]) is Some {
        Option::Some(Seq::new(items.len(), |i: int| distribution_from_json(items[i])->Some_0))
    } else {
        Option::None
    }
}

/// Decode a JSON array of elements.
#[verifier::loop_isolation(false)]
fn decode_distributions(j: &JsonVal) -> (r: Option<Vec<RuleDistribution>>)
    ensures
        match r {
            Option::Some(vs) => j@ is Arr && distributions_from_json(j@->Arr_0) == Option::Some(
                vs@,
            ),
            Option::None => !(j@ is Arr && distributions_from_json(j@->Arr_0) is Some),
        },
{
    match j {
        JsonVal::Arr(items) => {
            let ghost av: Seq<JsonV> = j@->Arr_0;
            let mut out: Vec<RuleDistribution> = Vec::new();
            let mut i: usize = 0;
            while i < items.len()
                invariant
                    av.len() == items@.len(),
                    i <= items@.len(),
                    out@.len() == i,
                    forall|k: int|
                        0 <= k < i ==> distribution_from_json(#[trigger] av[k]) is Some && out@[k]
                            == distribution_from_json(av[k])->Some_0,
                decreases items@.len() - i,
            {
                match decode_distribution(&items[i]) {
                    Option::Some(x) => {
                        out.push(x);
                    },
                    Option::None => {
                        proof {
                            assert(distribution_from_json(av[i as int]) is None);
                        }
                        return Option::None;
                    },
                }
                i = i + 1;
            }
            proof {
                assert(distributions_from_json(av) is Some);
                assert(distributions_from_json(av)->Some_0 =~= out@);
            }
            Option::Some(out)
        },
        _ => Option::None,
    }
}

/// Encode a list of elements as a JSON array; it decodes back to the list.
#[verifier::loop_isolation(false)]
fn distributions_to_json(vs: &Vec<RuleDistribution>) -> (r: JsonVal)
    ensures
        r@ is Arr,
        distributions_from_json(r@->Arr_0) == Option::Some((*vs)@),
{
    let mut out: Vec<JsonVal> = Vec::new();
    let mut i: usize = 0;
    while i < vs.len()
        invariant
            i <= vs@.len(),
            out@.len() == i,
            forall|k: int|
                0 <= k < i ==> distribution_from_json(jsonv(#[trigger] out@[k])) == Option::Some(
                    vs@[k],
                ),
        decreases vs@.len() - i,
    {
        out.push(distribution_to_json(&vs[i]));
        i = i + 1;
    }
    let r = JsonVal::Arr(out);
    proof {
        assert(distributions_from_json(r@->Arr_0) is Some);
        assert(distributions_from_json(r@->Arr_0)->Some_0 =~= (*vs)@);
    }
    r
}

/// A list of elements decoded elementwise; any bad element fails the list.
pub open spec fn strings_from_json(items: Seq<JsonV>) -> Option<Seq<Seq<char>>> {
    if forall|i: int| 0 <= i < items.len() ==> string_from_json(#[trigger] items[i]) is Some {
        Option::Some(Seq::new(items.len(), |i: int| string_from_json(items[i])->Some_0))
    } else {
        Option::None
    }
}

/// Decode a JSON array of elements.
#[verifier::loop_isolation(false)]
fn decode_strings(j: &JsonVal) -> (r: Option<Vec<String>>)
    ensures
        match r {
            Option::Some(vs) => j@ is Arr && strings_from_json(j@->Arr_0) == Option::Some(
                str_views(vs@),
            ),
            Option::None => !(j@ is Arr && strings_from_json(j@->Arr_0) is Some),
        },
{
    match j {
        JsonVal::Arr(items) => {
            let ghost av: Seq<JsonV> = j@->Arr_0;
            let mut out: Vec<String> = Vec::new();
            let mut i: usize = 0;
            while i < items.len()
                invariant
                    av.len() == items@.len(),
                    i <= items@.len(),
                    out@.len() == i,
                    forall|k: int|
                        0 <= k < i ==> string_from_json(#[trigger] av[k]) is Some && out@[k]@
                            == string_from_json(av[k])->Some_0,
                decreases items@.len() - i,
            {
                match decode_string(&items[i]) {
                    Option::Some(x) => {
                        out.push(x);
                    },
                    Option::None => {
                        proof {
                            assert(string_from_json(av[i as int]) is None);
                        }
                        return Option::None;
                    },
                }
                i = i + 1;
            }
            proof {
                assert(strings_from_json(av) is Some);
                assert(strings_from_json(av)->Some_0 =~= str_views(out@));
            }
            Option::Some(out)
        },
        _ => Option::None,
    }
}

/// Encode a list of elements as a JSON array; it decodes back to the list.
#[verifier::loop_isolation(false)]
fn strings_to_json(vs: &Vec<String>) -> (r: JsonVal)
    ensures
        r@ is Arr,
        strings_from_json(r@->Arr_0) == Option::Some(str_views((*vs)@)),
{
    let mut out: Vec<JsonVal> = Vec::new();
    let mut i: usize = 0;
    while i < vs.len()
        invariant
            i <= vs@.len(),
            out@.len() == i,
            forall|k: int|
                0 <= k < i ==> string_from_json(jsonv(#[trigger] out@[k])) == Option::Some(
                    vs@[k]@,
                ),
        decreases vs@.len() - i,
    {
        out.push(JsonVal::Str(vs[i].clone()));
        i = i + 1;
    }
    let r = JsonVal::Arr(out);
    proof {
        assert(strings_from_json(r@->Arr_0) is Some);
        assert(strings_from_json(r@->Arr_0)->Some_0 =~= str_views((*vs)@));
    }
    r
}


/// An optional variant id: JSON null or an id string.
pub open spec fn opt_id_from_json(j: JsonV) -> Option<Option<u128>> {
    match j {
        JsonV::Null => Option::Some(Option::None),
        JsonV::Str(s) => match spec_parse_u128(s) {
            Option::Some(v) => Option::Some(Option::Some(v)),
            Option::None => Option::None,
        },
        _ => Option::None,
    }
}

/// Decode an optional variant id.
fn decode_opt_id(j: &JsonVal) -> (r: Option<Option<u128>>)
    ensures
        match r {
            Option::Some(o) => opt_id_from_json(j@) == Option::Some(o),
            Option::None => opt_id_from_json(j@) is None,
        },
{
    match j {
        JsonVal::Null => Option::Some(Option::None),
        JsonVal::Str(s) => match parse_u128(s.as_str()) {
            Option::Some(v) => Option::Some(Option::Some(v)),
            Option::None => Option::None,
        },
        _ => Option::None,
    }
}

/// A targeting rule decoded from its JSON object.
pub open spec fn rule_from_json(j: JsonV) -> Option<TargetingRuleV> {
    match j {
        JsonV::Obj(fields) => {
            if fields.len() == 6 && fields[0].0 == "id"@ && fields[1].0 == "rank"@ && fields[2].0
                == "description"@ && fields[3].0 == "segments"@ && fields[4].0
                == "distributions"@ && fields[5].0 == "variant_id"@ && id_from_json(
                fields[0].1,
            ) is Some && i32_from_json(fields[1].1) is Some && opt_str_from_json(
                fields[2].1,
            ) is Some && fields[3].1 is Arr && rule_segments_from_json(
                fields[3].1->Arr_0,
            ) is Some && fields[4].1 is Arr && distributions_from_json(
                fields[4].1->Arr_0,
            ) is Some && opt_id_from_json(fields[5].1) is Some {
                Option::Some(
                    TargetingRuleV {
                        id: id_from_json(fields[0].1)->Some_0,
                        rank: i32_from_json(fields[1].1)->Some_0 as i32,
                        description: opt_str_from_json(fields[2].1)->Some_0,
                        segments: rule_segments_from_json(fields[3].1->Arr_0)->Some_0,
                        distributions: distributions_from_json(fields[4].1->Arr_0)->Some_0,
                        variant_id: opt_id_from_json(fields[5].1)->Some_0,
                    },
                )
            } else {
                Option::None
            }
        },
        _ => Option::None,
    }
}

/// Decode a targeting rule.
fn decode_rule(j: &JsonVal) -> (r: Option<TargetingRule>)
    ensures
        match r {
            Option::Some(v) => rule_from_json(j@) == Option::Some(v@),
            Option::None => rule_from_json(j@) is None,
        },
{
    match j {
        JsonVal::Obj(fields) => {
            if fields.len() != 6 {
                return Option::None;
            }
            if !str_eq(fields[0].0.as_str(), "id") || !str_eq(fields[1].0.as_str(), "rank")
                || !str_eq(fields[2].0.as_str(), "description") || !str_eq(
                fields[3].0.as_str(),
                "segments",
            ) || !str_eq(fields[4].0.as_str(), "distributions") || !str_eq(
                fields[5].0.as_str(),
                "variant_id",
            ) {
                return Option::None;
            }
            let id: u128 = match decode_id(&fields[0].1) {
                Option::Some(v) => v,
                Option::None => {
                    return Option::None;
                },
            };
            let rank: i32 = match &fields[1].1 {
                JsonVal::Num(s) => match parse_i32(s.as_str()) {
                    Option::Some(v) => v,
                    Option::None => {
                        return Option::None;
                    },
                },
                _ => {
                    return Option::None;
                },
            };
            let description: Option<String> = match decode_opt_str(&fields[2].1) {
                Option::Some(o) => o,
                Option::None => {
                    return Option::None;
                },
            };
            let segments: Vec<RuleSegment> = match decode_rule_segments(&fields[3].1) {
                Option::Some(v) => v,
                Option::None => {
                    return Option::None;
                },
            };
            let distributions: Vec<RuleDistribution> = match decode_distributions(&fields[4].1) {
                Option::Some(v) => v,
                Option::None => {
                    return Option::None;
                },
            };
            let variant_id: Option<u128> = match decode_opt_id(&fields[5].1) {
                Option::Some(o) => o,
                Option::None => {
                    return Option::None;
                },
            };
            Option::Some(TargetingRule { id, rank, description, segments, distributions, variant_id })
        },
        _ => Option::None,
    }
}

/// Encode a targeting rule; the result decodes back to it.
fn rule_to_json(v: &TargetingRule) -> (r: JsonVal)
    ensures
        rule_from_json(r@) == Option::Some(v@),
{
    let fields: Vec<(String, JsonVal)> = vec![
        (String::from_str("id"), JsonVal::Str(u128_to_string(v.id))),
        (String::from_str("rank"), JsonVal::Num(i64_to_string(v.rank as i64))),
        (
            String::from_str("description"),
            match &v.description {
                Option::Some(d) => JsonVal::Str(d.clone()),
                Option::None => JsonVal::Null,
            },
        ),
        (String::from_str("segments"), rule_segments_to_json(&v.segments)),
        (String::from_str("distributions"), distributions_to_json(&v.distributions)),
        (
            String::from_str("variant_id"),
            match v.variant_id {
                Option::Some(vid) => JsonVal::Str(u128_to_string(vid)),
                Option::None => JsonVal::Null,
            },
        ),
    ];
    let r = JsonVal::Obj(fields);
    proof {
        lemma_parse_dec_rep(v.id);
        lemma_parse_dec_int_rep(v.rank as int, i32::MIN as int, i32::MAX as int);
        if v.variant_id is Some {
            lemma_parse_dec_rep(v.variant_id->0);
        }
    }
    r
}


/// A list of targeting rules decoded elementwise.
pub open spec fn rules_from_json(items: Seq<JsonV>) -> Option<Seq<TargetingRuleV>> {
    if forall|i: int| 0 <= i < items.len() ==> rule_from_json(#[trigger] items[i]) is Some {
        Option::Some(Seq::new(items.len(), |i: int| rule_from_json(items[i])->Some_0))
    } else {
        Option::None
    }
}

/// Decode a JSON array of targeting rules.
#[verifier::loop_isolation(false)]
fn decode_rules(j: &JsonVal) -> (r: Option<Vec<TargetingRule>>)
    ensures
        match r {
            Option::Some(vs) => j@ is Arr && rules_from_json(j@->Arr_0) == Option::Some(
                views_of(vs),
            ),
            Option::None => !(j@ is Arr && rules_from_json(j@->Arr_0) is Some),
        },
{
    match j {
        JsonVal::Arr(items) => {
            let ghost av: Seq<JsonV> = j@->Arr_0;
            let mut out: Vec<TargetingRule> = Vec::new();
            let mut i: usize = 0;
            while i < items.len()
                invariant
                    av.len() == items@.len(),
                    i <= items@.len(),
                    out@.len() == i,
                    forall|k: int|
                        0 <= k < i ==> rule_from_json(#[trigger] av[k]) is Some && views_of(
                            out,
                        )[k] == rule_from_json(av[k])->Some_0,
                decreases items@.len() - i,
            {
                match decode_rule(&items[i]) {
                    Option::Some(x) => {
                        out.push(x);
                    },
                    Option::None => {
                        proof {
                            assert(rule_from_json(av[i as int]) is None);
                        }
                        return Option::None;
                    },
                }
                i = i + 1;
            }
            proof {
                assert(rules_from_json(av) is Some);
                assert(rules_from_json(av)->Some_0 =~= views_of(out));
            }
            Option::Some(out)
        },
        _ => Option::None,
    }
}

/// Encode a list of targeting rules; it decodes back to the list.
#[verifier::loop_isolation(false)]
fn rules_to_json(vs: &Vec<TargetingRule>) -> (r: JsonVal)
    ensures
        r@ is Arr,
        rules_from_json(r@->Arr_0) == Option::Some(views_of(*vs)),
{
    let mut out: Vec<JsonVal> = Vec::new();
    let mut i: usize = 0;
    while i < vs.len()
        invariant
            i <= vs@.len(),
            out@.len() == i,
            forall|k: int|
                0 <= k < i ==> rule_from_json(jsonv(#[trigger] out@[k])) == Option::Some(
                    vs@[k]@,
                ),
        decreases vs@.len() - i,
    {
        out.push(rule_to_json(&vs[i]));
        i = i + 1;
    }
    let r = JsonVal::Arr(out);
    proof {
        assert(rules_from_json(r@->Arr_0) is Some);
        assert(rules_from_json(r@->Arr_0)->Some_0 =~= views_of(*vs));
    }
    r
}

/// A per-environment flag configuration decoded from its JSON object.
pub open spec fn environment_from_json(j: JsonV) -> Option<FlagEnvironmentV> {
    match j {
        JsonV::Obj(fields) => {
            if fields.len() == 4 && fields[0].0 == "enabled"@ && fields[1].0
                == "default_variant_id"@ && fields[2].0 == "rules"@ && fields[3].0
                == "overrides"@ && fields[0].1 is Bool && id_from_json(fields[1].1) is Some
                && fields[2].1 is Arr && rules_from_json(fields[2].1->Arr_0) is Some
                && fields[3].1 is Arr && overrides_from_json(fields[3].1->Arr_0) is Some {
                Option::Some(
                    FlagEnvironmentV {
                        enabled: fields[0].1->Bool_0,
                        default_variant_id: id_from_json(fields[1].1)->Some_0,
                        rules: rules_from_json(fields[2].1->Arr_0)->Some_0,
                        overrides: overrides_from_json(fields[3].1->Arr_0)->Some_0,
                    },
                )
            } else {
                Option::None
            }
        },
        _ => Option::None,
    }
}

/// Decode a per-environment flag configuration.
fn decode_environment(j: &JsonVal) -> (r: Option<FlagEnvironment>)
    ensures
        match r {
            Option::Some(v) => environment_from_json(j@) == Option::Some(v@),
            Option::None => environment_from_json(j@) is None,
        },
{
    match j {
        JsonVal::Obj(fields) => {
            if fields.len() != 4 {
                return Option::None;
            }
            if !str_eq(fields[0].0.as_str(), "enabled") || !str_eq(
                fields[1].0.as_str(),
                "default_variant_id",
            ) || !str_eq(fields[2].0.as_str(), "rules") || !str_eq(
                fields[3].0.as_str(),
                "overrides",
            ) {
                return Option::None;
            }
            let enabled: bool = match &fields[0].1 {
                JsonVal::Bool(b) => *b,
                _ => {
                    return Option::None;
                },
            };
            let default_variant_id: u128 = match decode_id(&fields[1].1) {
                Option::Some(v) => v,
                Option::None => {
                    return Option::None;
                },
            };
            let rules: Vec<TargetingRule> = match decode_rules(&fields[2].1) {
                Option::Some(v) => v,
                Option::None => {
                    return Option::None;
                },
            };
            let overrides: Vec<FlagOverride> = match decode_overrides(&fields[3].1) {
                Option::Some(v) => v,
                Option::None => {
                    return Option::None;
                },
            };
            Option::Some(FlagEnvironment { enabled, default_variant_id, rules, overrides })
        },
        _ => Option::None,
    }
}

/// Encode a per-environment flag configuration; the result decodes back to
/// it.
fn environment_to_json(v: &FlagEnvironment) -> (r: JsonVal)
    ensures
        environment_from_json(r@) == Option::Some(v@),
{
    let fields: Vec<(String, JsonVal)> = vec![
        (String::from_str("enabled"), JsonVal::Bool(v.enabled)),
        (String::from_str("default_variant_id"), JsonVal::Str(u128_to_string(v.default_variant_id))),
        (String::from_str("rules"), rules_to_json(&v.rules)),
        (String::from_str("overrides"), overrides_to_json(&v.overrides)),
    ];
    let r = JsonVal::Obj(fields);
    proof {
        lemma_parse_dec_rep(v.default_variant_id);
    }
    r
}

/// A segment constraint decoded from its JSON object.
pub open spec fn constraint_from_json(j: JsonV) -> Option<SegmentConstraintV> {
    match j {
        JsonV::Obj(fields) => {
            if fields.len() == 3 && fields[0].0 == "attribute"@ && fields[1].0 == "operator"@
                && fields[2].0 == "values"@ && fields[0].1 is Str && fields[1].1 is Str
                && fields[2].1 is Arr && strings_from_json(fields[2].1->Arr_0) is Some {
                Option::Some(
                    SegmentConstraintV {
                        attribute: fields[0].1->Str_0,
                        operator: crate::types::spec_parse_operator(fields[1].1->Str_0),
                        values: strings_from_json(fields[2].1->Arr_0)->Some_0,
                    },
                )
            } else {
                Option::None
            }
        },
        _ => Option::None,
    }
}

/// Decode a segment constraint.
fn decode_constraint(j: &JsonVal) -> (r: Option<SegmentConstraint>)
    ensures
        match r {
            Option::Some(v) => constraint_from_json(j@) == Option::Some(v@),
            Option::None => constraint_from_json(j@) is None,
        },
{
    match j {
        JsonVal::Obj(fields) => {
            if fields.len() != 3 {
                return Option::None;
            }
            if !str_eq(fields[0].0.as_str(), "attribute") || !str_eq(
                fields[1].0.as_str(),
                "operator",
            ) || !str_eq(fields[2].0.as_str(), "values") {
                return Option::None;
            }
            let attribute: String = match &fields[0].1 {
                JsonVal::Str(s) => s.clone(),
                _ => {
                    return Option::None;
                },
            };
            let operator: Operator = match &fields[1].1 {
                JsonVal::Str(s) => crate::types::parse_operator(s.as_str()),
                _ => {
                    return Option::None;
                },
            };
            let values: Vec<String> = match decode_strings(&fields[2].1) {
                Option::Some(v) => v,
                Option::None => {
                    return Option::None;
                },
            };
            Option::Some(SegmentConstraint { attribute, operator, values })
        },
        _ => Option::None,
    }
}

/// Encode a segment constraint; the result decodes back to it.
fn constraint_to_json(v: &SegmentConstraint) -> (r: JsonVal)
    ensures
        constraint_from_json(r@) == Option::Some(v@),
{
    let fields: Vec<(String, JsonVal)> = vec![
        (String::from_str("attribute"), JsonVal::Str(v.attribute.clone())),
        (String::from_str("operator"), JsonVal::Str(String::from_str(crate::types::operator_str(&v.operator)))),
        (String::from_str("values"), strings_to_json(&v.values)),
    ];
    JsonVal::Obj(fields)
}

/// A list of segment constraints decoded elementwise.
pub open spec fn constraints_from_json(items: Seq<JsonV>) -> Option<Seq<SegmentConstraintV>> {
    if forall|i: int| 0 <= i < items.len() ==> constraint_from_json(#[trigger] items[i]) is Some {
        Option::Some(Seq::new(items.len(), |i: int| constraint_from_json(items[i])->Some_0))
    } else {
        Option::None
    }
}

/// Decode a JSON array of segment constraints.
#[verifier::loop_isolation(false)]
fn decode_constraints(j: &JsonVal) -> (r: Option<Vec<SegmentConstraint>>)
    ensures
        match r {
            Option::Some(vs) => j@ is Arr && constraints_from_json(j@->Arr_0) == Option::Some(
                views_of(vs),
            ),
            Option::None => !(j@ is Arr && constraints_from_json(j@->Arr_0) is Some),
        },
{
    match j {
        JsonVal::Arr(items) => {
            let ghost av: Seq<JsonV> = j@->Arr_0;
            let mut out: Vec<SegmentConstraint> = Vec::new();
            let mut i: usize = 0;
            while i < items.len()
                invariant
                    av.len() == items@.len(),
                    i <= items@.len(),
                    out@.len() == i,
                    forall|k: int|
                        0 <= k < i ==> constraint_from_json(#[trigger] av[k]) is Some && views_of(
                            out,
                        )[k] == constraint_from_json(av[k])->Some_0,
                decreases items@.len() - i,
            {
                match decode_constraint(&items[i]) {
                    Option::Some(x) => {
                        out.push(x);
                    },
                    Option::None => {
                        proof {
                            assert(constraint_from_json(av[i as int]) is None);
                        }
                        return Option::None;
                    },
                }
                i = i + 1;
            }
            proof {
                assert(constraints_from_json(av) is Some);
                assert(constraints_from_json(av)->Some_0 =~= views_of(out));
            }
            Option::Some(out)
        },
        _ => Option::None,
    }
}

/// Encode a list of segment constraints; it decodes back to the list.
#[verifier::loop_isolation(false)]
fn constraints_to_json(vs: &Vec<SegmentConstraint>) -> (r: JsonVal)
    ensures
        r@ is Arr,
        constraints_from_json(r@->Arr_0) == Option::Some(views_of(*vs)),
{
    let mut out: Vec<JsonVal> = Vec::new();
    let mut i: usize = 0;
    while i < vs.len()
        invariant
            i <= vs@.len(),
            out@.len() == i,
            forall|k: int|
                0 <= k < i ==> constraint_from_json(jsonv(#[trigger] out@[k])) == Option::Some(
                    vs@[k]@,
                ),
        decreases vs@.len() - i,
    {
        out.push(constraint_to_json(&vs[i]));
        i = i + 1;
    }
    let r = JsonVal::Arr(out);
    proof {
        assert(constraints_from_json(r@->Arr_0) is Some);
        assert(constraints_from_json(r@->Arr_0)->Some_0 =~= views_of(*vs));
    }
    r
}


/// A segment decoded from its JSON object.
pub open spec fn segment_from_json(j: JsonV) -> Option<SegmentV> {
    match j {
        JsonV::Obj(fields) => {
            if fields.len() == 5 && fields[0].0 == "id"@ && fields[1].0 == "key"@ && fields[2].0
                == "name"@ && fields[3].0 == "match_type"@ && fields[4].0 == "constraints"@
                && id_from_json(fields[0].1) is Some && fields[1].1 is Str && fields[2].1 is Str
                && fields[3].1 is Str && fields[4].1 is Arr && constraints_from_json(
                fields[4].1->Arr_0,
            ) is Some {
                Option::Some(
                    SegmentV {
                        id: id_from_json(fields[0].1)->Some_0,
                        key: fields[1].1->Str_0,
                        name: fields[2].1->Str_0,
                        match_type: crate::types::spec_parse_match_type(fields[3].1->Str_0),
                        constraints: constraints_from_json(fields[4].1->Arr_0)->Some_0,
                    },
                )
            } else {
                Option::None
            }
        },
        _ => Option::None,
    }
}

/// Decode a segment.
fn decode_segment(j: &JsonVal) -> (r: Option<Segment>)
    ensures
        match r {
            Option::Some(v) => segment_from_json(j@) == Option::Some(v@),
            Option::None => segment_from_json(j@) is None,
        },
{
    match j {
        JsonVal::Obj(fields) => {
            if fields.len() != 5 {
                return Option::None;
            }
            if !str_eq(fields[0].0.as_str(), "id") || !str_eq(fields[1].0.as_str(), "key")
                || !str_eq(fields[2].0.as_str(), "name") || !str_eq(
                fields[3].0.as_str(),
                "match_type",
            ) || !str_eq(fields[4].0.as_str(), "constraints") {
                return Option::None;
            }
            let id: u128 = match decode_id(&fields[0].1) {
                Option::Some(v) => v,
                Option::None => {
                    return Option::None;
                },
            };
            let key: String = match &fields[1].1 {
                JsonVal::Str(s) => s.clone(),
                _ => {
                    return Option::None;
                },
            };
            let name: String = match &fields[2].1 {
                JsonVal::Str(s) => s.clone(),
                _ => {
                    return Option::None;
                },
            };
            let match_type: MatchType = match &fields[3].1 {
                JsonVal::Str(s) => crate::types::parse_match_type(s.as_str()),
                _ => {
                    return Option::None;
                },
            };
            let constraints: Vec<SegmentConstraint> = match decode_constraints(&fields[4].1) {
                Option::Some(v) => v,
                Option::None => {
                    return Option::None;
                },
            };
            Option::Some(Segment { id, key, name, match_type, constraints })
        },
        _ => Option::None,
    }
}

/// Encode a segment; the result decodes back to it.
fn segment_to_json(v: &Segment) -> (r: JsonVal)
    ensures
        segment_from_json(r@) == Option::Some(v@),
{
    let fields: Vec<(String, JsonVal)> = vec![
        (String::from_str("id"), JsonVal::Str(u128_to_string(v.id))),
        (String::from_str("key"), JsonVal::Str(v.key.clone())),
        (String::from_str("name"), JsonVal::Str(v.name.clone())),
        (String::from_str("match_type"), JsonVal::Str(String::from_str(crate::types::match_type_str(&v.match_type)))),
        (String::from_str("constraints"), constraints_to_json(&v.constraints)),
    ];
    let r = JsonVal::Obj(fields);
    proof {
        lemma_parse_dec_rep(v.id);
    }
    r
}

/// A flag configuration decoded from its JSON object.
pub open spec fn flag_from_json(j: JsonV) -> Option<FlagConfigV> {
    match j {
        JsonV::Obj(fields) => {
            if fields.len() == 4 && fields[0].0 == "key"@ && fields[1].0 == "flag_type"@
                && fields[2].0 == "variants"@ && fields[3].0 == "environment"@ && fields[0].1 is Str
                && fields[1].1 is Str && fields[2].1 is Arr && variants_from_json(
                fields[2].1->Arr_0,
            ) is Some && environment_from_json(fields[3].1) is Some {
                Option::Some(
                    FlagConfigV {
                        key: fields[0].1->Str_0,
                        flag_type: crate::types::spec_parse_flag_type(fields[1].1->Str_0),
                        variants: variants_from_json(fields[2].1->Arr_0)->Some_0,
                        environment: environment_from_json(fields[3].1)->Some_0,
                    },
                )
            } else {
                Option::None
            }
        },
        _ => Option::None,
    }
}

/// Decode a flag configuration.
fn decode_flag(j: &JsonVal) -> (r: Option<FlagConfig>)
    ensures
        match r {
            Option::Some(v) => flag_from_json(j@) == Option::Some(v@),
            Option::None => flag_from_json(j@) is None,
        },
{
    match j {
        JsonVal::Obj(fields) => {
            if fields.len() != 4 {
                return Option::None;
            }
            if !str_eq(fields[0].0.as_str(), "key") || !str_eq(fields[1].0.as_str(), "flag_type")
                || !str_eq(fields[2].0.as_str(), "variants") || !str_eq(
                fields[3].0.as_str(),
                "environment",
            ) {
                return Option::None;
            }
            let key: String = match &fields[0].1 {
                JsonVal::Str(s) => s.clone(),
                _ => {
                    return Option::None;
                },
            };
            let flag_type: FlagType = match &fields[1].1 {
                JsonVal::Str(s) => crate::types::parse_flag_type(s.as_str()),
                _ => {
                    return Option::None;
                },
            };
            let variants: Vec<Variant> = match decode_variants(&fields[2].1) {
                Option::Some(v) => v,
                Option::None => {
                    return Option::None;
                },
            };
            let environment: FlagEnvironment = match decode_environment(&fields[3].1) {
                Option::Some(v) => v,
                Option::None => {
                    return Option::None;
                },
            };
            Option::Some(FlagConfig { key, flag_type, variants, environment })
        },
        _ => Option::None,
    }
}

/// Encode a flag configuration; the result decodes back to it.
fn flag_to_json(v: &FlagConfig) -> (r: JsonVal)
    ensures
        flag_from_json(r@) == Option::Some(v@),
{
    let fields: Vec<(String, JsonVal)> = vec![
        (String::from_str("key"), JsonVal::Str(v.key.clone())),
        (String::from_str("flag_type"), JsonVal::Str(String::from_str(crate::types::flag_type_str(&v.flag_type)))),
        (String::from_str("variants"), variants_to_json(&v.variants)),
        (String::from_str("environment"), environment_to_json(&v.environment)),
    ];
    JsonVal::Obj(fields)
}

/// A list of flag configurations decoded elementwise.
pub open spec fn flags_from_json(items: Seq<JsonV>) -> Option<Seq<FlagConfigV>> {
    if forall|i: int| 0 <= i < items.len() ==> flag_from_json(#[trigger] items[i]) is Some {
        Option::Some(Seq::new(items.len(), |i: int| flag_from_json(items[i])->Some_0))
    } else {
        Option::None
    }
}

/// Decode a JSON array of flag configurations.
#[verifier::loop_isolation(false)]
fn decode_flags(j: &JsonVal) -> (r: Option<Vec<FlagConfig>>)
    ensures
        match r {
            Option::Some(vs) => j@ is Arr && flags_from_json(j@->Arr_0) == Option::Some(
                views_of(vs),
            ),
            Option::None => !(j@ is Arr && flags_from_json(j@->Arr_0) is Some),
        },
{
    match j {
        JsonVal::Arr(items) => {
            let ghost av: Seq<JsonV> = j@->Arr_0;
            let mut out: Vec<FlagConfig> = Vec::new();
            let mut i: usize = 0;
            while i < items.len()
                invariant
                    av.len() == items@.len(),
                    i <= items@.len(),
                    out@.len() == i,
                    forall|k: int|
                        0 <= k < i ==> flag_from_json(#[trigger] av[k]) is Some && views_of(
                            out,
                        )[k] == flag_from_json(av[k])->Some_0,
                decreases items@.len() - i,
            {
                match decode_flag(&items[i]) {
                    Option::Some(x) => {
                        out.push(x);
                    },
                    Option::None => {
                        proof {
                            assert(flag_from_json(av[i as int]) is None);
                        }
                        return Option::None;
                    },
                }
                i = i + 1;
            }
            proof {
                assert(flags_from_json(av) is Some);
                assert(flags_from_json(av)->Some_0 =~= views_of(out));
            }
            Option::Some(out)
        },
        _ => Option::None,
    }
}

/// Encode a list of flag configurations; it decodes back to the list.
#[verifier::loop_isolation(false)]
fn flags_to_json(vs: &Vec<FlagConfig>) -> (r: JsonVal)
    ensures
        r@ is Arr,
        flags_from_json(r@->Arr_0) == Option::Some(views_of(*vs)),
{
    let mut out: Vec<JsonVal> = Vec::new();
    let mut i: usize = 0;
    while i < vs.len()
        invariant
            i <= vs@.len(),
            out@.len() == i,
            forall|k: int|
                0 <= k < i ==> flag_from_json(jsonv(#[trigger] out@[k])) == Option::Some(
                    vs@[k]@,
                ),
        decreases vs@.len() - i,
    {
        out.push(flag_to_json(&vs[i]));
        i = i + 1;
    }
    let r = JsonVal::Arr(out);
    proof {
        assert(flags_from_json(r@->Arr_0) is Some);
        assert(flags_from_json(r@->Arr_0)->Some_0 =~= views_of(*vs));
    }
    r
}

/// A list of segments decoded elementwise.
pub open spec fn segments_from_json(items: Seq<JsonV>) -> Option<Seq<SegmentV>> {
    if forall|i: int| 0 <= i < items.len() ==> segment_from_json(#[trigger] items[i]) is Some {
        Option::Some(Seq::new(items.len(), |i: int| segment_from_json(items[i])->Some_0))
    } else {
        Option::None
    }
}

/// Decode a JSON array of segments.
#[verifier::loop_isolation(false)]
fn decode_segments(j: &JsonVal) -> (r: Option<Vec<Segment>>)
    ensures
        match r {
            Option::Some(vs) => j@ is Arr && segments_from_json(j@->Arr_0) == Option::Some(
                views_of(vs),
            ),
            Option::None => !(j@ is Arr && segments_from_json(j@->Arr_0) is Some),
        },
{
    match j {
        JsonVal::Arr(items) => {
            let ghost av: Seq<JsonV> = j@->Arr_0;
            let mut out: Vec<Segment> = Vec::new();
            let mut i: usize = 0;
            while i < items.len()
                invariant
                    av.len() == items@.len(),
                    i <= items@.len(),
                    out@.len() == i,
                    forall|k: int|
                        0 <= k < i ==> segment_from_json(#[trigger] av[k]) is Some && views_of(
                            out,
                        )[k] == segment_from_json(av[k])->Some_0,
                decreases items@.len() - i,
            {
                match decode_segment(&items[i]) {
                    Option::Some(x) => {
                        out.push(x);
                    },
                    Option::None => {
                        proof {
                            assert(segment_from_json(av[i as int]) is None);
                        }
                        return Option::None;
                    },
                }
                i = i + 1;
            }
            proof {
                assert(segments_from_json(av) is Some);
                assert(segments_from_json(av)->Some_0 =~= views_of(out));
            }
            Option::Some(out)
        },
        _ => Option::None,
    }
}

/// Encode a list of segments; it decodes back to the list.
#[verifier::loop_isolation(false)]
fn segments_to_json(vs: &Vec<Segment>) -> (r: JsonVal)
    ensures
        r@ is Arr,
        segments_from_json(r@->Arr_0) == Option::Some(views_of(*vs)),
{
    let mut out: Vec<JsonVal> = Vec::new();
    let mut i: usize = 0;
    while i < vs.len()
        invariant
            i <= vs@.len(),
            out@.len() == i,
            forall|k: int|
                0 <= k < i ==> segment_from_json(jsonv(#[trigger] out@[k])) == Option::Some(
                    vs@[k]@,
                ),
        decreases vs@.len() - i,
    {
        out.push(segment_to_json(&vs[i]));
        i = i + 1;
    }
    let r = JsonVal::Arr(out);
    proof {
        assert(segments_from_json(r@->Arr_0) is Some);
        assert(segments_from_json(r@->Arr_0)->Some_0 =~= views_of(*vs));
    }
    r
}

/// A full configuration snapshot decoded from its JSON object.
pub open spec fn config_from_json(j: JsonV) -> Option<FlagsConfigV> {
    match j {
        JsonV::Obj(fields) => {
            if fields.len() == 3 && fields[0].0 == "flags"@ && fields[1].0 == "segments"@
                && fields[2].0 == "version"@ && fields[0].1 is Arr && flags_from_json(
                fields[0].1->Arr_0,
            ) is Some && fields[1].1 is Arr && segments_from_json(fields[1].1->Arr_0) is Some
                && i64_from_json(fields[2].1) is Some {
                Option::Some(
                    FlagsConfigV {
                        flags: flags_from_json(fields[0].1->Arr_0)->Some_0,
                        segments: segments_from_json(fields[1].1->Arr_0)->Some_0,
                        version: i64_from_json(fields[2].1)->Some_0 as i64,
                    },
                )
            } else {
                Option::None
            }
        },
        _ => Option::None,
    }
}

/// Decode a full configuration snapshot from its JSON value.
pub fn from_json(j: &JsonVal) -> (r: Option<FlagsConfig>)
    ensures
        match r {
            Option::Some(c) => config_from_json(j@) == Option::Some(c@),
            Option::None => config_from_json(j@) is None,
        },
{
    match j {
        JsonVal::Obj(fields) => {
            if fields.len() != 3 {
                return Option::None;
            }
            if !str_eq(fields[0].0.as_str(), "flags") || !str_eq(
                fields[1].0.as_str(),
                "segments",
            ) || !str_eq(fields[2].0.as_str(), "version") {
                return Option::None;
            }
            let flags: Vec<FlagConfig> = match decode_flags(&fields[0].1) {
                Option::Some(v) => v,
                Option::None => {
                    return Option::None;
                },
            };
            let segments: Vec<Segment> = match decode_segments(&fields[1].1) {
                Option::Some(v) => v,
                Option::None => {
                    return Option::None;
                },
            };
            let version: i64 = match &fields[2].1 {
                JsonVal::Num(s) => match parse_i64(s.as_str()) {
                    Option::Some(v) => v,
                    Option::None => {
                        return Option::None;
                    },
                },
                _ => {
                    return Option::None;
                },
            };
            Option::Some(FlagsConfig { flags, segments, version })
        },
        _ => Option::None,
    }
}

/// Encode a full configuration snapshot as a JSON value.
///
/// The contract is the round-trip law: the emitted value decodes back to
/// exactly this snapshot, with the storage order of flags, segments,
/// variants, rules, constraints and distributions preserved.
pub fn to_json(c: &FlagsConfig) -> (r: JsonVal)
    ensures
        config_from_json(r@) == Option::Some(c@),
{
    let fields: Vec<(String, JsonVal)> = vec![
        (String::from_str("flags"), flags_to_json(&c.flags)),
        (String::from_str("segments"), segments_to_json(&c.segments)),
        (String::from_str("version"), JsonVal::Num(i64_to_string(c.version))),
    ];
    let r = JsonVal::Obj(fields);
    proof {
        lemma_parse_dec_int_rep(c.version as int, i64::MIN as int, i64::MAX as int);
    }
    r
}

} // verus!
