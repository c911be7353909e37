//! The operator evaluator: a pure, total function from one operator, one
//! JSON attribute value and an ordered list of constraint strings to a
//! boolean verdict.
//!
//! Coercion failures never raise: they collapse to `false` (and therefore to
//! `true` for the negated operators `neq` and `not_in`).

use vstd::prelude::*;

use crate::decimal::cmp_decimal;
use crate::decimal::dec_cmp;
use crate::json::JsonV;
use crate::json::JsonVal;
use crate::strutil::bytes_contains;
use crate::strutil::bytes_ends_with;
use crate::strutil::bytes_starts_with;
use crate::strutil::contains_seq;
use crate::strutil::ends_with_seq;
use crate::strutil::starts_with_seq;
use crate::strutil::str_eq;
use crate::types::str_views;
use crate::types::Operator;

verus! {

use vstd::string::StringSliceAdditionalSpecFns;
use vstd::utf8::encode_utf8;

/// The regex verdict for a pattern on a text. A pattern the regex crate
/// rejects matches nothing.
pub uninterp spec fn regex_verdict(pattern: Seq<char>, text: Seq<char>) -> bool;

/// The SemVer ordering verdict for two strings: both parsed as SemVer 2.0.0
/// versions and compared. `None` when either side fails to parse or when the
/// crate orders the versions as equal without them being equal; `Some(0)`
/// exactly when the parsed versions are equal.
pub uninterp spec fn semver_cmp(a: Seq<char>, b: Seq<char>) -> Option<i8>;

/// Relies on regex::Regex::new and regex::Regex::is_match: compiling a
/// pattern and matching a haystack depend on the two texts alone.
#[verifier::external_body]
fn regex_match(pattern: &str, text: &str) -> (r: bool)
    ensures
        r == regex_verdict(pattern@, text@),
{
    match regex::Regex::new(pattern) {
        Ok(re) => re.is_match(text),
        Err(_) => false,
    }
}

/// Relies on semver::Version::parse, Version's Ord and its PartialEq: all
/// depend on the character sequences alone. The equality test keeps
/// `Some(0)` faithful to Version equality where the order and the equality
/// disagree on build metadata.
#[verifier::external_body]
fn cmp_semver_strs(a: &str, b: &str) -> (r: Option<i8>)
    ensures
        r == semver_cmp(a@, b@),
{
    match (semver::Version::parse(a), semver::Version::parse(b)) {
        (Ok(x), Ok(y)) => match x.cmp(&y) {
            std::cmp::Ordering::Less => Some(-1),
            std::cmp::Ordering::Greater => Some(1),
            std::cmp::Ordering::Equal => if x == y { Some(0) } else { None },
        },
        _ => None,
    }
}

/// String coercion of a JSON value: strings unchanged, numbers via their
/// canonical decimal form, booleans via "true"/"false"; anything else is
/// undefined.
pub open spec fn coerce_str(v: JsonV) -> Option<Seq<char>> {
    match v {
        JsonV::Str(s) => Option::Some(s),
        JsonV::Num(s) => Option::Some(s),
        JsonV::Bool(b) => Option::Some(
            if b {
                "true"@
            } else {
                "false"@
            },
        ),
        _ => Option::None,
    }
}

/// Numeric coercion source of a JSON value: the decimal text of a number,
/// or a string as-is; anything else is undefined.
pub open spec fn coerce_num_str(v: JsonV) -> Option<Seq<char>> {
    match v {
        JsonV::Num(s) => Option::Some(s),
        JsonV::Str(s) => Option::Some(s),
        _ => Option::None,
    }
}

/// True when some constraint value equals `s`.
pub open spec fn some_eq(cv: Seq<Seq<char>>, s: Seq<char>) -> bool {
    exists|i: int| 0 <= i < cv.len() && cv[i] == s
}

/// The `eq` operator: string equality after coercion.
pub open spec fn eq_holds(attr: JsonV, cv: Seq<Seq<char>>) -> bool {
    match coerce_str(attr) {
        Option::Some(s) => some_eq(cv, s),
        Option::None => false,
    }
}

/// The `in` operator: for an array attribute, true when any element coerces
/// to a member of `cv`; for a scalar, membership as for `eq`.
pub open spec fn in_holds(attr: JsonV, cv: Seq<Seq<char>>) -> bool {
    match attr {
        JsonV::Arr(items) => exists|i: int| 0 <= i < items.len() && eq_holds(items[i], cv),
        _ => eq_holds(attr, cv),
    }
}

/// Whether an ordering sign satisfies a comparison operator.
pub open spec fn cmp_matches(op: Operator, c: i8) -> bool {
    match op {
        Operator::Gt => c > 0,
        Operator::Gte => c >= 0,
        Operator::Lt => c < 0,
        Operator::Lte => c <= 0,
        _ => false,
    }
}

/// One numeric comparison pair: false whenever the decimal verdict is
/// undefined.
pub open spec fn num_pair_holds(op: Operator, a: Seq<char>, b: Seq<char>) -> bool {
    match dec_cmp(a, b) {
        Option::Some(c) => cmp_matches(op, c),
        Option::None => false,
    }
}

/// The numeric operators: the coerced attribute compared against each
/// constraint value.
pub open spec fn num_holds(op: Operator, attr: JsonV, cv: Seq<Seq<char>>) -> bool {
    match coerce_num_str(attr) {
        Option::Some(s) => exists|i: int| 0 <= i < cv.len() && num_pair_holds(op, s, cv[i]),
        Option::None => false,
    }
}

/// One substring-family pair, over the UTF-8 bytes of the two strings.
pub open spec fn str_pair_holds(op: Operator, s: Seq<char>, v: Seq<char>) -> bool {
    match op {
        Operator::Contains => contains_seq(encode_utf8(s), encode_utf8(v)),
        Operator::StartsWith => starts_with_seq(encode_utf8(s), encode_utf8(v)),
        Operator::EndsWith => ends_with_seq(encode_utf8(s), encode_utf8(v)),
        _ => false,
    }
}

/// The substring-family operators.
pub open spec fn str_op_holds(op: Operator, attr: JsonV, cv: Seq<Seq<char>>) -> bool {
    match coerce_str(attr) {
        Option::Some(s) => exists|i: int| 0 <= i < cv.len() && str_pair_holds(op, s, cv[i]),
        Option::None => false,
    }
}

/// The `matches` operator: each constraint value is a regular expression.
pub open spec fn matches_holds(attr: JsonV, cv: Seq<Seq<char>>) -> bool {
    match coerce_str(attr) {
        Option::Some(s) => exists|i: int| 0 <= i < cv.len() && regex_verdict(cv[i], s),
        Option::None => false,
    }
}

/// One SemVer comparison pair: false whenever the SemVer verdict is
/// undefined.
pub open spec fn semver_pair_holds(op: Operator, a: Seq<char>, b: Seq<char>) -> bool {
    match semver_cmp(a, b) {
        Option::Some(c) => match op {
            Operator::SemverEq => c == 0,
            Operator::SemverGt => c > 0,
            Operator::SemverLt => c < 0,
            _ => false,
        },
        Option::None => false,
    }
}

/// The SemVer operators.
pub open spec fn semver_holds(op: Operator, attr: JsonV, cv: Seq<Seq<char>>) -> bool {
    match coerce_str(attr) {
        Option::Some(s) => exists|i: int| 0 <= i < cv.len() && semver_pair_holds(op, s, cv[i]),
        Option::None => false,
    }
}

/// The full operator semantics on one attribute value and one ordered list
/// of constraint values.
pub open spec fn spec_eval_op(op: Operator, attr: JsonV, cv: Seq<Seq<char>>) -> bool {
    match op {
        Operator::Eq => eq_holds(attr, cv),
        Operator::Neq => !eq_holds(attr, cv),
        Operator::Gt => num_holds(op, attr, cv),
        Operator::Gte => num_holds(op, attr, cv),
        Operator::Lt => num_holds(op, attr, cv),
        Operator::Lte => num_holds(op, attr, cv),
        Operator::In => in_holds(attr, cv),
        Operator::NotIn => !in_holds(attr, cv),
        Operator::Contains => str_op_holds(op, attr, cv),
        Operator::StartsWith => str_op_holds(op, attr, cv),
        Operator::EndsWith => str_op_holds(op, attr, cv),
        Operator::Matches => matches_holds(attr, cv),
        Operator::SemverEq => semver_holds(op, attr, cv),
        Operator::SemverGt => semver_holds(op, attr, cv),
        Operator::SemverLt => semver_holds(op, attr, cv),
    }
}

/// The string coercion, executable side.
fn coerce_str_exec<'a>(v: &'a JsonVal) -> (r: Option<&'a str>)
    ensures
        match r {
            Option::Some(s) => coerce_str(v@) == Option::Some(s@),
            Option::None => coerce_str(v@) is None,
        },
{
    match v {
        JsonVal::Str(s) => Option::Some(s.as_str()),
        JsonVal::Num(s) => Option::Some(s.as_str()),
        JsonVal::Bool(b) => if *b {
            Option::Some("true")
        } else {
            Option::Some("false")
        },
        _ => Option::None,
    }
}

/// The numeric coercion source, executable side.
fn coerce_num_str_exec<'a>(v: &'a JsonVal) -> (r: Option<&'a str>)
    ensures
        match r {
            Option::Some(s) => coerce_num_str(v@) == Option::Some(s@),
            Option::None => coerce_num_str(v@) is None,
        },
{
    match v {
        JsonVal::Num(s) => Option::Some(s.as_str()),
        JsonVal::Str(s) => Option::Some(s.as_str()),
        _ => Option::None,
    }
}

/// True when some constraint value equals `s`.
fn any_eq(cv: &[String], s: &str) -> (r: bool)
    ensures
        r == some_eq(str_views(cv@), s@),
{
    let mut i: usize = 0;
    while i < cv.len()
        invariant
            i <= cv@.len(),
            forall|k: int| 0 <= k < i ==> str_views(cv@)[k] != s@,
        decreases cv@.len() - i,
    {
        if str_eq(cv[i].as_str(), s) {
            proof {
                assert(str_views(cv@)[i as int] == s@);
            }
            return true;
        }
        i = i + 1;
    }
    false
}

/// The `eq` operator, executable side.
fn op_eq(attribute_value: &JsonVal, constraint_values: &[String]) -> (r: bool)
    ensures
        r == eq_holds(attribute_value@, str_views(constraint_values@)),
{
    match coerce_str_exec(attribute_value) {
        Option::Some(s) => any_eq(constraint_values, s),
        Option::None => false,
    }
}

/// The `in` operator, executable side.
fn op_in(attribute_value: &JsonVal, constraint_values: &[String]) -> (r: bool)
    ensures
        r == in_holds(attribute_value@, str_views(constraint_values@)),
{
    match attribute_value {
        JsonVal::Arr(items) => {
            let ghost itemsv: Seq<JsonV> = attribute_value@->Arr_0;
            let mut i: usize = 0;
            while i < items.len()
                invariant
                    attribute_value@ is Arr,
                    itemsv == attribute_value@->Arr_0,
                    itemsv.len() == items@.len(),
                    forall|k: int| 0 <= k < itemsv.len() ==> itemsv[k] == items@[k]@,
                    i <= items@.len(),
                    forall|k: int|
                        0 <= k < i ==> !eq_holds(itemsv[k], str_views(constraint_values@)),
                decreases items@.len() - i,
            {
                if op_eq(&items[i], constraint_values) {
                    proof {
                        assert(eq_holds(itemsv[i as int], str_views(constraint_values@)));
                    }
                    return true;
                }
                i = i + 1;
            }
            false
        },
        _ => op_eq(attribute_value, constraint_values),
    }
}

/// One numeric comparison pair, executable side.
fn num_pair(op: &Operator, a: &str, b: &str) -> (r: bool)
    ensures
        r == num_pair_holds(*op, a@, b@),
{
    match cmp_decimal(a, b) {
        Option::Some(c) => match op {
            Operator::Gt => c > 0,
            Operator::Gte => c >= 0,
            Operator::Lt => c < 0,
            Operator::Lte => c <= 0,
            _ => false,
        },
        Option::None => false,
    }
}

/// The numeric operators, executable side.
#[verifier::loop_isolation(false)]
fn op_numeric(op: &Operator, attribute_value: &JsonVal, constraint_values: &[String]) -> (r: bool)
    ensures
        r == num_holds(*op, attribute_value@, str_views(constraint_values@)),
{
    match coerce_num_str_exec(attribute_value) {
        Option::Some(s) => {
            let mut i: usize = 0;
            while i < constraint_values.len()
                invariant
                    i <= constraint_values@.len(),
                    forall|k: int|
                        0 <= k < i ==> !num_pair_holds(
                            *op,
                            s@,
                            str_views(constraint_values@)[k],
                        ),
                decreases constraint_values@.len() - i,
            {
                if num_pair(op, s, constraint_values[i].as_str()) {
                    proof {
                        assert(num_pair_holds(*op, s@, str_views(constraint_values@)[i as int]));
                    }
                    return true;
                }
                i = i + 1;
            }
            false
        },
        Option::None => false,
    }
}

/// One substring-family pair, executable side.
fn str_pair(op: &Operator, s: &str, v: &str) -> (r: bool)
    ensures
        r == str_pair_holds(*op, s@, v@),
{
    match op {
        Operator::Contains => bytes_contains(s.as_bytes(), v.as_bytes()),
        Operator::StartsWith => bytes_starts_with(s.as_bytes(), v.as_bytes()),
        Operator::EndsWith => bytes_ends_with(s.as_bytes(), v.as_bytes()),
        _ => false,
    }
}

/// The substring-family operators, executable side.
#[verifier::loop_isolation(false)]
fn op_string(op: &Operator, attribute_value: &JsonVal, constraint_values: &[String]) -> (r: bool)
    ensures
        r == str_op_holds(*op, attribute_value@, str_views(constraint_values@)),
{
    match coerce_str_exec(attribute_value) {
        Option::Some(s) => {
            let mut i: usize = 0;
            while i < constraint_values.len()
                invariant
                    i <= constraint_values@.len(),
                    forall|k: int|
                        0 <= k < i ==> !str_pair_holds(
                            *op,
                            s@,
                            str_views(constraint_values@)[k],
                        ),
                decreases constraint_values@.len() - i,
            {
                if str_pair(op, s, constraint_values[i].as_str()) {
                    proof {
                        assert(str_pair_holds(*op, s@, str_views(constraint_values@)[i as int]));
                    }
                    return true;
                }
                i = i + 1;
            }
            false
        },
        Option::None => false,
    }
}

/// The `matches` operator, executable side.
#[verifier::loop_isolation(false)]
fn op_matches(attribute_value: &JsonVal, constraint_values: &[String]) -> (r: bool)
    ensures
        r == matches_holds(attribute_value@, str_views(constraint_values@)),
{
    match coerce_str_exec(attribute_value) {
        Option::Some(s) => {
            let mut i: usize = 0;
            while i < constraint_values.len()
                invariant
                    i <= constraint_values@.len(),
                    forall|k: int|
                        0 <= k < i ==> !regex_verdict(str_views(constraint_values@)[k], s@),
                decreases constraint_values@.len() - i,
            {
                if regex_match(constraint_values[i].as_str(), s) {
                    proof {
                        assert(regex_verdict(str_views(constraint_values@)[i as int], s@));
                    }
                    return true;
                }
                i = i + 1;
            }
            false
        },
        Option::None => false,
    }
}

/// One SemVer comparison pair, executable side.
fn semver_pair(op: &Operator, a: &str, b: &str) -> (r: bool)
    ensures
        r == semver_pair_holds(*op, a@, b@),
{
    match cmp_semver_strs(a, b) {
        Option::Some(c) => match op {
            Operator::SemverEq => c == 0,
            Operator::SemverGt => c > 0,
            Operator::SemverLt => c < 0,
            _ => false,
        },
        Option::None => false,
    }
}

/// The SemVer operators, executable side.
#[verifier::loop_isolation(false)]
fn op_semver(op: &Operator, attribute_value: &JsonVal, constraint_values: &[String]) -> (r: bool)
    ensures
        r == semver_holds(*op, attribute_value@, str_views(constraint_values@)),
{
    match coerce_str_exec(attribute_value) {
        Option::Some(s) => {
            let mut i: usize = 0;
            while i < constraint_values.len()
                invariant
                    i <= constraint_values@.len(),
                    forall|k: int|
                        0 <= k < i ==> !semver_pair_holds(
                            *op,
                            s@,
                            str_views(constraint_values@)[k],
                        ),
                decreases constraint_values@.len() - i,
            {
                if semver_pair(op, s, constraint_values[i].as_str()) {
                    proof {
                        assert(semver_pair_holds(*op, s@, str_views(constraint_values@)[i as int]));
                    }
                    return true;
                }
                i = i + 1;
            }
            false
        },
        Option::None => false,
    }
}

/// Evaluate a constraint operator against a context attribute value.
///
/// `attribute_value` is the value from the evaluation context;
/// `constraint_values` are the values of the segment constraint. Returns
/// true exactly when the constraint is satisfied.
pub fn evaluate_operator(
    operator: &Operator,
    attribute_value: &JsonVal,
    constraint_values: &[String],
) -> (r: bool)
    ensures
        r == spec_eval_op(*operator, attribute_value@, str_views(constraint_values@)),
{
    match operator {
        Operator::Eq => op_eq(attribute_value, constraint_values),
        Operator::Neq => !op_eq(attribute_value, constraint_values),
        Operator::Gt => op_numeric(operator, attribute_value, constraint_values),
        Operator::Gte => op_numeric(operator, attribute_value, constraint_values),
        Operator::Lt => op_numeric(operator, attribute_value, constraint_values),
        Operator::Lte => op_numeric(operator, attribute_value, constraint_values),
        Operator::In => op_in(attribute_value, constraint_values),
        Operator::NotIn => !op_in(attribute_value, constraint_values),
        Operator::Contains => op_string(operator, attribute_value, constraint_values),
        Operator::StartsWith => op_string(operator, attribute_value, constraint_values),
        Operator::EndsWith => op_string(operator, attribute_value, constraint_values),
        Operator::Matches => op_matches(attribute_value, constraint_values),
        Operator::SemverEq => op_semver(operator, attribute_value, constraint_values),
        Operator::SemverGt => op_semver(operator, attribute_value, constraint_values),
        Operator::SemverLt => op_semver(operator, attribute_value, constraint_values),
    }
}

} // verus!
