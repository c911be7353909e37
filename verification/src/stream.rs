//! Change propagation decisions.
//!
//! A mutation publishes a `ConfigChangeEvent` on the cross-process topic;
//! every process republishes it on its in-process broadcaster, and every
//! stream subscriber decides from the event alone whether to push a fresh
//! snapshot, ignore the event, or terminate.

use vstd::prelude::*;

use crate::codec::i64_from_json;
use crate::codec::lemma_parse_dec_int_rep;
use crate::codec::i64_to_string;
use crate::codec::parse_i64;
use crate::json::JsonV;
use crate::json::JsonVal;
use crate::strutil::str_eq;

verus! {

use vstd::string::StringExecFns;

broadcast use crate::json::lemma_jsonv_shape;

/// Event published when a flag config changes.
#[derive(Debug, Clone, Copy, PartialEq, Eq, Structural)]
pub struct ConfigChangeEvent {
    pub environment_id: u128,
    pub version: i64,
}

/// What a stream subscriber receives from the broadcaster.
#[derive(Debug, Clone, Copy, PartialEq, Eq, Structural)]
pub enum StreamEvent {
    /// A change event was delivered.
    Change(ConfigChangeEvent),
    /// The subscriber lagged behind the ring and missed this many events.
    Lagged(u64),
    /// The broadcaster closed.
    Closed,
}

/// What the stream loop does next.
#[derive(Debug, Clone, Copy, PartialEq, Eq, Structural)]
pub enum StreamAction {
    /// Rebuild the snapshot and push a `config` event.
    SendSnapshot,
    /// Silently ignore the event.
    Ignore,
    /// Terminate the stream cleanly.
    Terminate,
}

/// Decide a stream step: a change for the subscriber's environment, or a
/// lag indication, pushes a fresh snapshot; a change for another
/// environment is ignored; a closed broadcaster terminates the stream.
pub fn stream_transition(environment_id: u128, event: &StreamEvent) -> (a: StreamAction)
    ensures
        a == match *event {
            StreamEvent::Change(e) => if e.environment_id == environment_id {
                StreamAction::SendSnapshot
            } else {
                StreamAction::Ignore
            },
            StreamEvent::Lagged(_) => StreamAction::SendSnapshot,
            StreamEvent::Closed => StreamAction::Terminate,
        },
{
    match event {
        StreamEvent::Change(e) => {
            if e.environment_id == environment_id {
                StreamAction::SendSnapshot
            } else {
                StreamAction::Ignore
            }
        },
        StreamEvent::Lagged(_) => StreamAction::SendSnapshot,
        StreamEvent::Closed => StreamAction::Terminate,
    }
}

/// A change-event payload decoded from its JSON value: the environment's
/// identifier text and the version. The identifier is carried as opaque
/// text; rendering it to and from the numeric model is boundary
/// conversion.
pub open spec fn event_from_json(j: JsonV) -> Option<(Seq<char>, int)> {
    match j {
        JsonV::Obj(fields) => {
            if fields.len() == 2 && fields[0].0 == "environment_id"@ && fields[1].0
                == "version"@ && fields[0].1 is Str && i64_from_json(fields[1].1) is Some {
                Option::Some((fields[0].1->Str_0, i64_from_json(fields[1].1)->Some_0))
            } else {
                Option::None
            }
        },
        _ => Option::None,
    }
}

/// Decode a change-event payload: the environment's identifier text and
/// the version.
pub fn change_event_from_json(j: &JsonVal) -> (r: Option<(String, i64)>)
    ensures
        match r {
            Option::Some(e) => event_from_json(j@) == Option::Some((e.0@, e.1 as int)),
            Option::None => event_from_json(j@) is None,
        },
{
    match j {
        JsonVal::Obj(fields) => {
            if fields.len() != 2 {
                return Option::None;
            }
            if !str_eq(fields[0].0.as_str(), "environment_id") || !str_eq(
                fields[1].0.as_str(),
                "version",
            ) {
                return Option::None;
            }
            let environment_id: String = match &fields[0].1 {
                JsonVal::Str(s) => s.clone(),
                _ => {
                    return Option::None;
                },
            };
            let version: i64 = match &fields[1].1 {
                JsonVal::Num(s) => match parse_i64(s.as_str()) {
                    Option::Some(v) => v,
                    Option::None => {
                        return Option::None;
                    },
                },
                _ => {
                    return Option::None;
                },
            };
            Option::Some((environment_id, version))
        },
        _ => Option::None,
    }
}

/// Encode a change-event payload: `environment_id` as a JSON string,
/// `version` as a JSON number, in that order. It decodes back to the pair.
pub fn change_event_to_json(environment_id: &str, version: i64) -> (r: JsonVal)
    ensures
        event_from_json(r@) == Option::Some((environment_id@, version as int)),
{
    let fields: Vec<(String, JsonVal)> = vec![
        (String::from_str("environment_id"), JsonVal::Str(String::from_str(environment_id))),
        (String::from_str("version"), JsonVal::Num(i64_to_string(version))),
    ];
    let r = JsonVal::Obj(fields);
    proof {
        lemma_parse_dec_int_rep(version as int, i64::MIN as int, i64::MAX as int);
    }
    r
}

} // verus!
