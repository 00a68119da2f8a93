//! JSON text: reading and writing through `serde_json`.
use vstd::prelude::*;
use crate::json::{Json, JVal, wf};
use serde_json::Value as Sv;

verus! {

/// `serde_json`'s own value type, carried opaquely between the conversions.
#[verifier::external_type_specification]
#[verifier::external_body]
pub struct ExSerdeValue(serde_json::Value);

/// What `serde_json::from_str::<serde_json::Value>` yields for a text, if it
/// accepts it.
pub uninterp spec fn json_parse(s: Seq<char>) -> Option<JVal>;

/// The compact text that `serde_json::to_string` writes for a value.
pub uninterp spec fn json_render(v: JVal) -> Seq<char>;

pub open spec fn opt_json_view(r: Option<Json>) -> Option<JVal> {
    match r {
        Some(x) => Some(x@),
        None => None,
    }
}

/// Relies on `serde_json::from_str` into `serde_json::Value`: the parsed
/// document, or `None` where the text is not JSON. Its objects are
/// `BTreeMap`s, so their keys come out unique and ascending.
#[verifier::external_body]
pub(crate) fn parse_json(s: &str) -> (r: Option<Json>)
    ensures
        opt_json_view(r) == json_parse(s@),
        r matches Some(v) ==> wf(v@),
{
    serde_json::from_str::<Sv>(s).ok().map(|v| json_from_serde(&v))
}

/// Relies on `serde_json::to_string` on a `serde_json::Value`, which cannot
/// fail for it: the compact text of the value.
#[verifier::external_body]
pub(crate) fn render_json(v: &Json) -> (r: String)
    ensures
        r@ == json_render(v@),
{
    serde_json::to_string(&json_to_serde(v)).unwrap_or_default()
}

/// Converts a `serde_json::Value` into the library's tree, variant for variant.
#[verifier::external_body]
pub(crate) fn json_from_serde(v: &Sv) -> Json {
    match v {
        Sv::Null => Json::Null,
        Sv::Bool(b) => Json::Bool(*b),
        Sv::Number(n) => match (n.as_u64(), n.as_i64()) {
            (Some(u), _) => Json::PosInt(u),
            (None, Some(i)) => Json::NegInt(i),
            _ => Json::Float(n.to_string()),
        },
        Sv::String(s) => Json::Str(s.clone()),
        Sv::Array(a) => Json::Arr(a.iter().map(json_from_serde).collect()),
        Sv::Object(m) => Json::Obj(m.iter().map(|(k, x)| (k.clone(), json_from_serde(x))).collect()),
    }
}

/// Converts the library's tree into a `serde_json::Value`, variant for variant.
#[verifier::external_body]
pub(crate) fn json_to_serde(v: &Json) -> Sv {
    match v {
        Json::Null => Sv::Null,
        Json::Bool(b) => Sv::Bool(*b),
        Json::PosInt(u) => Sv::from(*u),
        Json::NegInt(i) => Sv::from(*i),
        Json::Float(t) => t.parse().map(Sv::Number).unwrap_or(Sv::Null),
        Json::Str(s) => Sv::String(s.clone()),
        Json::Arr(a) => Sv::Array(a.iter().map(json_to_serde).collect()),
        Json::Obj(es) => Sv::Object(es.iter().map(|(k, x)| (k.clone(), json_to_serde(x))).collect()),
    }
}

} // verus!
