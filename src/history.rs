//! The record of the workspace that was focused before the last workspace
//! change, kept as the JSON text of a `[name, number]` pair.
use vstd::prelude::*;
use crate::model::WsError;
use crate::sway::Sway;

verus! {

/// The text that `serde_json` writes for the pair `(name, num)`.
pub uninterp spec fn previous_json(name: Seq<char>, num: i32) -> Seq<char>;

/// Relies on `serde_json::to_string` of a `(&str, i32)` pair: a JSON array
/// that depends on the pair alone. It cannot fail: `to_string` fails only when
/// a `Serialize` impl fails or a map key is not a string, and a string and an
/// integer serialize without either.
#[verifier::external_body]
fn json_of_previous(name: &str, num: i32) -> (r: Result<String, serde_json::Error>)
    ensures
        r is Ok,
        r->Ok_0@ == previous_json(name@, num),
{
    serde_json::to_string(&(name, num))
}

/// Relies on `serde_json::from_str` into a `(String, i32)` pair: the text that
/// `serde_json::to_string` wrote for a pair reads back as that pair.
#[verifier::external_body]
fn previous_of_json(text: &str) -> (r: Result<(String, i32), serde_json::Error>)
    ensures
        forall|name: Seq<char>, num: i32| #[trigger] previous_json(name, num) == text@ ==> r is Ok
            && r->Ok_0.0@ == name && r->Ok_0.1 == num,
{
    serde_json::from_str(text)
}

impl Sway {
    /// The name and number of the previously focused workspace, read from
    /// the text of its record. The text written for a pair reads back as it.
    pub fn get_previous_workspace(&self, json: &str) -> (r: Result<(String, i32), WsError>)
        ensures
            r is Err ==> r->Err_0 is SerdeJson,
            forall|name: Seq<char>, num: i32| #[trigger] previous_json(name, num) == json@ ==> r is Ok
                && r->Ok_0.0@ == name && r->Ok_0.1 == num,
    {
        match previous_of_json(json) {
            Ok(p) => Ok(p),
            Err(e) => Err(WsError::SerdeJson(e)),
        }
    }

    /// The text of the record that names workspace `num`, `name` as the
    /// previously focused one.
    pub fn save_focused_workspace(&self, num: i32, name: &str) -> (r: Result<String, WsError>)
        ensures
            r is Ok,
            r->Ok_0@ == previous_json(name@, num),
    {
        match json_of_previous(name, num) {
            Ok(t) => Ok(t),
            Err(e) => Err(WsError::SerdeJson(e)),
        }
    }
}

/// What the monitor writes when a workspace loses focus: the record of that
/// workspace, when the event gives both its number and its name; nothing
/// otherwise.
pub fn ws_monitor_record(sway: &Sway, old_num: Option<i32>, old_name: Option<&str>) -> (r: Option<
    String,
>)
    ensures
        r is Some <==> (old_num is Some && old_name is Some),
        r is Some ==> r->Some_0@ == previous_json(
            old_name->Some_0@,
            old_num->Some_0,
        ),
{
    match (old_num, old_name) {
        (Some(num), Some(name)) => match sway.save_focused_workspace(num, name) {
            Ok(t) => Some(t),
            Err(_) => None,
        },
        _ => None,
    }
}

} // verus!
