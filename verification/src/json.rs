//! Reading the JSON bodies of the registry's admin APIs: the parts the MCP
//! tools show, as plain texts.
use vstd::prelude::*;
use crate::keyed::{kget, kpos};
use crate::mcp_format::{leaders_view, members_view, JsonBody, SlotTableJson, SlotsJson};
use crate::model::opt_view;
use crate::strings::str_eq;

verus! {

/// The members of the JSON object a text holds, each value written as
/// compact JSON, in `serde_json`'s key order; `None` when the text is not a
/// JSON object.
pub uninterp spec fn json_members_of(text: Seq<char>) -> Option<Seq<(Seq<char>, Seq<char>)>>;

/// The JSON a text holds, written out indented; `None` when the text is not
/// JSON.
pub uninterp spec fn json_pretty_of(text: Seq<char>) -> Option<Seq<char>>;

/// The elements of the JSON array a text holds, each written as compact
/// JSON; `None` when the text is not a JSON array.
pub uninterp spec fn json_elements_of(text: Seq<char>) -> Option<Seq<Seq<char>>>;

/// The contents of the JSON string a text holds; `None` when the text is not
/// a JSON string.
pub uninterp spec fn json_string_of(text: Seq<char>) -> Option<Seq<char>>;

/// Calls `serde_json::from_str` for a `Value` and, for an object, renders
/// each member's value with `Value`'s `Display` (compact JSON). The contract
/// names the result; how JSON is parsed and written is not stated.
#[verifier::external_body]
fn read_members(text: &str) -> (r: Option<Vec<(String, String)>>)
    ensures
        match r {
            Some(m) => json_members_of(text@) == Some(members_view(m@)),
            None => json_members_of(text@) is None,
        },
{
    match serde_json::from_str::<serde_json::Value>(text) {
        Ok(serde_json::Value::Object(m)) => Some(m.iter().map(|(k, v)| (k.clone(), v.to_string())).collect()),
        _ => None,
    }
}

/// Calls `serde_json::from_str` for a `Value` and then
/// `serde_json::to_string_pretty` on it (the text itself should rendering
/// fail). The contract names the result; the layout is not stated.
#[verifier::external_body]
pub(crate) fn read_pretty(text: &str) -> (r: Option<String>)
    ensures
        opt_view(r) == json_pretty_of(text@),
{
    match serde_json::from_str::<serde_json::Value>(text) {
        Ok(v) => Some(serde_json::to_string_pretty(&v).unwrap_or_else(|_| text.to_string())),
        Err(_) => None,
    }
}

/// Calls `serde_json::from_str` for a `Value` and, for an array, renders
/// each element with `Value`'s `Display`. The contract names the result.
#[verifier::external_body]
fn read_elements(text: &str) -> (r: Option<Vec<String>>)
    ensures
        match r {
            Some(e) => json_elements_of(text@) == Some(e@.map_values(|s: String| s@)),
            None => json_elements_of(text@) is None,
        },
{
    match serde_json::from_str::<serde_json::Value>(text) {
        Ok(serde_json::Value::Array(a)) => Some(a.iter().map(|v| v.to_string()).collect()),
        _ => None,
    }
}

/// Calls `serde_json::from_str` for a `Value` and takes out the contents of
/// a string. The contract names the result.
#[verifier::external_body]
fn read_string(text: &str) -> (r: Option<String>)
    ensures
        opt_view(r) == json_string_of(text@),
{
    match serde_json::from_str::<serde_json::Value>(text) {
        Ok(serde_json::Value::String(s)) => Some(s),
        _ => None,
    }
}

/// Whether `j` is how a body reads as JSON: an object's members, other JSON
/// written out, or not JSON.
pub open spec fn json_body_of(body: Seq<char>, j: JsonBody) -> bool {
    match j {
        JsonBody::Object { members } => json_members_of(body) == Some(members_view(members@)),
        JsonBody::Other { pretty } => json_members_of(body) is None && json_pretty_of(body) == Some(pretty@),
        JsonBody::Invalid => json_members_of(body) is None && json_pretty_of(body) is None,
    }
}

/// How a response body reads as JSON.
pub fn read_json_body(body: &str) -> (j: JsonBody)
    ensures
        json_body_of(body@, j),
{
    match read_members(body) {
        Some(members) => JsonBody::Object { members },
        None => match read_pretty(body) {
            Some(pretty) => JsonBody::Other { pretty },
            None => JsonBody::Invalid,
        },
    }
}

/// The JSON written out indented, or the text itself when it is not JSON.
pub fn pretty_or_text(text: &str) -> (r: String)
    ensures
        r@ == match json_pretty_of(text@) {
            Some(p) => p,
            None => text@,
        },
{
    match read_pretty(text) {
        Some(p) => p,
        None => text.to_string(),
    }
}

/// The value of the member named `key`, as compact JSON.
fn member(members: &Vec<(String, String)>, key: &str) -> (r: Option<String>)
    ensures
        opt_view(r) == kget(members_view(members@), key@),
{
    let ghost s = members_view(members@);
    let mut i: usize = members.len();
    assert(s.take(i as int) =~= s);
    while i > 0
        invariant
            i <= members.len(),
            s == members_view(members@),
            kpos(s, key@) == kpos(s.take(i as int), key@),
        decreases i,
    {
        let ghost t = s.take(i as int);
        assert(t.drop_last() =~= s.take(i - 1));
        assert(t.last() == (members@[i - 1].0@, members@[i - 1].1@));
        if str_eq(members[i - 1].0.as_str(), key) {
            assert(kpos(s, key@) == i - 1);
            return Some(members[i - 1].1.clone());
        }
        i = i - 1;
    }
    assert(s.take(0) =~= Seq::<(Seq<char>, Seq<char>)>::empty());
    None
}

/// The `leader` of a slot written as JSON, when the slot is an object whose
/// `leader` is a string.
pub open spec fn slot_leader_of(slot: Seq<char>) -> Option<Seq<char>> {
    match json_members_of(slot) {
        Some(m) => match kget(m, "leader"@) {
            Some(v) => json_string_of(v),
            None => None,
        },
        None => None,
    }
}

/// Whether `j` is how a slot table body reads as JSON: for an object, its
/// `epoch` (compact JSON) and its `slots` (missing, an array whose slots'
/// leaders are read, or other JSON written out); other JSON written out;
/// or not JSON.
pub open spec fn slot_table_json_of(body: Seq<char>, j: SlotTableJson) -> bool {
    match json_members_of(body) {
        None => match json_pretty_of(body) {
            Some(p) => j matches SlotTableJson::NotObject { pretty } && pretty@ == p,
            None => j is Invalid,
        },
        Some(m) => j matches SlotTableJson::Object { epoch, slots } && opt_view(epoch) == kget(m, "epoch"@)
            && match kget(m, "slots"@) {
            None => slots matches SlotsJson::Missing { whole } && whole@ == match json_pretty_of(body) {
                Some(p) => p,
                None => body,
            },
            Some(t) => match json_elements_of(t) {
                Some(e) => slots matches SlotsJson::Array { leaders } && leaders_view(leaders@) == e.map_values(
                    |x: Seq<char>| slot_leader_of(x),
                ),
                None => slots matches SlotsJson::Other { pretty } && pretty@ == match json_pretty_of(t) {
                    Some(p) => p,
                    None => Seq::<char>::empty(),
                },
            },
        },
    }
}

fn read_slot_leader(slot: &str) -> (r: Option<String>)
    ensures
        opt_view(r) == slot_leader_of(slot@),
{
    proof {
        reveal_strlit("leader");
    }
    match read_members(slot) {
        Some(m) => match member(&m, "leader") {
            Some(v) => read_string(v.as_str()),
            None => None,
        },
        None => None,
    }
}

/// How a slot table body reads as JSON.
pub fn read_slot_table_json(body: &str) -> (j: SlotTableJson)
    ensures
        slot_table_json_of(body@, j),
{
    proof {
        reveal_strlit("epoch");
        reveal_strlit("slots");
    }
    match read_members(body) {
        None => match read_pretty(body) {
            Some(pretty) => SlotTableJson::NotObject { pretty },
            None => SlotTableJson::Invalid,
        },
        Some(m) => {
            let epoch = member(&m, "epoch");
            let slots = match member(&m, "slots") {
                None => SlotsJson::Missing { whole: pretty_or_text(body) },
                Some(t) => match read_elements(t.as_str()) {
                    Some(e) => {
                        let ghost ev = e@.map_values(|s: String| s@);
                        let mut leaders: Vec<Option<String>> = Vec::new();
                        let mut i: usize = 0;
                        while i < e.len()
                            invariant
                                i <= e.len(),
                                ev == e@.map_values(|s: String| s@),
                                leaders_view(leaders@) == ev.take(i as int).map_values(
                                    |x: Seq<char>| slot_leader_of(x),
                                ),
                            decreases e.len() - i,
                        {
                            let l = read_slot_leader(e[i].as_str());
                            let ghost before = leaders_view(leaders@);
                            leaders.push(l);
                            assert(leaders_view(leaders@) =~= before.push(opt_view(l)));
                            assert(ev.take(i + 1) =~= ev.take(i as int).push(ev[i as int]));
                            assert(ev.take(i + 1).map_values(|x: Seq<char>| slot_leader_of(x)) =~= ev.take(
                                i as int,
                            ).map_values(|x: Seq<char>| slot_leader_of(x)).push(slot_leader_of(ev[i as int])));
                            i = i + 1;
                        }
                        assert(ev.take(e.len() as int) =~= ev);
                        SlotsJson::Array { leaders }
                    },
                    None => SlotsJson::Other {
                        pretty: match read_pretty(t.as_str()) {
                            Some(p) => p,
                            None => String::new(),
                        },
                    },
                },
            };
            SlotTableJson::Object { epoch, slots }
        },
    }
}

} // verus!
