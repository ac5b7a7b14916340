//! The MCP tools from what the registry's admin APIs answered: each reads
//! the response bodies as JSON and writes the tool's text.
use vstd::prelude::*;
use crate::json::{json_body_of, json_pretty_of, read_json_body, read_pretty, read_slot_table_json, slot_table_json_of};
use crate::mcp_format::{
    cluster_health_text, format_cluster_health, format_listing, format_search, format_service_info,
    format_slot_table, listing_text, search_text, service_info_text, slot_table_text, Fetch, JsonBody,
    SlotTableJson,
};
use crate::model::opt_view;

verus! {

/// Whether `j` is how a fetched body reads as JSON; a body that was not
/// read is not JSON.
pub open spec fn fetched_json(f: Fetch, j: JsonBody) -> bool {
    match f {
        Fetch::Answered { body: Ok(b), .. } => json_body_of(b@, j),
        _ => j is Invalid,
    }
}

/// Whether `j` is how a fetched slot table body reads as JSON; a body that
/// was not read is not JSON.
pub open spec fn fetched_slot_table(f: Fetch, j: SlotTableJson) -> bool {
    match f {
        Fetch::Answered { body: Ok(b), .. } => slot_table_json_of(b@, j),
        _ => j is Invalid,
    }
}

/// A fetched body's JSON written out indented, if it was read and is JSON.
pub open spec fn fetched_pretty(f: Fetch) -> Option<Seq<char>> {
    match f {
        Fetch::Answered { body: Ok(b), .. } => json_pretty_of(b@),
        _ => None,
    }
}

/// Whether a tool's answer is the text `t`, as output or as error.
pub open spec fn answers(r: Result<String, String>, t: Result<Seq<char>, Seq<char>>) -> bool {
    match t {
        Ok(x) => r matches Ok(s) && s@ == x,
        Err(x) => r matches Err(s) && s@ == x,
    }
}

fn json_of(f: &Fetch) -> (j: JsonBody)
    ensures
        fetched_json(*f, j),
{
    match f {
        Fetch::Answered { body: Ok(b), .. } => read_json_body(b.as_str()),
        _ => JsonBody::Invalid,
    }
}

fn pretty_of(f: &Fetch) -> (r: Option<String>)
    ensures
        opt_view(r) == fetched_pretty(*f),
{
    match f {
        Fetch::Answered { body: Ok(b), .. } => read_pretty(b.as_str()),
        _ => None,
    }
}

/// The listing of services, from the data server's datum counts.
pub fn list_services(counts: &Fetch) -> (r: Result<String, String>)
    ensures
        exists|j: JsonBody| #[trigger] fetched_json(*counts, j) && answers(r, listing_text(*counts, j)),
{
    let j = json_of(counts);
    let r = format_listing(counts, &j);
    assert(fetched_json(*counts, j) && answers(r, listing_text(*counts, j)));
    r
}

/// The services whose data id holds `pattern`, case aside, from the data
/// server's datum counts.
pub fn search_services(pattern: Option<&str>, counts: &Fetch) -> (r: Result<String, String>)
    ensures
        exists|j: JsonBody|
            #[trigger] fetched_json(*counts, j) && answers(
                r,
                search_text(
                    match pattern {
                        Some(p) => Some(p@),
                        None => None,
                    },
                    *counts,
                    j,
                ),
            ),
{
    let j = json_of(counts);
    let r = format_search(pattern, counts, &j);
    assert(fetched_json(*counts, j));
    r
}

/// The information on one service, from the data server's publishers and
/// the session server's subscribers of it.
pub fn get_service_info(data_id: Option<&str>, publishers: &Fetch, subscribers: &Fetch) -> (r: Result<
    String,
    String,
>)
    ensures
        answers(
            r,
            service_info_text(
                match data_id {
                    Some(d) => Some(d@),
                    None => None,
                },
                *publishers,
                fetched_pretty(*publishers),
                *subscribers,
                fetched_pretty(*subscribers),
            ),
        ),
{
    let p = pretty_of(publishers);
    let s = pretty_of(subscribers);
    format_service_info(data_id, publishers, &p, subscribers, &s)
}

/// The cluster health, from the health checks of the meta, data and
/// session servers and the meta leader query.
pub fn get_cluster_health(
    meta_url: &str,
    meta: &Fetch,
    data_url: &str,
    data: &Fetch,
    session_url: &str,
    session: &Fetch,
    leader: &Fetch,
) -> (r: String)
    ensures
        r@ == cluster_health_text(
            meta_url@,
            *meta,
            data_url@,
            *data,
            session_url@,
            *session,
            *leader,
            fetched_pretty(*leader),
        ),
{
    let lp = pretty_of(leader);
    format_cluster_health(meta_url, meta, data_url, data, session_url, session, leader, &lp)
}

/// The slot table, from the meta server's slot table.
pub fn get_slot_table(table: &Fetch) -> (r: Result<String, String>)
    ensures
        exists|j: SlotTableJson| #[trigger] fetched_slot_table(*table, j) && answers(r, slot_table_text(*table, j)),
{
    let j = match table {
        Fetch::Answered { body: Ok(b), .. } => read_slot_table_json(b.as_str()),
        _ => SlotTableJson::Invalid,
    };
    let r = format_slot_table(table, &j);
    assert(fetched_slot_table(*table, j));
    r
}

} // verus!
