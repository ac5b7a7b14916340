//! The text the MCP tools answer with, from what the registry's admin HTTP
//! APIs returned.
use vstd::prelude::*;
use crate::keyed::{kfind, kpos, kunique, kviews, lemma_kpos};
use crate::strings::str_eq;
use crate::text::{decimal, push_decimal};

verus! {

/// What an HTTP request to an admin API came to.
#[derive(Debug)]
pub enum Fetch {
    /// A response: whether its status is a success, the status as text
    /// (such as `404 Not Found`), and its body or why it could not be read.
    Answered { success: bool, status: String, body: Result<String, String> },
    /// No response; why.
    Failed { error: String },
}

/// A response body read as JSON.
#[derive(Debug)]
pub enum JsonBody {
    /// An object: its members, each with its value written as JSON.
    Object { members: Vec<(String, String)> },
    /// Other JSON, written out indented.
    Other { pretty: String },
    /// Not JSON.
    Invalid,
}

/// `  key => value` lines of members.
pub open spec fn member_lines(m: Seq<(Seq<char>, Seq<char>)>) -> Seq<char>
    decreases m.len(),
{
    if m.len() == 0 {
        Seq::empty()
    } else {
        member_lines(m.drop_last()) + "  "@ + m.last().0 + " => "@ + m.last().1 + "\n"@
    }
}

/// The models of member pairs.
pub open spec fn members_view(v: Seq<(String, String)>) -> Seq<(Seq<char>, Seq<char>)> {
    v.map_values(|p: (String, String)| (p.0@, p.1@))
}

/// The body of a response, empty when it could not be read.
pub open spec fn body_or_empty(b: Result<String, String>) -> Seq<char> {
    match b {
        Ok(s) => s@,
        Err(_) => Seq::empty(),
    }
}

/// The answer of the listing of services.
pub open spec fn listing_text(fetch: Fetch, json: JsonBody) -> Result<Seq<char>, Seq<char>> {
    match fetch {
        Fetch::Failed { error } => Err("Failed to connect to data server: "@ + error@),
        Fetch::Answered { success, status, body } => match body {
            Err(e) => Err("Failed to read response body: "@ + e@),
            Ok(b) => if !success {
                Ok(
                    "Data server returned HTTP "@ + status@ + ". The registry may not be running.\nResponse: "@
                        + b@,
                )
            } else {
                match json {
                    JsonBody::Object { members } => Ok(
                        "Registered services:\n\n"@ + member_lines(members_view(members@)) + "\nTotal entries: "@
                            + decimal(members@.len()) + "\n"@,
                    ),
                    JsonBody::Other { pretty } => Ok("Registered services:\n\n"@ + pretty@),
                    JsonBody::Invalid => Ok("Registered services:\n\n"@ + b@),
                }
            },
        },
    }
}

fn append_members(out: &mut String, members: &Vec<(String, String)>)
    ensures
        final(out)@ == old(out)@ + member_lines(members_view(members@)),
{
    let ghost start = out@;
    let mut i: usize = 0;
    assert(members_view(members@).take(0) =~= Seq::<(Seq<char>, Seq<char>)>::empty());
    assert(start + member_lines(Seq::<(Seq<char>, Seq<char>)>::empty()) =~= start);
    while i < members.len()
        invariant
            i <= members.len(),
            out@ == start + member_lines(members_view(members@).take(i as int)),
        decreases members.len() - i,
    {
        let ghost mv = members_view(members@);
        assert(mv.take(i + 1).drop_last() =~= mv.take(i as int));
        assert(mv.take(i + 1).last() == (members@[i as int].0@, members@[i as int].1@));
        out.append("  ");
        out.append(members[i].0.as_str());
        out.append(" => ");
        out.append(members[i].1.as_str());
        out.append("\n");
        assert(out@ =~= start + member_lines(mv.take(i + 1)));
        i = i + 1;
    }
    assert(members_view(members@).take(members.len() as int) =~= members_view(members@));
}

/// The answer of the listing of services, from the data server's datum
/// counts.
pub fn format_listing(fetch: &Fetch, json: &JsonBody) -> (r: Result<String, String>)
    ensures
        match listing_text(*fetch, *json) {
            Ok(t) => r matches Ok(s) && s@ == t,
            Err(t) => r matches Err(s) && s@ == t,
        },
{
    match fetch {
        Fetch::Failed { error } => {
            let mut m = String::from_str("Failed to connect to data server: ");
            m.append(error.as_str());
            Err(m)
        },
        Fetch::Answered { success, status, body } => match body {
            Err(e) => {
                let mut m = String::from_str("Failed to read response body: ");
                m.append(e.as_str());
                Err(m)
            },
            Ok(b) => {
                if !*success {
                    let mut m = String::from_str("Data server returned HTTP ");
                    m.append(status.as_str());
                    m.append(". The registry may not be running.\nResponse: ");
                    m.append(b.as_str());
                    Ok(m)
                } else {
                    let mut out = String::from_str("Registered services:\n\n");
                    match json {
                        JsonBody::Object { members } => {
                            append_members(&mut out, members);
                            out.append("\nTotal entries: ");
                            push_decimal(&mut out, members.len() as u64);
                            out.append("\n");
                        },
                        JsonBody::Other { pretty } => {
                            out.append(pretty.as_str());
                        },
                        JsonBody::Invalid => {
                            out.append(b.as_str());
                        },
                    }
                    Ok(out)
                }
            },
        },
    }
}

/// One section of the service information: the JSON written out (or the raw
/// body) on success, else what went wrong.
pub open spec fn section_text(fetch: Fetch, pretty: Option<Seq<char>>, server: Seq<char>) -> Seq<char> {
    match fetch {
        Fetch::Failed { error } => "Could not reach "@ + server + " server: "@ + error@ + "\n"@,
        Fetch::Answered { success, status, body } => if success {
            match pretty {
                Some(p) => p,
                None => body_or_empty(body),
            }
        } else {
            server_name_capitalized(server) + " server returned HTTP "@ + status@ + "\n"@
        },
    }
}

/// `data` or `session` with a capital first letter.
pub open spec fn server_name_capitalized(server: Seq<char>) -> Seq<char> {
    if server == "data"@ {
        "Data"@
    } else {
        "Session"@
    }
}

/// The answer of the information on one service.
pub open spec fn service_info_text(
    data_id: Option<Seq<char>>,
    publishers: Fetch,
    publishers_pretty: Option<Seq<char>>,
    subscribers: Fetch,
    subscribers_pretty: Option<Seq<char>>,
) -> Result<Seq<char>, Seq<char>> {
    match data_id {
        None => Err("Missing required parameter: data_id"@),
        Some(id) => Ok(
            "Service info for: "@ + id + "\n\n"@ + "== Publishers ==\n"@ + section_text(
                publishers,
                publishers_pretty,
                "data"@,
            ) + "\n\n== Subscribers ==\n"@ + section_text(subscribers, subscribers_pretty, "session"@),
        ),
    }
}

fn append_section(out: &mut String, fetch: &Fetch, pretty: &Option<String>, is_data: bool)
    ensures
        final(out)@ == old(out)@ + section_text(
            *fetch,
            match *pretty {
                Some(p) => Some(p@),
                None => None,
            },
            if is_data {
                "data"@
            } else {
                "session"@
            },
        ),
{
    proof {
        reveal_strlit("data");
        reveal_strlit("session");
        assert("data"@ != "session"@) by {
            assert("data"@.len() != "session"@.len());
        }
    }
    match fetch {
        Fetch::Failed { error } => {
            out.append("Could not reach ");
            out.append(if is_data {
                "data"
            } else {
                "session"
            });
            out.append(" server: ");
            out.append(error.as_str());
            out.append("\n");
        },
        Fetch::Answered { success, status, body } => {
            if *success {
                match pretty {
                    Some(p) => out.append(p.as_str()),
                    None => match body {
                        Ok(b) => out.append(b.as_str()),
                        Err(_) => {
                            assert(old(out)@ + Seq::<char>::empty() =~= old(out)@);
                        },
                    },
                }
            } else {
                out.append(if is_data {
                    "Data"
                } else {
                    "Session"
                });
                out.append(" server returned HTTP ");
                out.append(status.as_str());
                out.append("\n");
            }
        },
    }
}

/// The answer of the information on one service, from the data server's
/// publishers and the session server's subscribers of it.
pub fn format_service_info(
    data_id: Option<&str>,
    publishers: &Fetch,
    publishers_pretty: &Option<String>,
    subscribers: &Fetch,
    subscribers_pretty: &Option<String>,
) -> (r: Result<String, String>)
    ensures
        match service_info_text(
            match data_id {
                Some(d) => Some(d@),
                None => None,
            },
            *publishers,
            match *publishers_pretty {
                Some(p) => Some(p@),
                None => None,
            },
            *subscribers,
            match *subscribers_pretty {
                Some(p) => Some(p@),
                None => None,
            },
        ) {
            Ok(t) => r matches Ok(s) && s@ == t,
            Err(t) => r matches Err(s) && s@ == t,
        },
{
    match data_id {
        None => Err(String::from_str("Missing required parameter: data_id")),
        Some(id) => {
            let mut out = String::from_str("Service info for: ");
            out.append(id);
            out.append("\n\n");
            out.append("== Publishers ==\n");
            append_section(&mut out, publishers, publishers_pretty, true);
            out.append("\n\n== Subscribers ==\n");
            append_section(&mut out, subscribers, subscribers_pretty, false);
            Ok(out)
        },
    }
}

/// The health lines of one server at `base_url`.
pub open spec fn health_lines(base_url: Seq<char>, fetch: Fetch) -> Seq<char> {
    match fetch {
        Fetch::Failed { error } => "  Status: UNREACHABLE at "@ + base_url + "\n  Error: "@ + error@ + "\n"@,
        Fetch::Answered { success, status, body } => {
            let b = body_or_empty(body);
            if success {
                "  Status: HEALTHY ("@ + base_url + ")\n"@ + if b.len() > 0 && b != "ok"@ && b != "OK"@ {
                    "  Details: "@ + b + "\n"@
                } else {
                    Seq::empty()
                }
            } else {
                "  Status: UNHEALTHY (HTTP "@ + status@ + ") at "@ + base_url + "\n"@ + "  Response: "@ + b + "\n"@
            }
        },
    }
}

fn body_text(body: &Result<String, String>) -> (s: &str)
    ensures
        s@ == body_or_empty(*body),
{
    match body {
        Ok(b) => b.as_str(),
        Err(_) => {
            proof {
                reveal_strlit("");
            }
            ""
        },
    }
}

/// Appends the health lines of the server at `base_url`.
pub fn check_health(output: &mut String, base_url: &str, fetch: &Fetch)
    ensures
        final(output)@ == old(output)@ + health_lines(base_url@, *fetch),
{
    match fetch {
        Fetch::Failed { error } => {
            output.append("  Status: UNREACHABLE at ");
            output.append(base_url);
            output.append("\n  Error: ");
            output.append(error.as_str());
            output.append("\n");
        },
        Fetch::Answered { success, status, body } => {
            let b = body_text(body);
            if *success {
                output.append("  Status: HEALTHY (");
                output.append(base_url);
                output.append(")\n");
                if !b.is_empty() && !crate::strings::str_eq(b, "ok") && !crate::strings::str_eq(b, "OK") {
                    output.append("  Details: ");
                    output.append(b);
                    output.append("\n");
                } else {
                    assert(old(output)@ + "  Status: HEALTHY ("@ + base_url@ + ")\n"@ + Seq::<char>::empty()
                        =~= old(output)@ + "  Status: HEALTHY ("@ + base_url@ + ")\n"@);
                }
            } else {
                output.append("  Status: UNHEALTHY (HTTP ");
                output.append(status.as_str());
                output.append(") at ");
                output.append(base_url);
                output.append("\n");
                output.append("  Response: ");
                output.append(b);
                output.append("\n");
            }
        },
    }
}

/// The meta leader lines: the leader's JSON written out (or the raw body),
/// the failing status and body, or why the server could not be reached.
pub open spec fn leader_lines(fetch: Fetch, pretty: Option<Seq<char>>) -> Seq<char> {
    match fetch {
        Fetch::Failed { error } => "  Unreachable: "@ + error@ + "\n"@,
        Fetch::Answered { success, status, body } => if success {
            "  "@ + match pretty {
                Some(p) => p,
                None => body_or_empty(body),
            } + "\n"@
        } else {
            "  HTTP "@ + status@ + " - "@ + body_or_empty(body) + "\n"@
        },
    }
}

/// The answer of the cluster health check, from the health of the meta,
/// data and session servers and the meta leader query.
pub open spec fn cluster_health_text(
    meta_url: Seq<char>,
    meta: Fetch,
    data_url: Seq<char>,
    data: Fetch,
    session_url: Seq<char>,
    session: Fetch,
    leader: Fetch,
    leader_pretty: Option<Seq<char>>,
) -> Seq<char> {
    "SOFARegistry Cluster Health\n\n"@ + "== Meta Server ==\n"@ + health_lines(meta_url, meta)
        + "\n== Data Server ==\n"@ + health_lines(data_url, data) + "\n== Session Server ==\n"@
        + health_lines(session_url, session) + "\n== Meta Leader ==\n"@ + leader_lines(leader, leader_pretty)
}

/// The answer of the cluster health check.
pub fn format_cluster_health(
    meta_url: &str,
    meta: &Fetch,
    data_url: &str,
    data: &Fetch,
    session_url: &str,
    session: &Fetch,
    leader: &Fetch,
    leader_pretty: &Option<String>,
) -> (r: String)
    ensures
        r@ == cluster_health_text(
            meta_url@,
            *meta,
            data_url@,
            *data,
            session_url@,
            *session,
            *leader,
            match *leader_pretty {
                Some(p) => Some(p@),
                None => None,
            },
        ),
{
    let mut out = String::from_str("SOFARegistry Cluster Health\n\n");
    out.append("== Meta Server ==\n");
    check_health(&mut out, meta_url, meta);
    out.append("\n== Data Server ==\n");
    check_health(&mut out, data_url, data);
    out.append("\n== Session Server ==\n");
    check_health(&mut out, session_url, session);
    out.append("\n== Meta Leader ==\n");
    match leader {
        Fetch::Failed { error } => {
            out.append("  Unreachable: ");
            out.append(error.as_str());
            out.append("\n");
        },
        Fetch::Answered { success, status, body } => {
            if *success {
                out.append("  ");
                match leader_pretty {
                    Some(p) => out.append(p.as_str()),
                    None => out.append(body_text(body)),
                }
                out.append("\n");
            } else {
                out.append("  HTTP ");
                out.append(status.as_str());
                out.append(" - ");
                out.append(body_text(body));
                out.append("\n");
            }
        },
    }
    out
}

/// The lower-case form of a text, as `str::to_lowercase` gives it.
pub uninterp spec fn lowercase(s: Seq<char>) -> Seq<char>;

/// Calls `str::to_lowercase`. The contract says only that the result is the
/// lower-case form of the text, a function of the text alone; the Unicode
/// case mapping itself is not stated.
#[verifier::external_body]
fn to_lowercase(s: &str) -> (r: String)
    ensures
        r@ == lowercase(s@),
{
    s.to_lowercase()
}

/// Whether `needle` occurs in `hay`.
pub open spec fn has_substring(hay: Seq<char>, needle: Seq<char>) -> bool {
    exists|i: int| 0 <= i && i + needle.len() <= hay.len() && #[trigger] hay.subrange(i, i + needle.len()) == needle
}

/// Whether `needle` occurs in `hay`.
pub fn contains_substring(hay: &str, needle: &str) -> (r: bool)
    ensures
        r == has_substring(hay@, needle@),
{
    let n = hay.unicode_len();
    let m = needle.unicode_len();
    if m > n {
        proof {
            if has_substring(hay@, needle@) {
                let i = choose|i: int|
                    0 <= i && i + needle@.len() <= hay@.len() && #[trigger] hay@.subrange(i, i + needle@.len())
                        == needle@;
            }
        }
        return false;
    }
    let mut i: usize = 0;
    while i <= n - m
        invariant
            n == hay@.len(),
            m == needle@.len(),
            m <= n,
            i <= n - m + 1,
            forall|k: int| 0 <= k < i ==> #[trigger] hay@.subrange(k, k + m) != needle@,
        decreases n - m + 1 - i,
    {
        let mut j: usize = 0;
        let mut same = true;
        while j < m
            invariant
                j <= m,
                i + m <= n,
                n == hay@.len(),
                m == needle@.len(),
                same == (forall|q: int| 0 <= q < j ==> hay@[i + q] == needle@[q]),
            decreases m - j,
        {
            if hay.get_char(i + j) != needle.get_char(j) {
                same = false;
            }
            j = j + 1;
        }
        if same {
            assert(hay@.subrange(i as int, i + m) =~= needle@);
            return true;
        }
        assert(hay@.subrange(i as int, i + m) != needle@) by {
            let q = choose|q: int| 0 <= q < m && hay@[i + q] != needle@[q];
            assert(hay@.subrange(i as int, i + m)[q] == hay@[i + q]);
        }
        i = i + 1;
    }
    proof {
        if has_substring(hay@, needle@) {
            let k = choose|k: int|
                0 <= k && k + needle@.len() <= hay@.len() && #[trigger] hay@.subrange(k, k + needle@.len())
                    == needle@;
            assert(hay@.subrange(k, k + m) != needle@);
        }
    }
    false
}

/// The members whose key, in lower case, holds `pattern_lower`.
pub open spec fn matching(m: Seq<(Seq<char>, Seq<char>)>, pattern_lower: Seq<char>) -> Seq<(Seq<char>, Seq<char>)>
    decreases m.len(),
{
    if m.len() == 0 {
        m
    } else if has_substring(lowercase(m.last().0), pattern_lower) {
        matching(m.drop_last(), pattern_lower).push(m.last())
    } else {
        matching(m.drop_last(), pattern_lower)
    }
}

/// The answer of a search of services by pattern.
pub open spec fn search_text(pattern: Option<Seq<char>>, fetch: Fetch, json: JsonBody) -> Result<Seq<char>, Seq<char>> {
    match pattern {
        None => Err("Missing required parameter: pattern"@),
        Some(p) => match fetch {
            Fetch::Failed { error } => Err("Failed to connect to data server: "@ + error@),
            Fetch::Answered { success, status, body } => match body {
                Err(e) => Err("Failed to read response body: "@ + e@),
                Ok(b) => if !success {
                    Ok(
                        "Data server returned HTTP "@ + status@
                            + ". The registry may not be running.\nResponse: "@ + b@,
                    )
                } else {
                    let head = "Search results for pattern \""@ + p + "\":\n\n"@;
                    match json {
                        JsonBody::Object { members } => {
                            let hits = matching(members_view(members@), lowercase(p));
                            Ok(
                                head + member_lines(hits) + if hits.len() == 0 {
                                    "  (no matching services found)\n"@
                                } else {
                                    "\n"@ + decimal(hits.len()) + " service(s) matched.\n"@
                                },
                            )
                        },
                        JsonBody::Other { pretty } => Ok(head + "  (no matching services found)\n"@),
                        JsonBody::Invalid => Ok("Search results for \""@ + p + "\" (raw):\n\n"@ + b@),
                    }
                },
            },
        },
    }
}

fn append_matching(out: &mut String, members: &Vec<(String, String)>, pattern_lower: &str) -> (n: usize)
    ensures
        final(out)@ == old(out)@ + member_lines(matching(members_view(members@), pattern_lower@)),
        n == matching(members_view(members@), pattern_lower@).len(),
{
    let ghost start = out@;
    let ghost mv = members_view(members@);
    let mut count: usize = 0;
    let mut i: usize = 0;
    assert(mv.take(0) =~= Seq::<(Seq<char>, Seq<char>)>::empty());
    assert(start + member_lines(Seq::<(Seq<char>, Seq<char>)>::empty()) =~= start);
    while i < members.len()
        invariant
            i <= members.len(),
            mv == members_view(members@),
            out@ == start + member_lines(matching(mv.take(i as int), pattern_lower@)),
            count == matching(mv.take(i as int), pattern_lower@).len(),
            count <= i,
        decreases members.len() - i,
    {
        assert(mv.take(i + 1).drop_last() =~= mv.take(i as int));
        assert(mv.take(i + 1).last() == (members@[i as int].0@, members@[i as int].1@));
        let key_lower = to_lowercase(members[i].0.as_str());
        let ghost prev = matching(mv.take(i as int), pattern_lower@);
        let ghost item = mv[i as int];
        assert(item == (members@[i as int].0@, members@[i as int].1@));
        if contains_substring(key_lower.as_str(), pattern_lower) {
            assert(matching(mv.take(i + 1), pattern_lower@) == prev.push(item));
            assert(prev.push(item).drop_last() =~= prev);
            out.append("  ");
            out.append(members[i].0.as_str());
            out.append(" => ");
            out.append(members[i].1.as_str());
            out.append("\n");
            count = count + 1;
        } else {
            assert(matching(mv.take(i + 1), pattern_lower@) == prev);
        }
        assert(out@ =~= start + member_lines(matching(mv.take(i + 1), pattern_lower@)));
        i = i + 1;
    }
    assert(mv.take(members.len() as int) =~= mv);
    count
}

/// The answer of a search of services whose data id holds `pattern`, case
/// aside, from the data server's datum counts.
pub fn format_search(pattern: Option<&str>, fetch: &Fetch, json: &JsonBody) -> (r: Result<String, String>)
    ensures
        match search_text(
            match pattern {
                Some(p) => Some(p@),
                None => None,
            },
            *fetch,
            *json,
        ) {
            Ok(t) => r matches Ok(s) && s@ == t,
            Err(t) => r matches Err(s) && s@ == t,
        },
{
    let p = match pattern {
        None => {
            return Err(String::from_str("Missing required parameter: pattern"));
        },
        Some(p) => p,
    };
    match fetch {
        Fetch::Failed { error } => {
            let mut m = String::from_str("Failed to connect to data server: ");
            m.append(error.as_str());
            Err(m)
        },
        Fetch::Answered { success, status, body } => match body {
            Err(e) => {
                let mut m = String::from_str("Failed to read response body: ");
                m.append(e.as_str());
                Err(m)
            },
            Ok(b) => {
                if !*success {
                    let mut m = String::from_str("Data server returned HTTP ");
                    m.append(status.as_str());
                    m.append(". The registry may not be running.\nResponse: ");
                    m.append(b.as_str());
                    return Ok(m);
                }
                match json {
                    JsonBody::Invalid => {
                        let mut m = String::from_str("Search results for \"");
                        m.append(p);
                        m.append("\" (raw):\n\n");
                        m.append(b.as_str());
                        Ok(m)
                    },
                    JsonBody::Object { members } => {
                        let lower = to_lowercase(p);
                        let mut out = String::from_str("Search results for pattern \"");
                        out.append(p);
                        out.append("\":\n\n");
                        let n = append_matching(&mut out, members, lower.as_str());
                        if n == 0 {
                            out.append("  (no matching services found)\n");
                        } else {
                            out.append("\n");
                            push_decimal(&mut out, n as u64);
                            out.append(" service(s) matched.\n");
                        }
                        Ok(out)
                    },
                    JsonBody::Other { pretty: _ } => {
                        let mut out = String::from_str("Search results for pattern \"");
                        out.append(p);
                        out.append("\":\n\n");
                        out.append("  (no matching services found)\n");
                        Ok(out)
                    },
                }
            },
        },
    }
}

/// The `slots` member of a slot table read as JSON.
#[derive(Debug)]
pub enum SlotsJson {
    /// No `slots` member; the whole table written out indented.
    Missing { whole: String },
    /// An array: the `leader` of each slot, when it is a string.
    Array { leaders: Vec<Option<String>> },
    /// Something else, written out indented.
    Other { pretty: String },
}

/// A slot table body read as JSON.
#[derive(Debug)]
pub enum SlotTableJson {
    /// An object: its `epoch` written as JSON, if present, and its slots.
    Object { epoch: Option<String>, slots: SlotsJson },
    /// Other JSON, written out indented.
    NotObject { pretty: String },
    /// Not JSON.
    Invalid,
}

/// The number of slots each leader leads, leaders in order of first
/// appearance.
pub open spec fn tally(leaders: Seq<Option<Seq<char>>>) -> Seq<(Seq<char>, usize)>
    decreases leaders.len(),
{
    if leaders.len() == 0 {
        Seq::empty()
    } else {
        let t = tally(leaders.drop_last());
        match leaders.last() {
            Some(l) => if kpos(t, l) >= 0 {
                t.update(kpos(t, l), (l, (t[kpos(t, l)].1 + 1) as usize))
            } else {
                t.push((l, 1usize))
            },
            None => t,
        }
    }
}

/// `    server => n slots` lines.
pub open spec fn tally_lines(t: Seq<(Seq<char>, usize)>) -> Seq<char>
    decreases t.len(),
{
    if t.len() == 0 {
        Seq::empty()
    } else {
        tally_lines(t.drop_last()) + "    "@ + t.last().0 + " => "@ + decimal(t.last().1 as nat) + " slots\n"@
    }
}

/// The models of optional leader names.
pub open spec fn leaders_view(v: Seq<Option<String>>) -> Seq<Option<Seq<char>>> {
    v.map_values(|o: Option<String>| match o {
        Some(s) => Some(s@),
        None => None,
    })
}

/// The answer of the slot table query.
pub open spec fn slot_table_text(fetch: Fetch, json: SlotTableJson) -> Result<Seq<char>, Seq<char>> {
    match fetch {
        Fetch::Failed { error } => Err("Failed to connect to meta server: "@ + error@),
        Fetch::Answered { success, status, body } => match body {
            Err(e) => Err("Failed to read response body: "@ + e@),
            Ok(b) => if !success {
                Ok(
                    "Meta server returned HTTP "@ + status@ + ". The registry may not be running.\nResponse: "@
                        + b@,
                )
            } else {
                match json {
                    SlotTableJson::Invalid => Ok("Slot table (raw):\n\n"@ + b@),
                    SlotTableJson::NotObject { pretty } => Ok("Slot Table:\n\n"@ + pretty@),
                    SlotTableJson::Object { epoch, slots } => Ok(
                        "Slot Table:\n\n"@ + match epoch {
                            Some(e) => "  Epoch: "@ + e@ + "\n"@,
                            None => Seq::empty(),
                        } + match slots {
                            SlotsJson::Missing { whole } => whole@,
                            SlotsJson::Other { pretty } => "  Slots: "@ + pretty@ + "\n"@,
                            SlotsJson::Array { leaders } => "  Total slots: "@ + decimal(leaders@.len())
                                + "\n\n"@ + "  Slot distribution by leader:\n"@ + tally_lines(
                                tally(leaders_view(leaders@)),
                            ),
                        },
                    ),
                }
            },
        },
    }
}

fn count_leaders(leaders: &Vec<Option<String>>) -> (t: Vec<(String, usize)>)
    ensures
        kviews(t@) == tally(leaders_view(leaders@)),
{
    let ghost lv = leaders_view(leaders@);
    let mut t: Vec<(String, usize)> = Vec::new();
    let mut i: usize = 0;
    assert(lv.take(0) =~= Seq::<Option<Seq<char>>>::empty());
    assert(kviews(t@) =~= Seq::<(Seq<char>, usize)>::empty());
    while i < leaders.len()
        invariant
            i <= leaders.len(),
            lv == leaders_view(leaders@),
            kviews(t@) == tally(lv.take(i as int)),
            kunique(kviews(t@)),
            forall|k: int| 0 <= k < t@.len() ==> #[trigger] t@[k].1 <= i,
        decreases leaders.len() - i,
    {
        assert(lv.take(i + 1).drop_last() =~= lv.take(i as int));
        let ghost before = kviews(t@);
        match &leaders[i] {
            Some(l) => {
                assert(lv.take(i + 1).last() == Some(l@));
                proof {
                    lemma_kpos(before, l@);
                }
                match kfind(&t, l.as_str()) {
                    Some(p) => {
                        let (k, c) = t.remove(p);
                        t.insert(p, (k, c + 1));
                        assert(kviews(t@) =~= before.update(p as int, (l@, (c + 1) as usize)));
                        assert(kunique(kviews(t@))) by {
                            assert forall|a: int, b: int| 0 <= a < b < kviews(t@).len() implies #[trigger] kviews(t@)[a].0
                                != #[trigger] kviews(t@)[b].0 by {
                                assert(kviews(t@)[a].0 == before[a].0 && kviews(t@)[b].0 == before[b].0);
                            }
                        }
                    },
                    None => {
                        t.push((l.clone(), 1));
                        assert(kviews(t@) =~= before.push((l@, 1usize)));
                    },
                }
            },
            None => {
                assert(lv.take(i + 1).last() is None);
            },
        }
        i = i + 1;
    }
    assert(lv.take(leaders.len() as int) =~= lv);
    t
}

fn append_tally(out: &mut String, t: &Vec<(String, usize)>)
    ensures
        final(out)@ == old(out)@ + tally_lines(kviews(t@)),
{
    let ghost start = out@;
    let ghost tv = kviews(t@);
    let mut i: usize = 0;
    assert(tv.take(0) =~= Seq::<(Seq<char>, usize)>::empty());
    assert(start + tally_lines(Seq::<(Seq<char>, usize)>::empty()) =~= start);
    while i < t.len()
        invariant
            i <= t.len(),
            tv == kviews(t@),
            out@ == start + tally_lines(tv.take(i as int)),
        decreases t.len() - i,
    {
        assert(tv.take(i + 1).drop_last() =~= tv.take(i as int));
        assert(tv.take(i + 1).last() == (t@[i as int].0@, t@[i as int].1));
        out.append("    ");
        out.append(t[i].0.as_str());
        out.append(" => ");
        push_decimal(out, t[i].1 as u64);
        out.append(" slots\n");
        assert(out@ =~= start + tally_lines(tv.take(i + 1)));
        i = i + 1;
    }
    assert(tv.take(t.len() as int) =~= tv);
}

/// The answer of the slot table query, from the meta server's slot table.
pub fn format_slot_table(fetch: &Fetch, json: &SlotTableJson) -> (r: Result<String, String>)
    ensures
        match slot_table_text(*fetch, *json) {
            Ok(t) => r matches Ok(s) && s@ == t,
            Err(t) => r matches Err(s) && s@ == t,
        },
{
    match fetch {
        Fetch::Failed { error } => {
            let mut m = String::from_str("Failed to connect to meta server: ");
            m.append(error.as_str());
            Err(m)
        },
        Fetch::Answered { success, status, body } => match body {
            Err(e) => {
                let mut m = String::from_str("Failed to read response body: ");
                m.append(e.as_str());
                Err(m)
            },
            Ok(b) => {
                if !*success {
                    let mut m = String::from_str("Meta server returned HTTP ");
                    m.append(status.as_str());
                    m.append(". The registry may not be running.\nResponse: ");
                    m.append(b.as_str());
                    return Ok(m);
                }
                match json {
                    SlotTableJson::Invalid => {
                        let mut m = String::from_str("Slot table (raw):\n\n");
                        m.append(b.as_str());
                        Ok(m)
                    },
                    SlotTableJson::NotObject { pretty } => {
                        let mut m = String::from_str("Slot Table:\n\n");
                        m.append(pretty.as_str());
                        Ok(m)
                    },
                    SlotTableJson::Object { epoch, slots } => {
                        let mut out = String::from_str("Slot Table:\n\n");
                        let ghost head = out@;
                        match epoch {
                            Some(e) => {
                                out.append("  Epoch: ");
                                out.append(e.as_str());
                                out.append("\n");
                            },
                            None => {
                                assert(head + Seq::<char>::empty() =~= head);
                            },
                        }
                        match slots {
                            SlotsJson::Missing { whole } => {
                                out.append(whole.as_str());
                            },
                            SlotsJson::Other { pretty } => {
                                out.append("  Slots: ");
                                out.append(pretty.as_str());
                                out.append("\n");
                            },
                            SlotsJson::Array { leaders } => {
                                out.append("  Total slots: ");
                                push_decimal(&mut out, leaders.len() as u64);
                                out.append("\n\n");
                                out.append("  Slot distribution by leader:\n");
                                let t = count_leaders(leaders);
                                append_tally(&mut out, &t);
                            },
                        }
                        Ok(out)
                    },
                }
            },
        },
    }
}

} // verus!
