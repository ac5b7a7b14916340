//! The Model Context Protocol server's own logic: its tool catalog, the
//! routing of JSON-RPC methods and tool calls, and the error answers.
use vstd::prelude::*;
use crate::strings::{str_eq, strs};

verus! {

/// The JSON-RPC version every answer carries.
pub const JSONRPC_VERSION: &'static str = "2.0";

/// The protocol version announced at initialization.
pub const PROTOCOL_VERSION: &'static str = "2024-11-05";

/// The server name announced at initialization.
pub const SERVER_NAME: &'static str = "sofa-registry-mcp";

/// The error code of a request that does not parse.
pub const PARSE_ERROR: i64 = -32700;

/// The error code of an unknown method.
pub const METHOD_NOT_FOUND: i64 = -32601;

/// One argument of a tool.
#[derive(Debug)]
pub struct SchemaProperty {
    pub name: String,
    pub kind: String,
    pub description: String,
}

/// The arguments a tool takes: a JSON object schema.
#[derive(Debug)]
pub struct InputSchema {
    pub schema_type: String,
    pub properties: Vec<SchemaProperty>,
    pub required: Vec<String>,
}

/// A tool offered to assistants.
#[derive(Debug)]
pub struct ToolDefinition {
    pub name: String,
    pub description: String,
    pub input_schema: InputSchema,
}

/// The names of a list of tools, in order.
pub open spec fn tool_names(t: Seq<ToolDefinition>) -> Seq<Seq<char>> {
    t.map_values(|x: ToolDefinition| x.name@)
}

/// The names of the tools, in the order they are offered.
pub open spec fn catalog_names() -> Seq<Seq<char>> {
    seq![
        "list_services"@,
        "get_service_info"@,
        "search_services"@,
        "get_cluster_health"@,
        "get_slot_table"@,
    ]
}

/// The single string argument of each tool, if any.
pub open spec fn catalog_argument(i: int) -> Option<Seq<char>> {
    if i == 0 {
        Some("data_center"@)
    } else if i == 1 {
        Some("data_id"@)
    } else if i == 2 {
        Some("pattern"@)
    } else {
        None
    }
}

/// The description of each tool.
pub open spec fn catalog_description(i: int) -> Seq<char> {
    if i == 0 {
        "List all registered services in the SOFARegistry. Returns service data IDs and publisher/subscriber counts."@
    } else if i == 1 {
        "Get detailed information about a specific service including its publishers, subscribers, and data versions."@
    } else if i == 2 {
        "Search for services by name pattern (substring match). Returns matching service data IDs."@
    } else if i == 3 {
        "Get the health status of all SOFARegistry cluster components including meta, data, and session servers."@
    } else {
        "Get the current slot table showing how data is partitioned across data servers. Shows slot assignments and epochs."@
    }
}

/// The description of each tool's argument, if it has one.
pub open spec fn catalog_argument_description(i: int) -> Seq<char> {
    if i == 0 {
        "Data center to query (optional, defaults to all)"@
    } else if i == 1 {
        "The service data ID to look up"@
    } else {
        "Search pattern to match against service data IDs"@
    }
}

/// Whether tool `i` requires its argument.
pub open spec fn catalog_requires(i: int) -> bool {
    i == 1 || i == 2
}

fn text(s: &str) -> (r: String)
    ensures
        r@ == s@,
{
    String::from_str(s)
}

fn schema(argument: Option<(&str, &str)>, required: bool) -> (s: InputSchema)
    ensures
        s.schema_type@ == "object"@,
        match argument {
            Some((name, description)) => {
                &&& s.properties@.len() == 1
                &&& s.properties@[0].name@ == name@
                &&& s.properties@[0].kind@ == "string"@
                &&& s.properties@[0].description@ == description@
                &&& required ==> strs(s.required@) == seq![name@]
                &&& !required ==> s.required@.len() == 0
            },
            None => s.properties@.len() == 0 && s.required@.len() == 0,
        },
{
    let mut properties: Vec<SchemaProperty> = Vec::new();
    let mut req: Vec<String> = Vec::new();
    match argument {
        Some((name, description)) => {
            properties.push(SchemaProperty { name: text(name), kind: text("string"), description: text(description) });
            if required {
                req.push(text(name));
                assert(strs(req@) =~= seq![name@]);
            }
        },
        None => {},
    }
    InputSchema { schema_type: text("object"), properties, required: req }
}

/// The tools this server offers, in order: listing, looking up and
/// searching services, cluster health and the slot table.
pub fn all_tool_definitions() -> (r: Vec<ToolDefinition>)
    ensures
        tool_names(r@) == catalog_names(),
        forall|i: int|
            0 <= i < r@.len() ==> {
                let s = #[trigger] r@[i].input_schema;
                &&& r@[i].description@ == catalog_description(i)
                &&& s.schema_type@ == "object"@
                &&& match catalog_argument(i) {
                    Some(a) => s.properties@.len() == 1 && s.properties@[0].name@ == a
                        && s.properties@[0].kind@ == "string"@
                        && s.properties@[0].description@ == catalog_argument_description(i) && (catalog_requires(i) ==> strs(
                        s.required@,
                    ) == seq![a]) && (!catalog_requires(i) ==> s.required@.len() == 0),
                    None => s.properties@.len() == 0 && s.required@.len() == 0,
                }
            },
{
    let mut r: Vec<ToolDefinition> = Vec::new();
    r.push(ToolDefinition {
        name: text("list_services"),
        description: text(
            "List all registered services in the SOFARegistry. Returns service data IDs and publisher/subscriber counts.",
        ),
        input_schema: schema(Some(("data_center", "Data center to query (optional, defaults to all)")), false),
    });
    r.push(ToolDefinition {
        name: text("get_service_info"),
        description: text(
            "Get detailed information about a specific service including its publishers, subscribers, and data versions.",
        ),
        input_schema: schema(Some(("data_id", "The service data ID to look up")), true),
    });
    r.push(ToolDefinition {
        name: text("search_services"),
        description: text(
            "Search for services by name pattern (substring match). Returns matching service data IDs.",
        ),
        input_schema: schema(Some(("pattern", "Search pattern to match against service data IDs")), true),
    });
    r.push(ToolDefinition {
        name: text("get_cluster_health"),
        description: text(
            "Get the health status of all SOFARegistry cluster components including meta, data, and session servers.",
        ),
        input_schema: schema(None, false),
    });
    r.push(ToolDefinition {
        name: text("get_slot_table"),
        description: text(
            "Get the current slot table showing how data is partitioned across data servers. Shows slot assignments and epochs.",
        ),
        input_schema: schema(None, false),
    });
    proof {
        reveal_strlit("List all registered services in the SOFARegistry. Returns service data IDs and publisher/subscriber counts.");
        reveal_strlit("Get detailed information about a specific service including its publishers, subscribers, and data versions.");
        reveal_strlit("Search for services by name pattern (substring match). Returns matching service data IDs.");
        reveal_strlit("Get the health status of all SOFARegistry cluster components including meta, data, and session servers.");
        reveal_strlit("Get the current slot table showing how data is partitioned across data servers. Shows slot assignments and epochs.");
    }
    assert(tool_names(r@) =~= catalog_names());
    r
}

/// The methods the server answers.
#[derive(Clone, Copy, Debug, PartialEq, Eq, Structural)]
pub enum McpMethod {
    Initialize,
    Initialized,
    ListTools,
    CallTool,
    Ping,
    Unknown,
}

/// The method a request names.
pub open spec fn method_of(name: Seq<char>) -> McpMethod {
    if name == "initialize"@ {
        McpMethod::Initialize
    } else if name == "initialized"@ {
        McpMethod::Initialized
    } else if name == "tools/list"@ {
        McpMethod::ListTools
    } else if name == "tools/call"@ {
        McpMethod::CallTool
    } else if name == "ping"@ {
        McpMethod::Ping
    } else {
        McpMethod::Unknown
    }
}

/// The method a request names.
pub fn route_method(name: &str) -> (m: McpMethod)
    ensures
        m == method_of(name@),
{
    if str_eq(name, "initialize") {
        McpMethod::Initialize
    } else if str_eq(name, "initialized") {
        McpMethod::Initialized
    } else if str_eq(name, "tools/list") {
        McpMethod::ListTools
    } else if str_eq(name, "tools/call") {
        McpMethod::CallTool
    } else if str_eq(name, "ping") {
        McpMethod::Ping
    } else {
        McpMethod::Unknown
    }
}

/// The tools a call can name.
#[derive(Clone, Copy, Debug, PartialEq, Eq, Structural)]
pub enum McpTool {
    ListServices,
    GetServiceInfo,
    SearchServices,
    GetClusterHealth,
    GetSlotTable,
}

/// The tool a call names, if it names one of the catalog.
pub open spec fn tool_of(name: Seq<char>) -> Option<McpTool> {
    if name == catalog_names()[0] {
        Some(McpTool::ListServices)
    } else if name == catalog_names()[1] {
        Some(McpTool::GetServiceInfo)
    } else if name == catalog_names()[2] {
        Some(McpTool::SearchServices)
    } else if name == catalog_names()[3] {
        Some(McpTool::GetClusterHealth)
    } else if name == catalog_names()[4] {
        Some(McpTool::GetSlotTable)
    } else {
        None
    }
}

/// The message of a call to a tool not in the catalog.
pub open spec fn unknown_tool_message(name: Seq<char>) -> Seq<char> {
    "Unknown tool: "@ + name
}

/// The tool a call names, or the error text of an unknown tool.
pub fn route_tool(name: &str) -> (r: Result<McpTool, String>)
    ensures
        match tool_of(name@) {
            Some(t) => r == Ok::<McpTool, String>(t),
            None => r matches Err(m) && m@ == unknown_tool_message(name@),
        },
{
    if str_eq(name, "list_services") {
        Ok(McpTool::ListServices)
    } else if str_eq(name, "get_service_info") {
        Ok(McpTool::GetServiceInfo)
    } else if str_eq(name, "search_services") {
        Ok(McpTool::SearchServices)
    } else if str_eq(name, "get_cluster_health") {
        Ok(McpTool::GetClusterHealth)
    } else if str_eq(name, "get_slot_table") {
        Ok(McpTool::GetSlotTable)
    } else {
        let mut m = String::from_str("Unknown tool: ");
        m.append(name);
        Err(m)
    }
}

/// A JSON-RPC error.
#[derive(Debug, PartialEq, Eq)]
pub struct JsonRpcError {
    pub code: i64,
    pub message: String,
}

impl JsonRpcError {
    /// The error answering an unknown method.
    pub fn method_not_found() -> (e: JsonRpcError)
        ensures
            e.code == METHOD_NOT_FOUND,
            e.message@ == "Method not found: "@,
    {
        JsonRpcError { code: METHOD_NOT_FOUND, message: String::from_str("Method not found: ") }
    }

    /// The error answering a request that does not parse, with the parser's
    /// explanation.
    pub fn parse_error(detail: &str) -> (e: JsonRpcError)
        ensures
            e.code == PARSE_ERROR,
            e.message@ == "Parse error: "@ + detail@,
    {
        let mut m = String::from_str("Parse error: ");
        m.append(detail);
        JsonRpcError { code: PARSE_ERROR, message: m }
    }
}

/// The id a reply carries: the request's own, except for the `initialized`
/// notification, whose reply (an empty result) carries none.
pub fn reply_id<T>(method: McpMethod, id: Option<T>) -> (r: Option<T>)
    ensures
        r == (if method == McpMethod::Initialized {
            None
        } else {
            id
        }),
{
    match method {
        McpMethod::Initialized => None,
        _ => id,
    }
}

/// The error a reply carries: "method not found" for an unknown method,
/// none for the methods the server answers.
pub fn reply_error(method: McpMethod) -> (e: Option<JsonRpcError>)
    ensures
        method == McpMethod::Unknown ==> (e matches Some(x) && x.code == METHOD_NOT_FOUND && x.message@
            == "Method not found: "@),
        method != McpMethod::Unknown ==> e is None,
{
    match method {
        McpMethod::Unknown => Some(JsonRpcError::method_not_found()),
        _ => None,
    }
}

/// The text content of a tool's answer and whether it reports an error.
#[derive(Debug, PartialEq, Eq)]
pub struct ToolOutcome {
    pub text: String,
    pub is_error: bool,
}

/// A tool's answer from its result: the output, or `Error: ` and the error.
pub fn tool_outcome(result: Result<String, String>) -> (o: ToolOutcome)
    ensures
        match result {
            Ok(t) => o.text@ == t@ && !o.is_error,
            Err(e) => o.text@ == "Error: "@ + e@ && o.is_error,
        },
{
    match result {
        Ok(t) => ToolOutcome { text: t, is_error: false },
        Err(e) => {
            let mut m = String::from_str("Error: ");
            m.append(e.as_str());
            ToolOutcome { text: m, is_error: true }
        },
    }
}

} // verus!
