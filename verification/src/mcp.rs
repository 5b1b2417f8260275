//! The rules of the MCP server that speaks JSON-RPC over stdio: which
//! method and which tool a request names, the errors it answers with, and
//! the arguments of a query. Reading, writing and building the JSON
//! documents are the caller's part.

use vstd::prelude::*;
use crate::storage::find_repo;
use crate::text::{owned, same_text};
use crate::types::RepoMeta;

verus! {

/// JSON-RPC: the request line is not valid JSON.
pub const PARSE_ERROR: i32 = -32700;
/// JSON-RPC: no such method (also used for unknown tools and resources).
pub const METHOD_NOT_FOUND: i32 = -32601;
/// A tool failed.
pub const SERVER_ERROR: i32 = -32000;

/// The methods the server knows.
#[derive(Debug, Clone, Copy, PartialEq, Eq, Structural)]
pub enum McpMethod {
    Initialize,
    ToolsList,
    ToolsCall,
    ResourcesList,
    ResourcesRead,
    Unknown,
}

/// The method a name denotes.
pub open spec fn method_of(name: Seq<char>) -> McpMethod {
    if name == "initialize"@ {
        McpMethod::Initialize
    } else if name == "tools/list"@ {
        McpMethod::ToolsList
    } else if name == "tools/call"@ {
        McpMethod::ToolsCall
    } else if name == "resources/list"@ {
        McpMethod::ResourcesList
    } else if name == "resources/read"@ {
        McpMethod::ResourcesRead
    } else {
        McpMethod::Unknown
    }
}

/// The method a request names (see `method_of`).
pub fn route_method(name: &str) -> (r: McpMethod)
    ensures
        r == method_of(name@),
{
    if same_text(name, "initialize") {
        McpMethod::Initialize
    } else if same_text(name, "tools/list") {
        McpMethod::ToolsList
    } else if same_text(name, "tools/call") {
        McpMethod::ToolsCall
    } else if same_text(name, "resources/list") {
        McpMethod::ResourcesList
    } else if same_text(name, "resources/read") {
        McpMethod::ResourcesRead
    } else {
        McpMethod::Unknown
    }
}

/// The error a method is answered with, if it is answered with one:
/// reading a resource finds none, and an unknown method is not found.
pub open spec fn method_error_of(m: McpMethod) -> Option<(i32, Seq<char>)> {
    match m {
        McpMethod::ResourcesRead => Some((METHOD_NOT_FOUND, "resource not found"@)),
        McpMethod::Unknown => Some((METHOD_NOT_FOUND, "Method not found"@)),
        _ => None,
    }
}

/// The error a method is answered with (see `method_error_of`).
pub fn method_error(m: McpMethod) -> (r: Option<(i32, String)>)
    ensures
        match r {
            Some((code, msg)) => method_error_of(m) == Some((code, msg@)),
            None => method_error_of(m) is None,
        },
{
    match m {
        McpMethod::ResourcesRead => Some((METHOD_NOT_FOUND, owned("resource not found"))),
        McpMethod::Unknown => Some((METHOD_NOT_FOUND, owned("Method not found"))),
        _ => None,
    }
}

/// The tools the server offers.
#[derive(Debug, Clone, Copy, PartialEq, Eq, Structural)]
pub enum McpTool {
    ListRepos,
    Query,
    Unknown,
}

/// The tool a name denotes.
pub open spec fn tool_of(name: Seq<char>) -> McpTool {
    if name == "list_repos"@ {
        McpTool::ListRepos
    } else if name == "query"@ {
        McpTool::Query
    } else {
        McpTool::Unknown
    }
}

/// The tool a call names (see `tool_of`); a call without a name names the
/// empty one.
pub fn route_tool(name: Option<&str>) -> (r: McpTool)
    ensures
        r == tool_of(match name { Some(n) => n@, None => Seq::<char>::empty() }),
{
    let n = match name {
        Some(n) => n,
        None => "",
    };
    proof {
        reveal_strlit("");
        reveal_strlit("list_repos");
        reveal_strlit("query");
        assert(""@ =~= Seq::<char>::empty());
        assert(n@ == match name { Some(n) => n@, None => Seq::<char>::empty() });
    }
    if same_text(n, "list_repos") {
        McpTool::ListRepos
    } else if same_text(n, "query") {
        McpTool::Query
    } else {
        McpTool::Unknown
    }
}

/// The error an unknown tool is answered with.
pub fn unknown_tool_error() -> (r: (i32, String))
    ensures
        r.0 == METHOD_NOT_FOUND,
        r.1@ == "unknown tool"@,
{
    (METHOD_NOT_FOUND, owned("unknown tool"))
}

/// The arguments of a `query` call: the repository and query texts (empty
/// when missing) and the number of results (20 when missing).
pub struct QueryArgs {
    pub name: String,
    pub query: String,
    pub limit: usize,
}

/// The arguments of a `query` call, with their defaults.
pub fn query_args(name: Option<&str>, query: Option<&str>, limit: Option<u64>) -> (r: QueryArgs)
    ensures
        r.name@ == match name { Some(n) => n@, None => Seq::<char>::empty() },
        r.query@ == match query { Some(q) => q@, None => Seq::<char>::empty() },
        r.limit == match limit { Some(l) => l as usize, None => 20usize },
{
    proof {
        reveal_strlit("");
    }
    QueryArgs {
        name: owned(match name { Some(n) => n, None => "" }),
        query: owned(match query { Some(q) => q, None => "" }),
        limit: match limit {
            Some(l) => l as usize,
            None => 20,
        },
    }
}

/// The registered repository a `query` call searches: the first of its
/// name, or a tool error.
pub fn query_repo<'a>(repos: &'a Vec<RepoMeta>, name: &str) -> (r: Result<&'a RepoMeta, (i32, String)>)
    ensures
        match r {
            Ok(m) => exists|i: int| 0 <= i < repos@.len() && repos@[i] == *m && m.name@ == name@
                && forall|j: int| 0 <= j < i ==> (#[trigger] repos@[j]).name@ != name@,
            Err(e) => e.0 == SERVER_ERROR && e.1@ == "repo not found"@
                && forall|j: int| 0 <= j < repos@.len() ==> (#[trigger] repos@[j]).name@ != name@,
        },
{
    match find_repo(repos, name) {
        Some(m) => Ok(m),
        None => Err((SERVER_ERROR, owned("repo not found"))),
    }
}

} // verus!
