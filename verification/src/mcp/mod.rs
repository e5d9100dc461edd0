//! Servers of the Model Context Protocol, and the tools that they bring.

use vstd::prelude::*;

use crate::error;
use crate::error::AgentError;
use crate::json::Json;
use crate::pattern;
use crate::strmap::StrMap;
use crate::text;

pub mod client;
pub mod laws;
pub mod tool;
pub mod tools;

use crate::mcp::tool::{McpTool, McpToolView};

verus! {

/// How long the name of a tool may be, in bytes.
pub const MAX_TOOL_NAME_LEN: usize = 64;

/// A name with an underscore for each character that no tool name may hold.
pub open spec fn cleaned(name: Seq<char>) -> Seq<char> {
    name.map_values(|c: char| pattern::tool_name_char(c))
}

/// The name that stands for a server's or a tool's own name. There is none where nothing
/// but underscores would be left.
pub open spec fn normalized(name: Seq<char>) -> Result<Seq<char>, error::ErrorView> {
    if exists|i: int| 0 <= i < name.len() && #[trigger] cleaned(name)[i] != '_' {
        Ok(cleaned(name))
    } else {
        Err(error::ErrorView::Validation("MCP name cannot normalize to empty"@))
    }
}

/// The name under which a server's tool is registered.
pub open spec fn prefixed(server: Seq<char>, tool: Seq<char>) -> Result<
    Seq<char>,
    error::ErrorView,
> {
    match normalized(server) {
        Err(e) => Err(e),
        Ok(s) => match normalized(tool) {
            Err(e) => Err(e),
            Ok(t) => {
                let p = "mcp__"@ + s + "__"@ + t;
                if text::utf8_len(p) > MAX_TOOL_NAME_LEN {
                    Err(error::ErrorView::Validation("MCP tool name exceeds 64 chars: "@ + p))
                } else {
                    Ok(p)
                }
            },
        },
    }
}

/// Makes a name that tools may have: an underscore stands in the place of each other
/// character.
pub fn normalize_mcp_name(name: &str) -> (r: Result<String, AgentError>)
    ensures
        normalized(name@) == (match r {
            Ok(n) => Ok::<Seq<char>, error::ErrorView>(n@),
            Err(e) => Err(e@),
        }),
{
    let replaced = pattern::regex_replace_all(pattern::DISALLOWED_CHARS, name, "_");
    let n = match replaced {
        Some(n) => n,
        None => "".to_string(),
    };
    let chars = text::to_chars(n.as_str());
    assert(chars@ == cleaned(name@));
    let mut i: usize = 0;
    while i < chars.len()
        invariant
            i <= chars@.len(),
            n@ == cleaned(name@),
            chars@ == cleaned(name@),
            forall|k: int| 0 <= k < i ==> #[trigger] cleaned(name@)[k] == '_',
        decreases chars@.len() - i,
    {
        if chars[i] != '_' {
            assert(cleaned(name@)[i as int] != '_');
            return Ok(n);
        }
        i += 1;
    }
    Err(AgentError::Validation("MCP name cannot normalize to empty".to_string()))
}

/// The name under which a server's tool is registered: `mcp__{server}__{tool}`.
pub fn prefixed_tool_name(server: &str, tool: &str) -> (r: Result<String, AgentError>)
    ensures
        prefixed(server@, tool@) == (match r {
            Ok(p) => Ok::<Seq<char>, error::ErrorView>(p@),
            Err(e) => Err(e@),
        }),
{
    let safe_server = match normalize_mcp_name(server) {
        Ok(s) => s,
        Err(e) => return Err(e),
    };
    let safe_tool = match normalize_mcp_name(tool) {
        Ok(t) => t,
        Err(e) => return Err(e),
    };
    let name = "mcp__".to_string().concat(safe_server.as_str()).concat("__").concat(
        safe_tool.as_str(),
    );
    if text::byte_len(name.as_str()) > MAX_TOOL_NAME_LEN {
        return Err(
            AgentError::Validation(
                "MCP tool name exceeds 64 chars: ".to_string().concat(name.as_str()),
            ),
        );
    }
    Ok(name)
}

/// A tool as its server describes it.
pub struct McpToolDef {
    pub name: String,
    pub description: String,
    pub input_schema: Json,
}

/// The mathematical content of an [`McpToolDef`].
#[verifier::ext_equal]
pub struct DefView {
    pub name: Seq<char>,
    pub description: Seq<char>,
    pub input_schema: Seq<char>,
}

impl View for McpToolDef {
    type V = DefView;

    open spec fn view(&self) -> DefView {
        DefView {
            name: self.name@,
            description: self.description@,
            input_schema: self.input_schema@,
        }
    }
}

/// The contents of a list of descriptions.
pub open spec fn defs(v: Seq<McpToolDef>) -> Seq<DefView> {
    v.map_values(|d: McpToolDef| d@)
}

/// A server that is connected.
pub struct McpConnection {
    pub server_name: String,
    pub tools: Vec<McpToolDef>,
}

/// The mathematical content of an [`McpConnection`].
#[verifier::ext_equal]
pub struct ConnectionView {
    pub server_name: Seq<char>,
    pub tools: Seq<DefView>,
}

impl View for McpConnection {
    type V = ConnectionView;

    open spec fn view(&self) -> ConnectionView {
        ConnectionView { server_name: self.server_name@, tools: defs(self.tools@) }
    }
}

/// The contents of a list of connections.
pub open spec fn connections(v: Seq<McpConnection>) -> Seq<ConnectionView> {
    v.map_values(|c: McpConnection| c@)
}

/// A connected server, for listings.
pub struct McpServerInfo {
    pub name: String,
    pub tools: Vec<String>,
}

/// The mathematical content of an [`McpServerInfo`].
#[verifier::ext_equal]
pub struct InfoView {
    pub name: Seq<char>,
    pub tools: Seq<Seq<char>>,
}

impl View for McpServerInfo {
    type V = InfoView;

    open spec fn view(&self) -> InfoView {
        InfoView { name: self.name@, tools: text::views(self.tools@) }
    }
}

/// The contents of a list of servers.
pub open spec fn infos(v: Seq<McpServerInfo>) -> Seq<InfoView> {
    v.map_values(|i: McpServerInfo| i@)
}

/// The names of described tools.
pub open spec fn def_names(v: Seq<DefView>) -> Seq<Seq<char>> {
    v.map_values(|d: DefView| d.name)
}

/// The connected servers, and where each registered tool name comes from.
pub struct McpManager {
    pub connections: Vec<McpConnection>,
    /// `{server}/{tool}`, by the name under which the tool is registered.
    pub origins: StrMap<String>,
}

/// The mathematical content of an [`McpManager`].
#[verifier::ext_equal]
pub struct ManagerView {
    pub connections: Seq<ConnectionView>,
    pub origins: Map<Seq<char>, Seq<char>>,
}

impl View for McpManager {
    type V = ManagerView;

    open spec fn view(&self) -> ManagerView {
        ManagerView {
            connections: connections(self.connections@),
            origins: self.origins@.map_values(|s: String| s@),
        }
    }
}

/// Where a tool comes from.
pub open spec fn origin(server: Seq<char>, tool: Seq<char>) -> Seq<char> {
    server + "/"@ + tool
}

/// What becomes of a server's tools: the names taken so far, the tools to register, and the
/// error that ended the registration.
#[verifier::ext_equal]
pub struct Joined {
    pub origins: Map<Seq<char>, Seq<char>>,
    pub tools: Seq<McpToolView>,
    pub error: Option<error::ErrorView>,
}

/// The error of a name that two tools would have.
pub open spec fn collision(
    name: Seq<char>,
    existing: Seq<char>,
    coming: Seq<char>,
) -> error::ErrorView {
    error::ErrorView::Validation(
        "MCP tool name collision: '"@ + name + "' maps to both "@ + existing + " and "@ + coming,
    )
}

/// Registers a server's tools one after the other. The first one that has no valid name, or
/// whose name is taken, ends it; those before it stay registered.
pub open spec fn join(
    server: Seq<char>,
    tools: Seq<DefView>,
    origins: Map<Seq<char>, Seq<char>>,
) -> Joined
    decreases tools.len(),
{
    if tools.len() == 0 {
        Joined { origins, tools: Seq::empty(), error: None }
    } else {
        match prefixed(server, tools[0].name) {
            Err(e) => Joined { origins, tools: Seq::empty(), error: Some(e) },
            Ok(p) => if origins.contains_key(p) {
                Joined {
                    origins,
                    tools: Seq::empty(),
                    error: Some(collision(p, origins[p], origin(server, tools[0].name))),
                }
            } else {
                let rest = join(
                    server,
                    tools.skip(1),
                    origins.insert(p, origin(server, tools[0].name)),
                );
                Joined {
                    tools: seq![
                        McpToolView {
                            prefixed_name: p,
                            raw_name: tools[0].name,
                            server_name: server,
                            description: tools[0].description,
                            input_schema: tools[0].input_schema,
                        },
                    ] + rest.tools,
                    ..rest
                }
            },
        }
    }
}

/// The names under which tools are registered.
pub open spec fn registered_names(tools: Seq<McpToolView>) -> Seq<Seq<char>> {
    tools.map_values(|t: McpToolView| t.prefixed_name)
}

/// The connections without those of a server.
pub open spec fn without_server(v: Seq<ConnectionView>, server: Seq<char>) -> Seq<ConnectionView>
    decreases v.len(),
{
    if v.len() == 0 {
        v
    } else if v.last().server_name == server {
        without_server(v.drop_last(), server)
    } else {
        without_server(v.drop_last(), server).push(v.last())
    }
}

/// The connection to a server.
pub open spec fn connection_to(v: Seq<ConnectionView>, server: Seq<char>) -> Option<ConnectionView>
    decreases v.len(),
{
    if v.len() == 0 {
        None
    } else if v.last().server_name == server {
        Some(v.last())
    } else {
        connection_to(v.drop_last(), server)
    }
}

/// The names of a server's tools that are taken out of use, and the error that ended it: a
/// tool without a valid name would.
pub open spec fn names_to_drop(server: Seq<char>, tools: Seq<DefView>) -> (
    Seq<Seq<char>>,
    Option<error::ErrorView>,
)
    decreases tools.len(),
{
    if tools.len() == 0 {
        (Seq::empty(), None)
    } else {
        match prefixed(server, tools[0].name) {
            Err(e) => (Seq::empty(), Some(e)),
            Ok(p) => {
                let rest = names_to_drop(server, tools.skip(1));
                (seq![p] + rest.0, rest.1)
            },
        }
    }
}

impl ManagerView {
    /// The manager after a server with these tools was connected.
    pub open spec fn connected(self, server: Seq<char>, tools: Seq<DefView>) -> ManagerView {
        let joined = join(server, tools, self.origins);
        if joined.error is Some {
            ManagerView { origins: joined.origins, ..self }
        } else {
            ManagerView {
                connections: without_server(self.connections, server).push(
                    ConnectionView { server_name: server, tools },
                ),
                origins: joined.origins,
            }
        }
    }

    /// The manager after a server was disconnected.
    pub open spec fn disconnected(self, server: Seq<char>) -> ManagerView {
        match connection_to(self.connections, server) {
            None => self,
            Some(c) => ManagerView {
                connections: without_server(self.connections, server),
                origins: self.origins.remove_keys(names_to_drop(server, c.tools).0.to_set()),
            },
        }
    }
}

/// A line of the list of servers in the system prompt.
pub open spec fn prompt_line(i: InfoView) -> Seq<char> {
    "- "@ + i.name + ": "@ + text::decimal(i.tools.len()) + " tool(s)"@
}

/// The list of servers in the system prompt.
pub open spec fn prompt_suffix(servers: Seq<InfoView>) -> Seq<char> {
    if servers.len() == 0 {
        Seq::empty()
    } else {
        text::joined(
            seq!["## Connected MCP Servers"@] + servers.map_values(|i: InfoView| prompt_line(i)),
            "\n"@,
        )
    }
}

/// The listing of a connected server.
pub open spec fn info_of(c: ConnectionView) -> InfoView {
    InfoView { name: c.server_name, tools: def_names(c.tools) }
}

impl McpManager {
    /// A manager without servers.
    pub fn new() -> (r: Self)
        ensures
            r@.connections == Seq::<ConnectionView>::empty(),
            r@.origins == Map::<Seq<char>, Seq<char>>::empty(),
    {
        let r = McpManager { connections: Vec::new(), origins: StrMap::new() };
        assert(r@.connections =~= Seq::<ConnectionView>::empty());
        assert(r@.origins =~= Map::<Seq<char>, Seq<char>>::empty());
        r
    }

    fn forget(&mut self, server_name: &str) -> (r: Option<McpConnection>)
        ensures
            final(self)@ == (ManagerView {
                connections: without_server(old(self)@.connections, server_name@),
                ..old(self)@
            }),
            connection_to(old(self)@.connections, server_name@) == (match r {
                Some(c) => Some(c@),
                None => None::<ConnectionView>,
            }),
        decreases old(self).connections@.len(),
    {
        let ghost before = self@;
        match self.connections.pop() {
            None => {
                assert(self@.connections =~= before.connections);
                None
            },
            Some(c) => {
                assert(self@.connections =~= before.connections.drop_last());
                let rest = self.forget(server_name);
                if text::same(c.server_name.as_str(), server_name) {
                    Some(c)
                } else {
                    let ghost kept = self@.connections;
                    self.connections.push(c);
                    assert(self@.connections =~= kept.push(c@));
                    rest
                }
            },
        }
    }

    /// Connects a server that offers these tools. Gives the tools to register, and the names
    /// of all of them, or the error that ended the registration. The tools before the one in
    /// error stay registered.
    pub fn connect(&mut self, server_name: &str, tools: Vec<McpToolDef>) -> (r: (
        Vec<McpTool>,
        Result<Vec<String>, AgentError>,
    ))
        ensures
            final(self)@ == old(self)@.connected(server_name@, defs(tools@)),
            ({
                let joined = join(server_name@, defs(tools@), old(self)@.origins);
                &&& tool::tool_views(r.0@) == joined.tools
                &&& match r.1 {
                    Ok(names) => joined.error is None && text::views(names@) == registered_names(
                        joined.tools,
                    ),
                    Err(e) => joined.error == Some(e@),
                }
            }),
    {
        let ghost server = server_name@;
        let ghost offered = defs(tools@);
        let ghost before = self@;
        let ghost joined = join(server, offered, before.origins);
        let mut out: Vec<McpTool> = Vec::new();
        let mut names: Vec<String> = Vec::new();
        let mut i: usize = 0;
        proof {
            assert(offered.skip(0) =~= offered);
            assert(tool::tool_views(out@) + joined.tools =~= joined.tools);
            assert(text::views(names@) =~= registered_names(tool::tool_views(out@)));
        }
        while i < tools.len()
            invariant
                i <= tools@.len(),
                server == server_name@,
                offered == defs(tools@),
                before == old(self)@,
                joined == join(server, offered, before.origins),
                self@.connections == before.connections,
                text::views(names@) == registered_names(tool::tool_views(out@)),
                ({
                    let rest = join(server, offered.skip(i as int), self@.origins);
                    &&& joined.origins == rest.origins
                    &&& joined.error == rest.error
                    &&& joined.tools == tool::tool_views(out@) + rest.tools
                }),
            decreases tools@.len() - i,
        {
            let ghost left = offered.skip(i as int);
            let ghost origins = self@.origins;
            let ghost so_far = tool::tool_views(out@);
            let ghost named = text::views(names@);
            proof {
                assert(left[0] == tools@[i as int]@);
                assert(left.skip(1) =~= offered.skip(i + 1));
            }
            let name = match prefixed_tool_name(server_name, tools[i].name.as_str()) {
                Ok(p) => p,
                Err(e) => {
                    assert(so_far + Seq::<McpToolView>::empty() =~= so_far);
                    return (out, Err(e));
                },
            };
            let from = server_name.to_string().concat("/").concat(tools[i].name.as_str());
            if let Some(existing) = self.origins.get(name.as_str()) {
                let message = "MCP tool name collision: '".to_string().concat(
                    name.as_str(),
                ).concat("' maps to both ").concat(existing.as_str()).concat(" and ").concat(
                    from.as_str(),
                );
                assert(so_far + Seq::<McpToolView>::empty() =~= so_far);
                return (out, Err(AgentError::Validation(message)));
            }
            self.origins.insert(name.as_str(), from);
            assert(self@.origins =~= origins.insert(name@, from@));
            let tool = McpTool {
                prefixed_name: name.clone(),
                raw_name: tools[i].name.clone(),
                server_name: server_name.to_string(),
                description: tools[i].description.clone(),
                input_schema: tools[i].input_schema.clone(),
            };
            out.push(tool);
            names.push(name);
            proof {
                let rest = join(server, offered.skip(i + 1), self@.origins);
                assert(tool::tool_views(out@) =~= so_far.push(tool@));
                assert(text::views(names@) =~= named.push(name@));
                assert(registered_names(so_far.push(tool@)) =~= registered_names(so_far).push(
                    name@,
                ));
                assert(tool::tool_views(out@) + rest.tools =~= so_far + (seq![tool@]
                    + rest.tools));
            }
            i += 1;
        }
        proof {
            assert(tool::tool_views(out@) + Seq::<McpToolView>::empty() =~= tool::tool_views(out@));
        }
        let _ = self.forget(server_name);
        let connection = McpConnection { server_name: server_name.to_string(), tools };
        let ghost kept = self@.connections;
        self.connections.push(connection);
        assert(self@.connections =~= kept.push(connection@));
        (out, Ok(names))
    }

    /// Disconnects a server. Gives the names of the tools to take out of the registry, and
    /// the error of a server that is not connected.
    pub fn disconnect(&mut self, server_name: &str) -> (r: (Vec<String>, Result<(), AgentError>))
        ensures
            final(self)@ == old(self)@.disconnected(server_name@),
            match connection_to(old(self)@.connections, server_name@) {
                None => {
                    &&& r.0@.len() == 0
                    &&& r.1 is Err
                    &&& r.1->Err_0@ == error::ErrorView::Other(
                        "MCP server '"@ + server_name@ + "' not found"@,
                    )
                },
                Some(c) => {
                    &&& text::views(r.0@) == names_to_drop(server_name@, c.tools).0
                    &&& match r.1 {
                        Ok(_) => names_to_drop(server_name@, c.tools).1 is None,
                        Err(e) => names_to_drop(server_name@, c.tools).1 == Some(e@),
                    }
                },
            },
    {
        let ghost before = self@;
        let removed = self.forget(server_name);
        let connection = match removed {
            None => {
                proof {
                    none_without(before.connections, server_name@);
                }
                let message = "MCP server '".to_string().concat(server_name).concat("' not found");
                return (Vec::new(), Err(AgentError::Other(message)));
            },
            Some(c) => c,
        };
        let tools = connection.tools;
        let ghost offered = defs(tools@);
        let ghost dropped = names_to_drop(server_name@, offered);
        let ghost kept = self@.connections;
        let mut names: Vec<String> = Vec::new();
        let mut i: usize = 0;
        proof {
            assert(offered.skip(0) =~= offered);
            assert(text::views(names@) + dropped.0 =~= dropped.0);
            assert(before.origins.remove_keys(text::views(names@).to_set()) =~= before.origins);
        }
        while i < tools.len()
            invariant
                i <= tools@.len(),
                offered == defs(tools@),
                before == old(self)@,
                connection_to(before.connections, server_name@) == Some(
                    ConnectionView { server_name: connection.server_name@, tools: offered },
                ),
                kept == without_server(before.connections, server_name@),
                dropped == names_to_drop(server_name@, offered),
                self@.connections == kept,
                self@.origins == before.origins.remove_keys(text::views(names@).to_set()),
                ({
                    let rest = names_to_drop(server_name@, offered.skip(i as int));
                    &&& dropped.0 == text::views(names@) + rest.0
                    &&& dropped.1 == rest.1
                }),
            decreases tools@.len() - i,
        {
            let ghost left = offered.skip(i as int);
            let ghost so_far = text::views(names@);
            let ghost origins = self@.origins;
            proof {
                assert(left[0] == tools@[i as int]@);
                assert(left.skip(1) =~= offered.skip(i + 1));
            }
            let name = match prefixed_tool_name(server_name, tools[i].name.as_str()) {
                Ok(p) => p,
                Err(e) => {
                    assert(so_far + Seq::<Seq<char>>::empty() =~= so_far);
                    return (names, Err(e));
                },
            };
            let _ = self.origins.remove(name.as_str());
            names.push(name);
            proof {
                let rest = names_to_drop(server_name@, offered.skip(i + 1));
                assert(self@.origins =~= origins.remove(name@));
                assert(text::views(names@) =~= so_far.push(name@));
                pushed_set(so_far, name@);
                assert(self@.origins =~= before.origins.remove_keys(
                    text::views(names@).to_set(),
                ));
                assert(text::views(names@) + rest.0 =~= so_far + (seq![name@] + rest.0));
            }
            i += 1;
        }
        proof {
            assert(text::views(names@) + Seq::<Seq<char>>::empty() =~= text::views(names@));
        }
        (names, Ok(()))
    }

    /// Disconnects every server. Gives their names.
    pub fn shutdown_all(&mut self) -> (r: Vec<String>)
        ensures
            text::views(r@) == old(self)@.connections.map_values(
                |c: ConnectionView| c.server_name,
            ),
            final(self)@ == (ManagerView { connections: Seq::empty(), ..old(self)@ }),
    {
        let ghost all = self@.connections.map_values(|c: ConnectionView| c.server_name);
        let mut names: Vec<String> = Vec::new();
        let mut i: usize = 0;
        assert(text::views(names@) =~= all.take(0));
        while i < self.connections.len()
            invariant
                i <= self.connections@.len(),
                self@ == old(self)@,
                all == self@.connections.map_values(|c: ConnectionView| c.server_name),
                text::views(names@) == all.take(i as int),
            decreases self.connections@.len() - i,
        {
            let ghost before = text::views(names@);
            let name = self.connections[i].server_name.clone();
            names.push(name);
            assert(text::views(names@) =~= before.push(name@));
            assert(all[i as int] == name@);
            assert(text::views(names@) =~= all.take(i + 1));
            i += 1;
        }
        assert(all.take(all.len() as int) =~= all);
        self.connections = Vec::new();
        assert(self@.connections =~= Seq::<ConnectionView>::empty());
        names
    }

    /// The connected servers, with the names of their tools.
    pub fn list(&self) -> (r: Vec<McpServerInfo>)
        ensures
            infos(r@) == self@.connections.map_values(|c: ConnectionView| info_of(c)),
    {
        let ghost want = self@.connections.map_values(|c: ConnectionView| info_of(c));
        let mut out: Vec<McpServerInfo> = Vec::new();
        let mut i: usize = 0;
        assert(infos(out@) =~= want.take(0));
        while i < self.connections.len()
            invariant
                i <= self.connections@.len(),
                want == self@.connections.map_values(|c: ConnectionView| info_of(c)),
                infos(out@) == want.take(i as int),
            decreases self.connections@.len() - i,
        {
            let c = &self.connections[i];
            let ghost all = def_names(defs(c.tools@));
            let mut tools: Vec<String> = Vec::new();
            let mut k: usize = 0;
            assert(text::views(tools@) =~= all.take(0));
            while k < c.tools.len()
                invariant
                    k <= c.tools@.len(),
                    all == def_names(defs(c.tools@)),
                    text::views(tools@) == all.take(k as int),
                decreases c.tools@.len() - k,
            {
                let ghost before = text::views(tools@);
                let name = c.tools[k].name.clone();
                tools.push(name);
                assert(text::views(tools@) =~= before.push(name@));
                assert(text::views(tools@) =~= all.take(k + 1));
                k += 1;
            }
            assert(all.take(all.len() as int) =~= all);
            let ghost before = infos(out@);
            let info = McpServerInfo { name: c.server_name.clone(), tools };
            out.push(info);
            assert(infos(out@) =~= before.push(info@));
            assert(want[i as int] == info@);
            assert(infos(out@) =~= want.take(i + 1));
            i += 1;
        }
        assert(want.take(want.len() as int) =~= want);
        out
    }

    /// The list of servers for the system prompt: empty where there are none.
    pub fn system_prompt_suffix(&self) -> (r: String)
        ensures
            r@ == prompt_suffix(self@.connections.map_values(|c: ConnectionView| info_of(c))),
    {
        let servers = self.list();
        let ghost is = infos(servers@);
        if servers.len() == 0 {
            let e = String::new();
            assert(e@ =~= Seq::<char>::empty());
            return e;
        }
        let ghost want = seq!["## Connected MCP Servers"@] + is.map_values(
            |i: InfoView| prompt_line(i),
        );
        let mut lines: Vec<String> = Vec::new();
        lines.push("## Connected MCP Servers".to_string());
        assert(text::views(lines@) =~= want.take(1));
        let mut i: usize = 0;
        while i < servers.len()
            invariant
                i <= servers@.len(),
                is == infos(servers@),
                want == seq!["## Connected MCP Servers"@] + is.map_values(
                    |i: InfoView| prompt_line(i),
                ),
                text::views(lines@) == want.take(i + 1),
            decreases servers@.len() - i,
        {
            let ghost before = text::views(lines@);
            let line = "- ".to_string().concat(servers[i].name.as_str()).concat(": ").concat(
                text::number_text(servers[i].tools.len() as u64).as_str(),
            ).concat(" tool(s)");
            lines.push(line);
            assert(text::views(lines@) =~= before.push(line@));
            assert(line@ == prompt_line(is[i as int]));
            assert(text::views(lines@) =~= want.take(i + 2));
            i += 1;
        }
        assert(want.take(want.len() as int) =~= want);
        text::join(&lines, "\n")
    }
}

/// Where a server is not connected, there is nothing of it to take out.
pub proof fn none_without(v: Seq<ConnectionView>, server: Seq<char>)
    requires
        connection_to(v, server) is None,
    ensures
        without_server(v, server) == v,
    decreases v.len(),
{
    if v.len() > 0 {
        none_without(v.drop_last(), server);
        assert(v.drop_last().push(v.last()) =~= v);
    }
}

proof fn pushed_set(s: Seq<Seq<char>>, x: Seq<char>)
    ensures
        s.push(x).to_set() =~= s.to_set().insert(x),
{
    assert forall|k: Seq<char>| #[trigger] s.push(x).to_set().contains(k) <==> s.to_set().insert(
        x,
    ).contains(k) by {
        if s.push(x).contains(k) {
            let i = choose|i: int| 0 <= i < s.push(x).len() && s.push(x)[i] == k;
            if i < s.len() {
                assert(s[i] == k);
            }
        }
        if s.contains(k) {
            let i = choose|i: int| 0 <= i < s.len() && s[i] == k;
            assert(s.push(x)[i] == k);
        }
        assert(s.push(x)[s.len() as int] == x);
    }
}

} // verus!
