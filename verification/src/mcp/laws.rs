//! What holds of servers' tools as a whole.

use vstd::prelude::*;

use crate::json;
use crate::mcp;
use crate::pattern;
use crate::text;

verus! {

/// The law of names: every name under which a server's tool is registered is one that the
/// model's API accepts. It holds letters, digits, underscores and dashes only, and is short
/// enough.
pub proof fn law_tool_names_are_valid(server: Seq<char>, tool: Seq<char>)
    requires
        mcp::prefixed(server, tool) is Ok,
    ensures
        ({
            let p = mcp::prefixed(server, tool)->Ok_0;
            &&& text::begins(p, "mcp__"@)
            &&& text::utf8_len(p) <= mcp::MAX_TOOL_NAME_LEN
            &&& forall|i: int| 0 <= i < p.len() ==> pattern::is_name_char(#[trigger] p[i])
        }),
{
    reveal_strlit("mcp__");
    reveal_strlit("__");
    let p = mcp::prefixed(server, tool)->Ok_0;
    let s = mcp::cleaned(server);
    let t = mcp::cleaned(tool);
    assert(p == "mcp__"@ + s + "__"@ + t);
    assert forall|i: int| 0 <= i < p.len() implies pattern::is_name_char(#[trigger] p[i]) by {
        if 5 <= i < 5 + s.len() {
            assert(p[i] == s[i - 5]);
            assert(s[i - 5] == pattern::tool_name_char(server[i - 5]));
        } else if i >= 7 + s.len() {
            assert(p[i] == t[i - 7 - s.len()]);
            assert(t[i - 7 - s.len()] == pattern::tool_name_char(tool[i - 7 - s.len()]));
        }
    }
    assert(p.subrange(0, 5) =~= "mcp__"@);
}

/// The law of collisions: the names of a server's tools differ from each other and from all
/// names that were taken before.
pub proof fn law_registered_names_are_new(
    server: Seq<char>,
    tools: Seq<mcp::DefView>,
    origins: Map<Seq<char>, Seq<char>>,
)
    ensures
        ({
            let names = mcp::registered_names(mcp::join(server, tools, origins).tools);
            &&& names.no_duplicates()
            &&& forall|i: int| 0 <= i < names.len() ==> !origins.contains_key(#[trigger] names[i])
        }),
    decreases tools.len(),
{
    let joined = mcp::join(server, tools, origins);
    let names = mcp::registered_names(joined.tools);
    if joined.tools.len() > 0 {
        let p = mcp::prefixed(server, tools[0].name)->Ok_0;
        let after = origins.insert(p, mcp::origin(server, tools[0].name));
        let rest = mcp::join(server, tools.skip(1), after);
        let others = mcp::registered_names(rest.tools);
        law_registered_names_are_new(server, tools.skip(1), after);
        assert(names =~= seq![p] + others);
        assert forall|i: int| 0 <= i < names.len() implies !origins.contains_key(
            #[trigger] names[i],
        ) by {
            if i > 0 {
                assert(names[i] == others[i - 1]);
                assert(!after.contains_key(others[i - 1]));
            }
        }
        assert forall|i: int, j: int|
            0 <= i < names.len() && 0 <= j < names.len() && i != j implies names[i]
            != names[j] by {
            if i == 0 {
                assert(names[j] == others[j - 1]);
                assert(!after.contains_key(others[j - 1]));
            } else if j == 0 {
                assert(names[i] == others[i - 1]);
                assert(!after.contains_key(others[i - 1]));
            } else {
                assert(names[i] == others[i - 1]);
                assert(names[j] == others[j - 1]);
            }
        }
    }
}

proof fn join_adds(
    server: Seq<char>,
    tools: Seq<mcp::DefView>,
    origins: Map<Seq<char>, Seq<char>>,
)
    requires
        mcp::join(server, tools, origins).error is None,
    ensures
        mcp::names_to_drop(server, tools).1 is None,
        mcp::names_to_drop(server, tools).0 == mcp::registered_names(
            mcp::join(server, tools, origins).tools,
        ),
        forall|k: Seq<char>|
            #![trigger mcp::join(server, tools, origins).origins.contains_key(k)]
            mcp::join(server, tools, origins).origins.contains_key(k) <==> origins.contains_key(k)
                || mcp::names_to_drop(server, tools).0.contains(k),
        forall|k: Seq<char>|
            origins.contains_key(k) ==> #[trigger] mcp::join(server, tools, origins).origins[k]
                == origins[k],
    decreases tools.len(),
{
    let joined = mcp::join(server, tools, origins);
    let dropped = mcp::names_to_drop(server, tools).0;
    if tools.len() == 0 {
        assert(dropped =~= mcp::registered_names(joined.tools));
    } else {
        let p = mcp::prefixed(server, tools[0].name)->Ok_0;
        let after = origins.insert(p, mcp::origin(server, tools[0].name));
        let rest = mcp::join(server, tools.skip(1), after);
        let others = mcp::names_to_drop(server, tools.skip(1)).0;
        join_adds(server, tools.skip(1), after);
        assert(dropped == seq![p] + others);
        assert(mcp::registered_names(joined.tools) =~= seq![p] + mcp::registered_names(
            rest.tools,
        ));
        assert forall|k: Seq<char>| joined.origins.contains_key(k) <==> origins.contains_key(k)
            || dropped.contains(k) by {
            assert(rest.origins.contains_key(k) <==> after.contains_key(k) || others.contains(k));
            if others.contains(k) {
                let i = choose|i: int| 0 <= i < others.len() && others[i] == k;
                assert(dropped[i + 1] == k);
            }
            if dropped.contains(k) {
                let i = choose|i: int| 0 <= i < dropped.len() && dropped[i] == k;
                if i > 0 {
                    assert(others[i - 1] == k);
                }
            }
            assert(dropped[0] == p);
        }
        assert forall|k: Seq<char>| origins.contains_key(k) implies #[trigger] joined.origins[k]
            == origins[k] by {
            assert(after.contains_key(k));
            assert(rest.origins[k] == after[k]);
        }
    }
}

/// The law of disconnection: a server that was connected and is disconnected again leaves
/// nothing behind. The tools to take out are those that were registered, and every name that
/// it took is free again.
pub proof fn law_disconnect_undoes_connect(
    m: mcp::ManagerView,
    server: Seq<char>,
    tools: Seq<mcp::DefView>,
)
    requires
        mcp::join(server, tools, m.origins).error is None,
        mcp::connection_to(m.connections, server) is None,
    ensures
        m.connected(server, tools).disconnected(server) == m,
        mcp::names_to_drop(server, tools) == (
            mcp::registered_names(mcp::join(server, tools, m.origins).tools),
            None::<crate::error::ErrorView>,
        ),
{
    let joined = mcp::join(server, tools, m.origins);
    let on = m.connected(server, tools);
    let c = mcp::ConnectionView { server_name: server, tools };
    mcp::none_without(m.connections, server);
    join_adds(server, tools, m.origins);
    law_registered_names_are_new(server, tools, m.origins);
    let names = mcp::registered_names(joined.tools);
    assert(on.connections == m.connections.push(c));
    assert(on.connections.last() == c);
    assert(on.connections.drop_last() =~= m.connections);
    assert(mcp::connection_to(on.connections, server) == Some(c));
    assert(mcp::without_server(on.connections, server) == m.connections);
    assert(on.origins.remove_keys(names.to_set()) =~= m.origins) by {
        assert forall|k: Seq<char>| on.origins.remove_keys(names.to_set()).contains_key(k)
            <==> m.origins.contains_key(k) by {
            if m.origins.contains_key(k) && names.contains(k) {
                let i = choose|i: int| 0 <= i < names.len() && names[i] == k;
                assert(!m.origins.contains_key(names[i]));
            }
            assert(joined.origins.contains_key(k) <==> m.origins.contains_key(k)
                || names.contains(k));
        }
    }
}

/// A character that a tool name may hold.
pub open spec fn is_kept(c: char) -> bool {
    'a' <= c <= 'z' || 'A' <= c <= 'Z' || '0' <= c <= '9' || c == '_' || c == '-'
}

/// The law of cleaned names: a cleaned name has the characters of the name, in their places,
/// with an underscore for each that no tool name may hold; there is one exactly where
/// something other than underscores is left.
pub proof fn law_cleaned_names(name: Seq<char>)
    ensures
        mcp::normalized(name) is Ok <==> exists|i: int|
            0 <= i < name.len() && is_kept(#[trigger] name[i]) && name[i] != '_',
        mcp::normalized(name) is Ok ==> mcp::normalized(name)->Ok_0.len() == name.len(),
        mcp::normalized(name) is Ok ==> forall|i: int|
            0 <= i < name.len() ==> #[trigger] mcp::normalized(name)->Ok_0[i] == (if is_kept(
                name[i],
            ) {
                name[i]
            } else {
                '_'
            }),
{
    let out = mcp::cleaned(name);
    assert forall|i: int| 0 <= i < name.len() implies #[trigger] out[i] == (if is_kept(name[i]) {
        name[i]
    } else {
        '_'
    }) by {}
    if exists|i: int| 0 <= i < name.len() && #[trigger] out[i] != '_' {
        let i = choose|i: int| 0 <= i < name.len() && #[trigger] out[i] != '_';
        assert(is_kept(name[i]));
    }
    if exists|i: int| 0 <= i < name.len() && is_kept(#[trigger] name[i]) && name[i] != '_' {
        let i = choose|i: int| 0 <= i < name.len() && is_kept(#[trigger] name[i]) && name[i] != '_';
        assert(out[i] != '_');
    }
}

/// The law of prefixes: a tool is registered under its server's name and its own, both
/// cleaned, and only under a name that is not too long.
pub proof fn law_tool_names_say_where_they_come_from(server: Seq<char>, tool: Seq<char>)
    ensures
        mcp::prefixed(server, tool) is Ok <==> mcp::normalized(server) is Ok && mcp::normalized(
            tool,
        ) is Ok && text::utf8_len(
            "mcp__"@ + mcp::normalized(server)->Ok_0 + "__"@ + mcp::normalized(tool)->Ok_0,
        ) <= mcp::MAX_TOOL_NAME_LEN,
        mcp::prefixed(server, tool) is Ok ==> mcp::prefixed(server, tool)->Ok_0 == "mcp__"@
            + mcp::normalized(server)->Ok_0 + "__"@ + mcp::normalized(tool)->Ok_0,
{
}

/// The law of registration: a server's tools are registered in their order, each under its
/// name and with its own description and input, and each name says where it comes from. It
/// ends early exactly at a tool that has no valid name or whose name is taken, and those
/// before it are registered.
pub proof fn law_tools_are_registered_in_order(
    server: Seq<char>,
    tools: Seq<mcp::DefView>,
    origins: Map<Seq<char>, Seq<char>>,
)
    ensures
        ({
            let out = mcp::join(server, tools, origins);
            let n = out.tools.len() as int;
            &&& n <= tools.len()
            &&& out.error is None <==> n == tools.len()
            &&& forall|i: int|
                0 <= i < n ==> {
                    let t = #[trigger] out.tools[i];
                    &&& mcp::prefixed(server, tools[i].name) == Ok::<
                        Seq<char>,
                        crate::error::ErrorView,
                    >(t.prefixed_name)
                    &&& t.raw_name == tools[i].name && t.server_name == server
                    &&& t.description == tools[i].description && t.input_schema
                        == tools[i].input_schema
                    &&& out.origins.contains_key(t.prefixed_name)
                    &&& out.origins[t.prefixed_name] == server + "/"@ + tools[i].name
                }
            &&& forall|k: Seq<char>|
                origins.contains_key(k) ==> #[trigger] out.origins.contains_key(k) && out.origins[k]
                    == origins[k]
            &&& out.error is Some ==> match mcp::prefixed(server, tools[n].name) {
                Ok(p) => out.origins.contains_key(p),
                Err(e) => out.error == Some(e),
            }
        }),
    decreases tools.len(),
{
    if tools.len() > 0 {
        if let Ok(p) = mcp::prefixed(server, tools[0].name) {
            if !origins.contains_key(p) {
                let after = origins.insert(p, mcp::origin(server, tools[0].name));
                let rest = mcp::join(server, tools.skip(1), after);
                let out = mcp::join(server, tools, origins);
                law_tools_are_registered_in_order(server, tools.skip(1), after);
                assert(after.contains_key(p));
                assert forall|i: int| 0 <= i < out.tools.len() implies {
                    let t = #[trigger] out.tools[i];
                    &&& mcp::prefixed(server, tools[i].name) == Ok::<
                        Seq<char>,
                        crate::error::ErrorView,
                    >(t.prefixed_name)
                    &&& t.raw_name == tools[i].name && t.server_name == server
                    &&& t.description == tools[i].description && t.input_schema
                        == tools[i].input_schema
                    &&& out.origins.contains_key(t.prefixed_name)
                    &&& out.origins[t.prefixed_name] == server + "/"@ + tools[i].name
                } by {
                    if i > 0 {
                        assert(out.tools[i] == rest.tools[i - 1]);
                        assert(tools.skip(1)[i - 1] == tools[i]);
                    }
                }
                assert forall|k: Seq<char>| origins.contains_key(k) implies #[trigger] out.origins.contains_key(
                k) && out.origins[k] == origins[k] by {
                    assert(after.contains_key(k));
                    assert(rest.origins.contains_key(k));
                }
                if rest.tools.len() < tools.skip(1).len() {
                    assert(tools.skip(1)[rest.tools.len() as int] == tools[out.tools.len() as int]);
                }
            }
        }
    }
}

/// The law of servers: connecting leaves one connection to the server, with its tools, the
/// newest; all other connections stay, in their order; and a failed one leaves all.
pub proof fn law_one_connection_to_a_server(
    m: mcp::ManagerView,
    server: Seq<char>,
    tools: Seq<mcp::DefView>,
)
    ensures
        ({
            let w = m.connected(server, tools);
            let others = m.connections.filter(|c: mcp::ConnectionView| c.server_name != server);
            let failed = mcp::join(server, tools, m.origins).error is Some;
            &&& failed ==> w.connections == m.connections
            &&& !failed ==> w.connections == others.push(
                mcp::ConnectionView { server_name: server, tools },
            )
            &&& !failed ==> mcp::connection_to(w.connections, server) == Some(
                mcp::ConnectionView { server_name: server, tools },
            )
            &&& mcp::connection_to(m.connections, server) is Some ==> m.disconnected(
                server,
            ).connections == others
            &&& mcp::connection_to(m.connections, server) is None ==> m.disconnected(server) == m
        }),
{
    others_filtered(m.connections, server);
}

proof fn others_filtered(v: Seq<mcp::ConnectionView>, server: Seq<char>)
    ensures
        mcp::without_server(v, server) == v.filter(
            |c: mcp::ConnectionView| c.server_name != server,
        ),
    decreases v.len(),
{
    reveal(Seq::filter);
    if v.len() > 0 {
        others_filtered(v.drop_last(), server);
    }
}

/// The law of lookups: the connection to a server is one to it, and there is none only where
/// no connection is to it.
pub proof fn law_connections_are_found(v: Seq<mcp::ConnectionView>, server: Seq<char>)
    ensures
        match mcp::connection_to(v, server) {
            Some(c) => v.contains(c) && c.server_name == server,
            None => forall|i: int| 0 <= i < v.len() ==> (#[trigger] v[i]).server_name != server,
        },
    decreases v.len(),
{
    if v.len() > 0 {
        let head = v.drop_last();
        law_connections_are_found(head, server);
        if v.last().server_name == server {
            assert(v[v.len() - 1] == v.last());
        } else {
            match mcp::connection_to(head, server) {
                Some(c) => {
                    let i = choose|i: int| 0 <= i < head.len() && head[i] == c;
                    assert(v[i] == c);
                },
                None => {
                    assert forall|i: int| 0 <= i < v.len() implies (#[trigger] v[i]).server_name
                        != server by {
                        if i < head.len() {
                            assert(head[i] == v[i]);
                        }
                    }
                },
            }
        }
    }
}

/// The law of replies: a server's reply is all of its texts, in their order, and what it
/// shows as a whole only where it has none.
pub proof fn law_replies_hold_every_text(parts: Seq<Option<String>>, shown: Seq<char>)
    ensures
        ({
            let texts = parts.filter_map(
                |p: Option<String>|
                    match p {
                        Some(t) => Some(t@),
                        None => None,
                    },
            );
            &&& mcp::client::texts_in(parts) == texts
            &&& mcp::client::reply_text(parts, shown) == if texts.len() == 0 {
                shown
            } else {
                text::joined(texts, "\n"@)
            }
        }),
    decreases parts.len(),
{
    let f = |p: Option<String>|
        match p {
            Some(t) => Some(t@),
            None => None,
        };
    if parts.len() > 0 {
        law_replies_hold_every_text(parts.drop_last(), shown);
        if let Some(t) = parts.last() {
            assert(mcp::client::texts_in(parts) =~= parts.drop_last().filter_map(f) + seq![t@]);
        }
    }
}

/// The law of requests for a server: one needs a name and a command that are not empty, and
/// has the arguments that are texts, in their order.
pub proof fn law_requests_for_a_server(input: Seq<char>, items: Seq<Seq<char>>)
    ensures
        match json::json_value(input) {
            Ok(v) => {
                let name = v.str_or_empty("name"@);
                let command = v.str_or_empty("command"@);
                &&& mcp::tools::connect_request(input) is Some <==> name.len() > 0 && command.len()
                    > 0
                &&& mcp::tools::connect_request(input) matches Some((n, c, args)) ==> n == name && c
                    == command && match v.child("args"@) {
                    Some(json::JsonView::Array(xs)) => args == mcp::tools::strings_in(xs),
                    _ => args.len() == 0,
                }
            },
            Err(_) => mcp::tools::connect_request(input) is None,
        },
        mcp::tools::strings_in(items) == items.filter_map(
            |t: Seq<char>|
                match json::json_value(t) {
                    Ok(json::JsonView::Str(s)) => Some(s),
                    _ => None,
                },
        ),
    decreases items.len(),
{
    let f = |t: Seq<char>|
        match json::json_value(t) {
            Ok(json::JsonView::Str(s)) => Some(s),
            _ => None,
        };
    if items.len() > 0 {
        law_requests_for_a_server(input, items.drop_last());
        if let Ok(json::JsonView::Str(s)) = json::json_value(items.last()) {
            assert(mcp::tools::strings_in(items) =~= items.drop_last().filter_map(f) + seq![s]);
        }
    }
}

/// The law of listings: a listing has a line for each server and below it one for each of its
/// tools, in their order; without servers it says that there are none.
pub proof fn law_listings_hold_every_tool(
    a: Seq<mcp::InfoView>,
    b: Seq<mcp::InfoView>,
    i: mcp::InfoView,
    k: int,
)
    ensures
        mcp::tools::listing_lines(a.push(i)) == mcp::tools::listing_lines(a)
            + mcp::tools::server_lines(i),
        mcp::tools::listing_lines(Seq::empty()) == seq!["Connected MCP servers:"@],
        mcp::tools::server_lines(i).len() == i.tools.len() + 1,
        text::begins(mcp::tools::server_lines(i)[0], "- "@ + i.name),
        0 <= k < i.tools.len() ==> mcp::tools::server_lines(i)[k + 1] == "  - "@ + i.tools[k],
        mcp::tools::listing(Seq::empty())
            == "No MCP servers connected. Use connect_mcp to connect one."@,
        mcp::tools::listing(a.push(i)) == text::joined(
            mcp::tools::listing_lines(a.push(i)),
            "\n"@,
        ),
{
    assert(a.push(i).drop_last() =~= a);
    let first = mcp::tools::server_lines(i)[0];
    let head = "- "@ + i.name;
    assert(first.subrange(0, head.len() as int) =~= head);
}

/// The law of the system prompt: it lists every connected server, with the number of its
/// tools, and says nothing where there is none.
pub proof fn law_the_prompt_lists_every_server(servers: Seq<mcp::InfoView>, i: int)
    ensures
        servers.len() == 0 ==> mcp::prompt_suffix(servers).len() == 0,
        0 <= i < servers.len() ==> mcp::prompt_suffix(servers) == text::joined(
            seq!["## Connected MCP Servers"@] + servers.map_values(
                |s: mcp::InfoView|
                    "- "@ + s.name + ": "@ + text::decimal(s.tools.len()) + " tool(s)"@,
            ),
            "\n"@,
        ),
{
    if servers.len() > 0 {
        assert(servers.map_values(|s: mcp::InfoView| mcp::prompt_line(s)) =~= servers.map_values(
            |s: mcp::InfoView|
                "- "@ + s.name + ": "@ + text::decimal(s.tools.len()) + " tool(s)"@,
        ));
    }
}

/// The law of answers: a connection is answered with all the tools that were found, or with
/// that there are none, or with the error.
pub proof fn law_connections_are_answered(
    name: Seq<char>,
    tools: Seq<Seq<char>>,
    e: crate::error::ErrorView,
)
    ensures
        tools.len() > 0 ==> text::ends(
            mcp::tools::connect_answer(name, Ok(tools)),
            text::decimal(tools.len()) + " tool(s):\n"@ + text::joined(tools, ", "@),
        ),
        tools.len() == 0 ==> text::ends(
            mcp::tools::connect_answer(name, Ok(tools)),
            ". No tools discovered."@,
        ),
        text::begins(mcp::tools::connect_answer(name, Err(e)), "Error"@),
        text::ends(mcp::tools::connect_answer(name, Err(e)), e.shown()),
{
    let out = mcp::tools::connect_answer(name, Ok(tools));
    let bad = mcp::tools::connect_answer(name, Err(e));
    if tools.len() > 0 {
        let tail = text::decimal(tools.len()) + " tool(s):\n"@ + text::joined(tools, ", "@);
        assert(out.subrange(out.len() - tail.len(), out.len() as int) =~= tail);
    } else {
        reveal_strlit("'. No tools discovered.");
        reveal_strlit(". No tools discovered.");
        let tail = ". No tools discovered."@;
        assert(out.subrange(out.len() - tail.len(), out.len() as int) =~= tail);
    }
    reveal_strlit("Error connecting to MCP server '");
    reveal_strlit("Error");
    assert(bad.subrange(0, 5) =~= "Error"@);
    let shown = e.shown();
    assert(bad.subrange(bad.len() - shown.len(), bad.len() as int) =~= shown);
}

} // verus!
