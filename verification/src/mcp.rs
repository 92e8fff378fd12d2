//! Tool-provider configuration: how a configured server is reached (a spawned
//! process or a URL), which transport that implies, and the named collection
//! of server configurations kept on disk.  The file and process work stays
//! with the caller; everything here is plain data and decisions about it.

use vstd::prelude::*;

use crate::text::chars_of;
use crate::text::find_from;
use crate::text::lemma_find_complete;
use crate::text::lemma_find_sound;
use crate::text::match_at;
use crate::text::spec_find;
use crate::text::str_eq;
use crate::text::str_ends_with;
use crate::text::string_from;
use crate::text::subvec;

verus! {

/// How a configured tool server is reached.
pub struct McpServerConfig {
    /// The command to spawn, for process-based transport.
    pub command: Option<String>,
    /// Arguments handed to the spawned command.
    pub args: Option<Vec<String>>,
    /// Environment variables set for the spawned command, in file order.
    pub env: Option<Vec<(String, String)>>,
    /// The endpoint, for URL-based transports.
    pub url: Option<String>,
}

/// The transport a configuration implies.
#[derive(Clone, Copy, PartialEq, Eq, Structural, Debug)]
pub enum TransportType {
    Stdio,
    Sse,
    StreamableHttp,
}

/// The transport detection rule: a command means a spawned process; else a
/// URL ending in `/sse` means server-sent events, one ending in `/mcp` means
/// streamable HTTP, and any other URL defaults to server-sent events; with
/// neither field, a spawned process is assumed.
pub open spec fn spec_transport_type(c: McpServerConfig) -> TransportType {
    if c.command is Some {
        TransportType::Stdio
    } else if c.url is Some {
        if crate::text::spec_ends_with(c.url->0@, "/sse"@) {
            TransportType::Sse
        } else if crate::text::spec_ends_with(c.url->0@, "/mcp"@) {
            TransportType::StreamableHttp
        } else {
            TransportType::Sse
        }
    } else {
        TransportType::Stdio
    }
}

/// The error a configuration validates to, if any: process transport without
/// a command, or URL transport without a URL.
pub open spec fn spec_validate_err(c: McpServerConfig) -> Option<Seq<char>> {
    match spec_transport_type(c) {
        TransportType::Stdio => if c.command is None {
            Some("Stdio transport requires 'command' field"@)
        } else {
            None
        },
        _ => if c.url is None {
            Some("URL-based transport requires 'url' field"@)
        } else {
            None
        },
    }
}

impl McpServerConfig {
    /// Detects the transport type from the configuration alone.
    pub fn get_transport_type(&self) -> (t: TransportType)
        ensures
            t == spec_transport_type(*self),
    {
        if self.command.is_some() {
            TransportType::Stdio
        } else if let Some(url) = &self.url {
            if str_ends_with(url.as_str(), "/sse") {
                TransportType::Sse
            } else if str_ends_with(url.as_str(), "/mcp") {
                TransportType::StreamableHttp
            } else {
                TransportType::Sse
            }
        } else {
            TransportType::Stdio
        }
    }

    /// Checks that the configuration carries the field its transport needs.
    pub fn validate(&self) -> (r: Result<(), String>)
        ensures
            r is Ok <==> spec_validate_err(*self) is None,
            r matches Err(e) ==> Some(e@) == spec_validate_err(*self),
    {
        match self.get_transport_type() {
            TransportType::Stdio => {
                if self.command.is_none() {
                    return Err(String::from_str("Stdio transport requires 'command' field"));
                }
            },
            TransportType::Sse | TransportType::StreamableHttp => {
                if self.url.is_none() {
                    return Err(String::from_str("URL-based transport requires 'url' field"));
                }
            },
        }
        Ok(())
    }
}

/// A named collection of server configurations, keyed by server name.  The
/// on-disk form is a JSON object, so names are unique; here the entries keep
/// their order, and every operation acts on the first entry with its name.
pub struct McpConfig {
    pub mcp_servers: Vec<(String, McpServerConfig)>,
}

/// The first configuration stored under `name`, if any.
pub open spec fn spec_lookup(
    es: Seq<(String, McpServerConfig)>,
    name: Seq<char>,
) -> Option<McpServerConfig>
    decreases es.len(),
{
    if es.len() == 0 {
        None
    } else if es[0].0@ == name {
        Some(es[0].1)
    } else {
        spec_lookup(es.drop_first(), name)
    }
}

/// The entries after storing `entry` under `name`: the first entry with that
/// name is replaced in place, or the new entry goes to the end.
pub open spec fn spec_insert(
    es: Seq<(String, McpServerConfig)>,
    name: Seq<char>,
    entry: (String, McpServerConfig),
) -> Seq<(String, McpServerConfig)>
    decreases es.len(),
{
    if es.len() == 0 {
        seq![entry]
    } else if es[0].0@ == name {
        seq![entry] + es.drop_first()
    } else {
        seq![es[0]] + spec_insert(es.drop_first(), name, entry)
    }
}

/// The entries after removing the first entry stored under `name`, if any.
pub open spec fn spec_remove(
    es: Seq<(String, McpServerConfig)>,
    name: Seq<char>,
) -> Seq<(String, McpServerConfig)>
    decreases es.len(),
{
    if es.len() == 0 {
        es
    } else if es[0].0@ == name {
        es.drop_first()
    } else {
        seq![es[0]] + spec_remove(es.drop_first(), name)
    }
}

/// Replacing the first match at position `k` is an in-place update.
proof fn lemma_insert_at(
    es: Seq<(String, McpServerConfig)>,
    name: Seq<char>,
    entry: (String, McpServerConfig),
    k: int,
)
    requires
        0 <= k < es.len(),
        es[k].0@ == name,
        forall|j: int| 0 <= j < k ==> es[j].0@ != name,
    ensures
        spec_insert(es, name, entry) == es.update(k, entry),
    decreases k,
{
    if k == 0 {
        assert(seq![entry] + es.drop_first() =~= es.update(0, entry));
    } else {
        lemma_insert_at(es.drop_first(), name, entry, k - 1);
        assert(seq![es[0]] + es.drop_first().update(k - 1, entry) =~= es.update(k, entry));
    }
}

/// With no match anywhere, storing appends.
proof fn lemma_insert_absent(
    es: Seq<(String, McpServerConfig)>,
    name: Seq<char>,
    entry: (String, McpServerConfig),
)
    requires
        forall|j: int| 0 <= j < es.len() ==> es[j].0@ != name,
    ensures
        spec_insert(es, name, entry) == es.push(entry),
    decreases es.len(),
{
    if es.len() == 0 {
        assert(seq![entry] =~= es.push(entry));
    } else {
        lemma_insert_absent(es.drop_first(), name, entry);
        assert(seq![es[0]] + es.drop_first().push(entry) =~= es.push(entry));
    }
}

/// Removing the first match at position `k` takes that entry out.
proof fn lemma_remove_at(es: Seq<(String, McpServerConfig)>, name: Seq<char>, k: int)
    requires
        0 <= k < es.len(),
        es[k].0@ == name,
        forall|j: int| 0 <= j < k ==> es[j].0@ != name,
    ensures
        spec_remove(es, name) == es.subrange(0, k) + es.subrange(k + 1, es.len() as int),
        spec_lookup(es, name) == Some(es[k].1),
    decreases k,
{
    if k == 0 {
        assert(es.drop_first() =~= es.subrange(0, 0) + es.subrange(1, es.len() as int));
    } else {
        lemma_remove_at(es.drop_first(), name, k - 1);
        assert(es.drop_first().subrange(0, k - 1) =~= es.subrange(1, k));
        assert(es.drop_first().subrange(k, es.drop_first().len() as int) =~= es.subrange(
            k + 1,
            es.len() as int,
        ));
        assert(seq![es[0]] + (es.subrange(1, k) + es.subrange(k + 1, es.len() as int))
            =~= es.subrange(0, k) + es.subrange(k + 1, es.len() as int));
    }
}

/// With no match anywhere, nothing is removed and nothing is found.
proof fn lemma_remove_absent(es: Seq<(String, McpServerConfig)>, name: Seq<char>)
    requires
        forall|j: int| 0 <= j < es.len() ==> es[j].0@ != name,
    ensures
        spec_remove(es, name) == es,
        spec_lookup(es, name) is None,
    decreases es.len(),
{
    if es.len() > 0 {
        lemma_remove_absent(es.drop_first(), name);
        assert(seq![es[0]] + es.drop_first() =~= es);
    }
}

/// The lookup result is the first matching entry's configuration.
proof fn lemma_lookup_at(es: Seq<(String, McpServerConfig)>, name: Seq<char>, k: int)
    requires
        0 <= k < es.len(),
        es[k].0@ == name,
        forall|j: int| 0 <= j < k ==> es[j].0@ != name,
    ensures
        spec_lookup(es, name) == Some(es[k].1),
    decreases k,
{
    if k > 0 {
        lemma_lookup_at(es.drop_first(), name, k - 1);
    }
}

impl Default for McpConfig {
    /// An empty collection.
    fn default() -> (c: McpConfig)
        ensures
            c.mcp_servers@ == Seq::<(String, McpServerConfig)>::empty(),
    {
        McpConfig { mcp_servers: Vec::new() }
    }
}

impl McpConfig {
    /// Stores `server` under `name`, replacing the entry with that name if
    /// one exists and appending otherwise.
    pub fn add_server(&mut self, name: String, server: McpServerConfig)
        ensures
            final(self).mcp_servers@ == spec_insert(
                old(self).mcp_servers@,
                name@,
                (name, server),
            ),
    {
        let n = self.mcp_servers.len();
        let mut i: usize = 0;
        while i < n
            invariant
                i <= n,
                n == self.mcp_servers@.len(),
                *self == *old(self),
                forall|j: int| 0 <= j < i ==> old(self).mcp_servers@[j].0@ != name@,
            decreases n - i,
        {
            if str_eq(self.mcp_servers[i].0.as_str(), name.as_str()) {
                proof {
                    lemma_insert_at(old(self).mcp_servers@, name@, (name, server), i as int);
                }
                self.mcp_servers.set(i, (name, server));
                return ;
            }
            i = i + 1;
        }
        proof {
            lemma_insert_absent(old(self).mcp_servers@, name@, (name, server));
        }
        self.mcp_servers.push((name, server));
    }

    /// Removes the entry stored under `name`, handing back its configuration,
    /// or `None` when there is no such entry.
    pub fn remove_server(&mut self, name: &str) -> (r: Option<McpServerConfig>)
        ensures
            final(self).mcp_servers@ == spec_remove(old(self).mcp_servers@, name@),
            r == spec_lookup(old(self).mcp_servers@, name@),
    {
        let n = self.mcp_servers.len();
        let mut i: usize = 0;
        while i < n
            invariant
                i <= n,
                n == self.mcp_servers@.len(),
                *self == *old(self),
                forall|j: int| 0 <= j < i ==> old(self).mcp_servers@[j].0@ != name@,
            decreases n - i,
        {
            if str_eq(self.mcp_servers[i].0.as_str(), name) {
                proof {
                    lemma_remove_at(old(self).mcp_servers@, name@, i as int);
                }
                let entry = self.mcp_servers.remove(i);
                return Some(entry.1);
            }
            i = i + 1;
        }
        proof {
            lemma_remove_absent(old(self).mcp_servers@, name@);
        }
        None
    }

    /// The configuration stored under `name`, if any.
    pub fn get_server(&self, name: &str) -> (r: Option<&McpServerConfig>)
        ensures
            match r {
                Some(c) => spec_lookup(self.mcp_servers@, name@) == Some(*c),
                None => spec_lookup(self.mcp_servers@, name@) is None,
            },
    {
        let n = self.mcp_servers.len();
        let mut i: usize = 0;
        while i < n
            invariant
                i <= n,
                n == self.mcp_servers@.len(),
                forall|j: int| 0 <= j < i ==> self.mcp_servers@[j].0@ != name@,
            decreases n - i,
        {
            if str_eq(self.mcp_servers[i].0.as_str(), name) {
                proof {
                    lemma_lookup_at(self.mcp_servers@, name@, i as int);
                }
                return Some(&self.mcp_servers[i].1);
            }
            i = i + 1;
        }
        proof {
            lemma_remove_absent(self.mcp_servers@, name@);
        }
        None
    }

    /// All entries, in stored order, as borrowed pairs.
    pub fn list_servers(&self) -> (r: Vec<(&String, &McpServerConfig)>)
        ensures
            r@.len() == self.mcp_servers@.len(),
            forall|i: int|
                0 <= i < r@.len() ==> *#[trigger] r@[i].0 == self.mcp_servers@[i].0 && *r@[i].1
                    == self.mcp_servers@[i].1,
    {
        let n = self.mcp_servers.len();
        let mut r: Vec<(&String, &McpServerConfig)> = Vec::new();
        let mut i: usize = 0;
        while i < n
            invariant
                i <= n,
                n == self.mcp_servers@.len(),
                r@.len() == i,
                forall|j: int|
                    0 <= j < i ==> *#[trigger] r@[j].0 == self.mcp_servers@[j].0 && *r@[j].1
                        == self.mcp_servers@[j].1,
            decreases n - i,
        {
            let entry = &self.mcp_servers[i];
            r.push((&entry.0, &entry.1));
            i = i + 1;
        }
        r
    }
}

/// Information about a configured server, as shown to the user interface.
pub struct McpServerInfo {
    pub name: String,
    pub config: McpServerConfig,
    pub status: String,
    pub tools: Vec<String>,
}

/// A request to add or edit a server, as the user interface sends it.
pub struct AddServerRequest {
    pub name: String,
    pub command: Option<String>,
    pub args: Option<Vec<String>>,
    pub env: Option<Vec<(String, String)>>,
    pub url: Option<String>,
}

impl AddServerRequest {
    /// The configuration a request describes.
    pub fn into_config(self) -> (r: (String, McpServerConfig))
        ensures
            r.0 == self.name,
            r.1.command == self.command,
            r.1.args == self.args,
            r.1.env == self.env,
            r.1.url == self.url,
    {
        (
            self.name,
            McpServerConfig {
                command: self.command,
                args: self.args,
                env: self.env,
                url: self.url,
            },
        )
    }
}

impl McpServerInfo {
    /// Describes one configured server: its status text says whether a client
    /// connection currently exists; the tool list is filled in separately.
    pub fn describe(name: String, config: McpServerConfig, connected: bool) -> (r: McpServerInfo)
        ensures
            r.name == name,
            r.config == config,
            r.status@ == (if connected {
                "connected"@
            } else {
                "disconnected"@
            }),
            r.tools@ == Seq::<String>::empty(),
    {
        McpServerInfo {
            name,
            config,
            status: if connected {
                String::from_str("connected")
            } else {
                String::from_str("disconnected")
            },
            tools: Vec::new(),
        }
    }
}

/// The qualified name a tool is announced under, so that names from
/// different servers cannot collide: the server's name, an underscore, the
/// tool's own name.
pub open spec fn spec_qualified_name(server: Seq<char>, tool: Seq<char>) -> Seq<char> {
    server + "_"@ + tool
}

/// Prefixes a tool's name with its server's name.
pub fn qualify_tool_name(server: &str, tool: &str) -> (r: String)
    ensures
        r@ == spec_qualified_name(server@, tool@),
{
    let mut r = String::from_str(server);
    r.append("_");
    r.append(tool);
    r
}

/// Law: splitting a qualified name at its first underscore recovers the
/// server's name and the tool's own name, provided the server's name has no
/// underscore of its own.
pub proof fn lemma_qualified_name_round_trip(server: Seq<char>, tool: Seq<char>)
    requires
        forall|i: int| 0 <= i < server.len() ==> server[i] != '_',
    ensures
        spec_find(spec_qualified_name(server, tool), "_"@, 0) == Some(server.len() as int),
        spec_qualified_name(server, tool).take(server.len() as int) == server,
        spec_qualified_name(server, tool).skip(server.len() as int + 1) == tool,
{
    reveal_strlit("_");
    let q = spec_qualified_name(server, tool);
    assert(q.subrange(server.len() as int, server.len() as int + 1) =~= "_"@);
    assert(match_at(q, "_"@, server.len() as int));
    lemma_find_complete(q, "_"@, 0, server.len() as int);
    lemma_find_sound(q, "_"@, 0);
    let j = spec_find(q, "_"@, 0)->0;
    if j < server.len() {
        assert(q.subrange(j, j + 1)[0] == '_');
        assert(q[j] == server[j]);
        assert(false);
    }
    assert(q.take(server.len() as int) =~= server);
    assert(q.skip(server.len() as int + 1) =~= tool);
}

/// Splits a qualified tool name `server_toolname` at its first underscore
/// into the server's name and the tool's own name; a name with no underscore
/// is rejected with the dispatcher's error text.
pub fn split_qualified_tool_name(tool_name: &str) -> (r: Result<(String, String), String>)
    ensures
        r matches Ok(p) ==> ({
            &&& spec_find(tool_name@, "_"@, 0) matches Some(i)
            &&& p.0@ == tool_name@.take(spec_find(tool_name@, "_"@, 0)->0)
            &&& p.1@ == tool_name@.skip(spec_find(tool_name@, "_"@, 0)->0 + 1)
        }),
        r matches Err(e) ==> spec_find(tool_name@, "_"@, 0) is None && e@
            == "Invalid tool name format. Expected: server_toolname"@,
{
    let t = chars_of(tool_name);
    let sep = chars_of("_");
    proof {
        reveal_strlit("_");
    }
    let n = t.len();
    match find_from(&t, &sep, 0) {
        Some(i) => {
            proof {
                lemma_find_sound(t@, "_"@, 0);
                assert(i + 1 <= n);
            }
            let server = string_from(&subvec(&t, 0, i));
            let tool = string_from(&subvec(&t, i + 1, n));
            proof {
                assert(t@.subrange(0, i as int) =~= tool_name@.take(i as int));
                assert(t@.subrange(i as int + 1, t@.len() as int) =~= tool_name@.skip(i as int + 1));
            }
            Ok((server, tool))
        },
        None => Err(String::from_str("Invalid tool name format. Expected: server_toolname")),
    }
}

} // verus!
