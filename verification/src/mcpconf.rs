//! Configuration of remote tool servers: the server records, where the
//! configuration came from, lookup by id or name, and URL normalization.
//! Reading the configuration file and the protocol connection itself live
//! outside the library.

use vstd::prelude::*;

use crate::text::contains_seq;
use crate::text::contains_str;
use crate::text::eq_ignore_case;
use crate::text::starts_with;
use crate::text::starts_with_seq;

verus! {

/// How a remote server authenticates.
#[derive(Clone, Debug)]
pub struct McpAuth {
    pub auth_type: String,
    pub login_url: Option<String>,
    pub notes: Option<String>,
    pub bearer_env: Option<String>,
    pub bearer_token: Option<String>,
    pub client_id: Option<String>,
    pub client_id_env: Option<String>,
    pub client_secret: Option<String>,
    pub client_secret_env: Option<String>,
    pub redirect_uri: Option<String>,
}

/// One configured remote tool server.
#[derive(Clone, Debug)]
pub struct McpServer {
    pub id: String,
    pub name: Option<String>,
    pub url: String,
    pub sse_url: Option<String>,
    pub transport: Option<String>,
    pub auth: Option<McpAuth>,
}

/// The set of configured servers.
#[derive(Clone, Debug)]
pub struct McpConfig {
    pub servers: Vec<McpServer>,
}

/// Where the configuration was loaded from.
#[derive(Clone, Debug)]
pub enum McpSource {
    /// The defaults compiled into the program.
    Embedded,
    /// A configuration file at this path.
    File(String),
}

impl McpSource {
    /// Human-readable origin of the configuration.
    pub fn label(&self) -> (r: String)
        ensures
            self is Embedded ==> r@ == "embedded defaults"@,
            self is File ==> r@ == self->File_0@,
    {
        match self {
            McpSource::Embedded => String::from_str("embedded defaults"),
            McpSource::File(path) => path.clone(),
        }
    }
}

impl McpServer {
    /// The server's display name: its configured name, or its id.
    pub fn display_name(&self) -> (r: String)
        ensures
            match self.name {
                Some(n) => r@ == n@,
                None => r@ == self.id@,
            },
    {
        match &self.name {
            Some(n) => n.clone(),
            None => self.id.clone(),
        }
    }
}

/// Whether a server answers to the query, compared without case against
/// its id or its configured name.
pub open spec fn spec_server_matches(s: McpServer, query: Seq<char>) -> bool {
    eq_ignore_case(s.id@, query) || (s.name is Some && eq_ignore_case(s.name->Some_0@, query))
}

impl McpConfig {
    /// The first configured server whose id or name equals the query,
    /// compared without case.
    pub fn find_by_id_or_name(&self, query: &str) -> (r: Option<McpServer>)
        ensures
            match r {
                Some(s) => exists|i: int|
                    {
                        &&& 0 <= i < self.servers@.len()
                        &&& s == self.servers@[i]
                        &&& spec_server_matches(#[trigger] self.servers@[i], query@)
                        &&& forall|j: int|
                            0 <= j < i ==> !spec_server_matches(#[trigger] self.servers@[j], query@)
                    },
                None => forall|i: int|
                    0 <= i < self.servers@.len() ==> !spec_server_matches(
                        #[trigger] self.servers@[i],
                        query@,
                    ),
            },
    {
        let mut i: usize = 0;
        while i < self.servers.len()
            invariant
                0 <= i <= self.servers@.len(),
                forall|j: int|
                    0 <= j < i ==> !spec_server_matches(#[trigger] self.servers@[j], query@),
            decreases self.servers@.len() - i,
        {
            let id_match = crate::text::eq_ignore_ascii_case(self.servers[i].id.as_str(), query);
            let name_match = match &self.servers[i].name {
                Some(n) => crate::text::eq_ignore_ascii_case(n.as_str(), query),
                None => false,
            };
            if id_match || name_match {
                let found = clone_server(&self.servers[i]);
                return Some(found);
            }
            i = i + 1;
        }
        None
    }
}

/// Copy an optional string.
fn clone_opt(o: &Option<String>) -> (r: Option<String>)
    ensures
        r == *o,
{
    match o {
        Some(x) => Some(x.clone()),
        None => None,
    }
}

/// Copy an auth record field by field.
fn clone_auth(a: &McpAuth) -> (r: McpAuth)
    ensures
        r == *a,
{
    McpAuth {
        auth_type: a.auth_type.clone(),
        login_url: clone_opt(&a.login_url),
        notes: clone_opt(&a.notes),
        bearer_env: clone_opt(&a.bearer_env),
        bearer_token: clone_opt(&a.bearer_token),
        client_id: clone_opt(&a.client_id),
        client_id_env: clone_opt(&a.client_id_env),
        client_secret: clone_opt(&a.client_secret),
        client_secret_env: clone_opt(&a.client_secret_env),
        redirect_uri: clone_opt(&a.redirect_uri),
    }
}

/// Copy a server record field by field.
pub fn clone_server(s: &McpServer) -> (r: McpServer)
    ensures
        r == *s,
{
    McpServer {
        id: s.id.clone(),
        name: clone_opt(&s.name),
        url: s.url.clone(),
        sse_url: clone_opt(&s.sse_url),
        transport: clone_opt(&s.transport),
        auth: match &s.auth {
            Some(a) => Some(clone_auth(a)),
            None => None,
        },
    }
}

/// The view of a normalized URL: a string with a scheme separator is kept;
/// anything else gets `http` when it points at the local host (a
/// `localhost` or `127.` prefix, or an explicit `:80` port) and `https`
/// otherwise.
pub open spec fn spec_normalize_url(s: Seq<char>) -> Seq<char> {
    if contains_seq(s, "://"@) {
        s
    } else if starts_with_seq(s, "localhost"@) || starts_with_seq(s, "127."@) || contains_seq(
        s,
        ":80"@,
    ) {
        "http://"@ + s
    } else {
        "https://"@ + s
    }
}

/// Normalize a URL that may lack its scheme.
pub fn normalize_url(raw: &str) -> (r: String)
    ensures
        r@ == spec_normalize_url(raw@),
{
    if contains_str(raw, "://") {
        return String::from_str(raw);
    }
    let scheme = if starts_with(raw, "localhost") || starts_with(raw, "127.") || contains_str(
        raw,
        ":80",
    ) {
        "http"
    } else {
        "https"
    };
    let mut out = String::from_str(scheme);
    out.append("://");
    out.append(raw);
    proof {
        reveal_strlit("http");
        reveal_strlit("https");
        reveal_strlit("http://");
        reveal_strlit("https://");
        reveal_strlit("://");
        assert(out@ =~= spec_normalize_url(raw@));
    }
    out
}

} // verus!
