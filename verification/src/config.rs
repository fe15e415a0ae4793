//! Router configuration: the engine endpoint, the agents of the run and the
//! supervision hierarchy among them.
use vstd::prelude::*;
use vstd::string::*;
use crate::text::{replace_all, trim_end_char, replace_all_exec, trim_end_char_exec};
use crate::lookup::{first_index, is_first, lemma_first_index_is, lemma_first_index_none};

verus! {

/// What the run says about one agent.
#[derive(Debug, Clone)]
pub struct AgentMeta {
    pub is_root: bool,
    pub peers: Vec<String>,
    pub fields: Vec<(String, String)>,
}

#[derive(Debug, Clone)]
pub struct RouterConfig {
    pub api_url: String,
    pub api_key: String,
    pub run_id: String,
    pub workspace_id: String,
    pub agents_meta: Vec<(String, AgentMeta)>,
    pub wal_path: String,
    pub grpc_addr: String,
}

/// A required setting that was not given; it carries the variable's name.
#[derive(Debug, Clone, Copy, PartialEq, Eq)]
pub enum ConfigError {
    Missing(&'static str),
}

impl ConfigError {
    pub fn message(&self) -> (r: String)
        ensures
            match self {
                ConfigError::Missing(name) => r@ == name@ + " not set"@,
            },
    {
        match self {
            ConfigError::Missing(name) => String::from_str(name).concat(" not set"),
        }
    }
}

pub open spec fn is_root_entry() -> spec_fn((String, AgentMeta)) -> bool {
    |e: (String, AgentMeta)| e.1.is_root
}

/// The first agent marked as root, in the order the agents are listed.
pub open spec fn root_agent(agents: Seq<(String, AgentMeta)>) -> Option<Seq<char>> {
    let p = first_index(agents, is_root_entry());
    if p >= 0 {
        Some(agents[p].0@)
    } else {
        None
    }
}

/// No field of an agent is named twice.
pub open spec fn field_names_distinct(fields: Seq<(String, String)>) -> bool {
    forall|i: int, j: int| 0 <= i < j < fields.len() ==> (#[trigger] fields[i]).0@ != (#[trigger] fields[j]).0@
}

/// No agent is listed twice, and no agent has a field twice.
pub open spec fn names_distinct(agents: Seq<(String, AgentMeta)>) -> bool {
    &&& forall|i: int, j: int| 0 <= i < j < agents.len() ==> (#[trigger] agents[i]).0@ != (#[trigger] agents[j]).0@
    &&& forall|i: int| 0 <= i < agents.len() ==> field_names_distinct((#[trigger] agents[i]).1.fields@)
}

/// Every agent with its supervisor: none for a root, the root for the others.
pub open spec fn hierarchy_of(agents: Seq<(String, AgentMeta)>) -> Seq<(Seq<char>, Option<Seq<char>>)> {
    agents.map_values(|e: (String, AgentMeta)| (e.0@, if e.1.is_root { None } else { root_agent(agents) }))
}

pub open spec fn hierarchy_view(h: Seq<(String, Option<String>)>) -> Seq<(Seq<char>, Option<Seq<char>>)> {
    h.map_values(|e: (String, Option<String>)| (e.0@, match e.1 { Some(s) => Some(s@), None => None }))
}

fn find_root(agents: &Vec<(String, AgentMeta)>) -> (r: Option<String>)
    ensures
        r.deep_view() == root_agent(agents@),
{
    let mut i: usize = 0;
    while i < agents.len()
        invariant
            i <= agents@.len(),
            forall|j: int| 0 <= j < i ==> !is_root_entry()(#[trigger] agents@[j]),
        decreases agents@.len() - i,
    {
        if agents[i].1.is_root {
            proof {
                assert(is_first(agents@, is_root_entry(), i as int));
                lemma_first_index_is(agents@, is_root_entry(), i as int);
            }
            return Some(agents[i].0.clone());
        }
        i += 1;
    }
    proof { lemma_first_index_none(agents@, is_root_entry()); }
    None
}

/// The supervisor of every agent.
pub fn supervision_of(agents: &Vec<(String, AgentMeta)>) -> (r: Vec<(String, Option<String>)>)
    ensures
        hierarchy_view(r@) == hierarchy_of(agents@),
{
    let root = find_root(agents);
    let mut out: Vec<(String, Option<String>)> = Vec::new();
    let mut i: usize = 0;
    while i < agents.len()
        invariant
            i <= agents@.len(),
            root.deep_view() == root_agent(agents@),
            hierarchy_view(out@) == hierarchy_of(agents@).take(i as int),
        decreases agents@.len() - i,
    {
        let sup = if agents[i].1.is_root {
            None
        } else {
            match &root {
                Some(r) => Some(r.clone()),
                None => None,
            }
        };
        let key = agents[i].0.clone();
        let ghost entry = (key, sup);
        assert(hierarchy_view(seq![entry])[0] == hierarchy_of(agents@)[i as int]);
        let ghost prev = out@;
        out.push((key, sup));
        assert(out@ == prev.push(entry));
        assert(hierarchy_view(out@) =~= hierarchy_view(prev).push(hierarchy_view(seq![entry])[0]));
        i += 1;
        assert(hierarchy_view(out@) =~= hierarchy_of(agents@).take(i as int));
    }
    assert(hierarchy_of(agents@).take(i as int) =~= hierarchy_of(agents@));
    out
}

/// The WebSocket address of the run: the API URL with its scheme switched
/// to ws/wss, trailing slashes dropped, then `/ws/<run_id>`.
pub open spec fn ws_url_of(api_url: Seq<char>, run_id: Seq<char>) -> Seq<char> {
    trim_end_char(replace_all(replace_all(api_url, "http://"@, "ws://"@), "https://"@, "wss://"@), '/')
        + "/ws/"@ + run_id
}

impl RouterConfig {
    /// Builds a configuration from the settings that were given; the WAL
    /// path and the gRPC address have defaults, the others are required.
    pub fn from_values(
        agents_meta: Vec<(String, AgentMeta)>,
        api_url: Option<String>,
        api_key: Option<String>,
        run_id: Option<String>,
        workspace_id: Option<String>,
        wal_path: Option<String>,
        grpc_addr: Option<String>,
    ) -> (r: Result<RouterConfig, ConfigError>)
        requires
            names_distinct(agents_meta@),
        ensures
            api_url is None ==> r == Err::<RouterConfig, ConfigError>(ConfigError::Missing("DSPATCH_API_URL")),
            api_url is Some && api_key is None ==> r == Err::<RouterConfig, ConfigError>(
                ConfigError::Missing("DSPATCH_API_KEY"),
            ),
            api_url is Some && api_key is Some && run_id is None ==> r == Err::<RouterConfig, ConfigError>(
                ConfigError::Missing("DSPATCH_RUN_ID"),
            ),
            api_url is Some && api_key is Some && run_id is Some && workspace_id is None ==> r == Err::<
                RouterConfig,
                ConfigError,
            >(ConfigError::Missing("DSPATCH_WORKSPACE_ID")),
            r is Ok <==> (api_url is Some && api_key is Some && run_id is Some && workspace_id is Some),
            r matches Ok(c) ==> {
                &&& c.api_url == api_url.unwrap()
                &&& c.api_key == api_key.unwrap()
                &&& c.run_id == run_id.unwrap()
                &&& c.workspace_id == workspace_id.unwrap()
                &&& c.agents_meta == agents_meta
                &&& c.wal_path@ == match wal_path { Some(p) => p@, None => "/data/dspatch.wal"@ }
                &&& c.grpc_addr@ == match grpc_addr { Some(a) => a@, None => "127.0.0.1:50051"@ }
            },
    {
        let api_url = match api_url {
            Some(v) => v,
            None => return Err(ConfigError::Missing("DSPATCH_API_URL")),
        };
        let api_key = match api_key {
            Some(v) => v,
            None => return Err(ConfigError::Missing("DSPATCH_API_KEY")),
        };
        let run_id = match run_id {
            Some(v) => v,
            None => return Err(ConfigError::Missing("DSPATCH_RUN_ID")),
        };
        let workspace_id = match workspace_id {
            Some(v) => v,
            None => return Err(ConfigError::Missing("DSPATCH_WORKSPACE_ID")),
        };
        let wal_path = match wal_path {
            Some(v) => v,
            None => String::from_str("/data/dspatch.wal"),
        };
        let grpc_addr = match grpc_addr {
            Some(v) => v,
            None => String::from_str("127.0.0.1:50051"),
        };
        Ok(RouterConfig { api_url, api_key, run_id, workspace_id, agents_meta, wal_path, grpc_addr })
    }

    pub fn ws_url(&self) -> (r: String)
        ensures
            r@ == ws_url_of(self.api_url@, self.run_id@),
    {
        proof { reveal_strlit("http://"); reveal_strlit("https://"); }
        let a = replace_all_exec(self.api_url.as_str(), "http://", "ws://");
        let b = replace_all_exec(a.as_str(), "https://", "wss://");
        let base = trim_end_char_exec(b.as_str(), '/');
        base.concat("/ws/").concat(self.run_id.as_str())
    }

    pub fn supervision_hierarchy(&self) -> (r: Vec<(String, Option<String>)>)
        ensures
            hierarchy_view(r@) == hierarchy_of(self.agents_meta@),
    {
        supervision_of(&self.agents_meta)
    }
}

} // verus!
