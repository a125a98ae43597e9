//! The agent's configuration: where its store lives and which hub it
//! synchronizes with, and how it prints its counts.
use vstd::prelude::*;

verus! {

/// Where the agent keeps its counters.
#[derive(Clone, Debug)]
pub struct LocalConfig {
    pub database_path: String,
}

/// The hub an agent synchronizes with, and its credential there.
#[derive(Clone, Debug)]
pub struct HubConfig {
    pub hub_url: String,
    pub api_token: String,
}

/// The agent's configuration; each part may be missing.
#[derive(Clone, Debug)]
pub struct AgentConfig {
    local: Option<LocalConfig>,
    hub: Option<HubConfig>,
}

/// Why the configuration cannot serve a command.
#[derive(Clone, Copy, Debug, PartialEq, Eq, Structural)]
pub enum ConfigError {
    /// No hub is configured.
    MissingHubConfig,
}

/// How the agent prints its counts.
pub enum Output<'a> {
    Json,
    Template(&'a str),
}

impl<'a> Output<'a> {
    /// A template where one is given, JSON otherwise.
    pub fn from_template(template: Option<&'a str>) -> (r: Output<'a>)
        ensures
            template is None ==> r is Json,
            template matches Some(t) ==> r matches Output::Template(u) && u@ == t@,
    {
        match template {
            Some(t) => Output::Template(t),
            None => Output::Json,
        }
    }
}

impl AgentConfig {
    pub closed spec fn local_spec(&self) -> Option<LocalConfig> {
        self.local
    }

    pub closed spec fn hub_spec(&self) -> Option<HubConfig> {
        self.hub
    }

    /// A configuration with neither part.
    pub fn default() -> (r: AgentConfig)
        ensures
            r.local_spec() is None,
            r.hub_spec() is None,
    {
        AgentConfig { local: None, hub: None }
    }

    /// A configuration with the given parts.
    pub fn new(local: Option<LocalConfig>, hub: Option<HubConfig>) -> (r: AgentConfig)
        ensures
            r.local_spec() == local,
            r.hub_spec() == hub,
    {
        AgentConfig { local, hub }
    }

    /// The local part, where there is one.
    pub fn local(&self) -> (r: Option<LocalConfig>)
        ensures
            r matches Some(l) ==> self.local_spec() matches Some(m) && l.database_path@
                == m.database_path@,
            r is None <==> self.local_spec() is None,
    {
        match &self.local {
            Some(l) => Some(LocalConfig { database_path: l.database_path.clone() }),
            None => None,
        }
    }

    /// The hub part; an error where none is configured.
    pub fn hub_config(&self) -> (r: Result<HubConfig, ConfigError>)
        ensures
            self.hub_spec() is None ==> r == Err::<HubConfig, ConfigError>(
                ConfigError::MissingHubConfig,
            ),
            self.hub_spec() matches Some(h) ==> r matches Ok(c) && c.hub_url@ == h.hub_url@
                && c.api_token@ == h.api_token@,
    {
        match &self.hub {
            Some(hub) => Ok(HubConfig { hub_url: hub.hub_url.clone(), api_token: hub.api_token.clone() }),
            None => Err(ConfigError::MissingHubConfig),
        }
    }
}

} // verus!
