//! The hub's configuration: its database and the address it listens on.
use vstd::prelude::*;

verus! {

/// How to reach the hub's database.
#[derive(Clone, Debug)]
pub struct DatabaseConfig {
    pub user: String,
    pub password: Option<String>,
    pub url: String,
}

/// Where the hub listens.
#[derive(Clone, Debug)]
pub struct HttpConfig {
    pub port: isize,
    pub url: String,
}

/// The hub's configuration.
#[derive(Clone, Debug)]
pub struct HubConfig {
    pub http: HttpConfig,
    pub database: DatabaseConfig,
}

impl HubConfig {
    /// The connection URL of the database:
    /// `postgres://<user>:<password>@<url>`, with an empty password where
    /// none is set.
    pub fn database_url(&self) -> (r: String)
        ensures
            r@ == "postgres://"@ + self.database.user@ + ":"@ + match self.database.password {
                Some(p) => p@,
                None => Seq::<char>::empty(),
            } + "@"@ + self.database.url@,
    {
        let mut r = String::from_str("postgres://");
        r.append(self.database.user.as_str());
        r.append(":");
        match &self.database.password {
            Some(p) => r.append(p.as_str()),
            None => {},
        }
        r.append("@");
        r.append(self.database.url.as_str());
        r
    }
}

} // verus!
