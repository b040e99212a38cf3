//! Immutable connection parameters, shared across reconnect attempts.

use vstd::prelude::*;
use vstd::string::StringExecFns;

verus! {

/// Where and as whom to open the transport session. Immutable after
/// construction; a supervisor reads it on every attempt.
pub struct ConnectionConfig {
    /// Broker host name or address.
    pub host: String,
    /// Broker port.
    pub port: u16,
    /// Plain-authentication user name.
    pub username: String,
    /// Plain-authentication password.
    pub password: String,
    /// Virtual host the session is scoped to.
    pub virtual_host: String,
}

impl ConnectionConfig {
    /// Connection parameters with the default virtual host "/".
    pub fn new(host: String, port: u16, username: String, password: String) -> (c: Self)
        ensures
            c.host == host,
            c.port == port,
            c.username == username,
            c.password == password,
            c.virtual_host@ == "/"@,
    {
        ConnectionConfig { host, port, username, password, virtual_host: String::from_str("/") }
    }

    /// The same parameters scoped to another virtual host.
    pub fn with_virtual_host(self, virtual_host: String) -> (c: Self)
        ensures
            c.host == self.host,
            c.port == self.port,
            c.username == self.username,
            c.password == self.password,
            c.virtual_host == virtual_host,
    {
        ConnectionConfig { virtual_host, ..self }
    }

    /// A field-for-field copy, for roles that keep one set of parameters per
    /// task.
    pub fn duplicate(&self) -> (c: Self)
        ensures
            c == *self,
    {
        ConnectionConfig {
            host: self.host.clone(),
            port: self.port,
            username: self.username.clone(),
            password: self.password.clone(),
            virtual_host: self.virtual_host.clone(),
        }
    }
}

} // verus!
