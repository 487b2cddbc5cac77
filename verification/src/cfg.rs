//! Partial configuration, as it is read from a file, the environment or
//! the command line, and how the parts are merged.

use vstd::prelude::*;

verus! {

/// Default HTTP port to bind to if none given.
pub const DEFAULT_HTTP_PORT: u32 = 10080;

/// Default Websocket port to bind to if none given.
pub const DEFAULT_WS_PORT: u32 = 10081;

/// Default ip address to bind.
pub const DEFAULT_BIND_ADDR: &'static str = "127.0.0.1";

/// Config file base name.
pub const CONFIG_FILE_NAME: &'static str = "wsss_conf.toml";

/// Env variable name for specifying a config file.
pub const CONF_FILE_ENV_KEY: &'static str = "WSSS_CONF_FILE";

/// Env variable name for specifying address to bind.
pub const BIND_ADDRESS_ENV_KEY: &'static str = "WSSS_BIND_ADDRESS";

/// Env variable name for specifying HTTP port.
pub const HTTP_PORT_ENV_KEY: &'static str = "WSSS_HTTP_PORT";

/// Env variable name for specifying WS port.
pub const WS_PORT_ENV_KEY: &'static str = "WSSS_WS_PORT";

/// This struct models partially specified configuration, leaving unset
/// values as None.
#[derive(Clone, Debug, PartialEq)]
pub struct TomlWsssConfig {
    pub http_port: Option<u32>,
    pub ws_port: Option<u32>,
    pub bind_address: Option<String>,
}

/// The first of two optional values that is set.
pub open spec fn merged_options<T>(o1: Option<T>, o2: Option<T>) -> Option<T> {
    match o1 {
        Some(v1) => Some(v1),
        None => o2,
    }
}

/// Merge o2 into o1: the value of o2 counts only where o1 has none.
pub fn merge_options<T>(o1: Option<T>, o2: Option<T>) -> (merged: Option<T>)
    ensures
        merged == merged_options(o1, o2),
{
    match (o1, o2) {
        (None, Some(v2)) => Some(v2),
        (None, None) => None,
        (Some(v1), _) => Some(v1),
    }
}

impl Default for TomlWsssConfig {
    /// A configuration in which nothing is set.
    fn default() -> (cfg: TomlWsssConfig)
        ensures
            cfg.http_port is None,
            cfg.ws_port is None,
            cfg.bind_address is None,
    {
        TomlWsssConfig { http_port: None, ws_port: None, bind_address: None }
    }
}

impl TomlWsssConfig {
    /// The configuration in which each value is that of `self` where it is
    /// set, else that of `other`.
    pub open spec fn merged(self, other: TomlWsssConfig) -> TomlWsssConfig {
        TomlWsssConfig {
            http_port: merged_options(self.http_port, other.http_port),
            ws_port: merged_options(self.ws_port, other.ws_port),
            bind_address: merged_options(self.bind_address, other.bind_address),
        }
    }

    /// Merge two partial configurations: the values of `self` win.
    pub fn merge_with(self, other: TomlWsssConfig) -> (cfg: TomlWsssConfig)
        ensures
            cfg == self.merged(other),
    {
        TomlWsssConfig {
            http_port: merge_options(self.http_port, other.http_port),
            ws_port: merge_options(self.ws_port, other.ws_port),
            bind_address: merge_options(self.bind_address, other.bind_address),
        }
    }

    /// Merge partial configuration read from different sources: the values
    /// of `self` win over those of what `other` converts to.
    pub fn merge<T: Into<TomlWsssConfig>>(self, other: T) -> (cfg: TomlWsssConfig)
        ensures
            exists|o: TomlWsssConfig|
                call_ensures(T::into, (other,), o) && cfg == #[trigger] self.merged(o),
    {
        let o = other.into();
        self.merge_with(o)
    }

    /// The HTTP port: the one set, else the default.
    pub fn http_port_or_default(&self) -> (port: u32)
        ensures
            port == match self.http_port {
                Some(p) => p,
                None => DEFAULT_HTTP_PORT,
            },
    {
        match self.http_port {
            Some(p) => p,
            None => DEFAULT_HTTP_PORT,
        }
    }

    /// The websocket port: the one set, else the default.
    pub fn ws_port_or_default(&self) -> (port: u32)
        ensures
            port == match self.ws_port {
                Some(p) => p,
                None => DEFAULT_WS_PORT,
            },
    {
        match self.ws_port {
            Some(p) => p,
            None => DEFAULT_WS_PORT,
        }
    }

    /// The address to bind, as text: the one set, else the default.
    pub fn bind_address_or_default(&self) -> (address: String)
        ensures
            address@ == match self.bind_address {
                Some(a) => a@,
                None => DEFAULT_BIND_ADDR@,
            },
    {
        match &self.bind_address {
            Some(a) => a.clone(),
            None => DEFAULT_BIND_ADDR.to_owned(),
        }
    }
}

} // verus!
