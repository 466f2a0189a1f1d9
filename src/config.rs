use vstd::prelude::*;

verus! {

/// Errors of the relay server.
#[derive(Clone, Debug, PartialEq, Eq)]
pub enum ServerError {
    /// A socket operation failed.
    Io(String),
    /// A TLS handshake failed.
    Tls(String),
    /// A client connection failed.
    Client(String),
    /// A CoT event could not be read.
    CotParse(String),
    /// The configuration cannot start a server.
    Config(String),
    /// The Marti API failed.
    Marti(String),
    /// A certificate could not be used.
    Certificate(String),
    /// The peer closed the connection or went idle.
    ConnectionClosed,
    /// The server is not running.
    NotRunning,
    /// Any other failure.
    Other(String),
}

/// TLS configuration of the server.
#[derive(Clone, Debug)]
pub struct TlsConfig {
    /// Path to the server certificate PEM file
    pub cert_path: String,
    /// Path to the server private key PEM file
    pub key_path: String,
    /// Path to the CA certificate PEM file (for client certificate checks)
    pub ca_path: Option<String>,
    /// Require client certificates
    pub require_client_cert: bool,
}

/// Configuration of the relay server.
#[derive(Clone, Debug)]
pub struct ServerConfig {
    /// Address to bind, as text
    pub bind_address: String,
    /// TCP port (0 to disable)
    pub tcp_port: u16,
    /// TLS port (0 to disable)
    pub tls_port: u16,
    /// Marti API port (0 to disable)
    pub marti_port: u16,
    /// TLS configuration
    pub tls: Option<TlsConfig>,
    /// Log every CoT message
    pub debug: bool,
    /// Maximum number of clients
    pub max_clients: usize,
    /// Idle timeout of a client in seconds
    pub client_timeout_secs: u64,
    /// Data package storage directory
    pub data_package_dir: Option<String>,
}

/// Default TCP port of the relay.
pub fn default_tcp_port() -> (r: u16)
    ensures
        r == 8087,
{
    8087
}

/// Default TLS port of the relay.
pub const DEFAULT_TLS_PORT: u16 = 8089;

/// Default Marti API port.
pub const DEFAULT_MARTI_PORT: u16 = 8443;

/// Debug logging is on by default.
pub fn default_debug() -> (r: bool)
    ensures
        r,
{
    true
}

/// Default maximum number of clients.
pub fn default_max_clients() -> (r: usize)
    ensures
        r == 1000,
{
    1000
}

/// Default idle timeout of a client, in seconds.
pub fn default_client_timeout() -> (r: u64)
    ensures
        r == 300,
{
    300
}

/// Default address to bind: every IPv4 interface.
pub fn default_bind_address() -> (r: String)
    ensures
        r@ == "0.0.0.0"@,
{
    "0.0.0.0".to_owned()
}

/// The configuration can start a server: a port is open, TLS has its
/// configuration, and at least one client is admitted.
pub open spec fn config_valid(c: &ServerConfig) -> bool {
    &&& !(c.tcp_port == 0 && c.tls_port == 0)
    &&& !(c.tls_port > 0 && c.tls is None)
    &&& c.max_clients != 0
}

impl Default for ServerConfig {
    fn default() -> (r: ServerConfig)
        ensures
            r.bind_address@ == "0.0.0.0"@,
            r.tcp_port == 8087,
            r.tls_port == 0,
            r.marti_port == 0,
            r.tls is None,
            r.debug,
            r.max_clients == 1000,
            r.client_timeout_secs == 300,
            r.data_package_dir is None,
    {
        ServerConfig {
            bind_address: default_bind_address(),
            tcp_port: default_tcp_port(),
            tls_port: 0,
            marti_port: 0,
            tls: None,
            debug: default_debug(),
            max_clients: default_max_clients(),
            client_timeout_secs: default_client_timeout(),
            data_package_dir: None,
        }
    }
}

impl ServerConfig {
    /// TCP on port 8087 with debug logging, other settings by default.
    pub fn debug() -> (r: ServerConfig)
        ensures
            r.bind_address@ == "0.0.0.0"@,
            r.tcp_port == 8087,
            r.tls_port == 0,
            r.marti_port == 0,
            r.tls is None,
            r.debug,
            r.max_clients == 1000,
            r.client_timeout_secs == 300,
            r.data_package_dir is None,
    {
        ServerConfig { tcp_port: 8087, debug: true, ..ServerConfig::default() }
    }

    /// TLS on port 8089 and Marti on 8443, no plain TCP, no debug logging.
    pub fn production(tls_config: TlsConfig) -> (r: ServerConfig)
        ensures
            r.bind_address@ == "0.0.0.0"@,
            r.tcp_port == 0,
            r.tls_port == 8089,
            r.marti_port == 8443,
            r.tls is Some,
            !r.debug,
            r.max_clients == 1000,
            r.client_timeout_secs == 300,
            r.data_package_dir is None,
    {
        ServerConfig {
            tcp_port: 0,
            tls_port: DEFAULT_TLS_PORT,
            marti_port: DEFAULT_MARTI_PORT,
            tls: Some(tls_config),
            debug: false,
            ..ServerConfig::default()
        }
    }

    /// Checks that the configuration can start a server; a `Config` error
    /// otherwise.
    pub fn validate(&self) -> (r: Result<(), ServerError>)
        ensures
            config_valid(self) <==> r is Ok,
            !config_valid(self) ==> r matches Err(ServerError::Config(_)),
    {
        if self.tcp_port == 0 && self.tls_port == 0 {
            return Err(
                ServerError::Config(
                    "At least one of tcp_port or tls_port must be non-zero".to_owned(),
                ),
            );
        }
        if self.tls_port > 0 && self.tls.is_none() {
            return Err(
                ServerError::Config("TLS configuration required when tls_port is set".to_owned()),
            );
        }
        if self.max_clients == 0 {
            return Err(ServerError::Config("max_clients must be greater than 0".to_owned()));
        }
        Ok(())
    }
}

} // verus!
