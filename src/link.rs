use vstd::prelude::*;
use vstd::utf8::encode_utf8;

verus! {

/// How a Meshtastic device is reached.
#[derive(Clone, Debug, PartialEq, Eq)]
pub enum MeshtasticConnectionType {
    /// Serial/USB device path (e.g. /dev/ttyUSB0, COM3)
    Serial(String),
    /// Bluetooth device address
    Bluetooth(String),
    /// TCP, to the host and port of the connection configuration
    Tcp,
}

/// Meshtastic-specific configuration.
#[derive(Clone, Debug)]
pub struct MeshtasticConfig {
    pub connection_type: MeshtasticConnectionType,
    /// Node for direct messages; broadcast when `None`
    pub node_id: Option<u32>,
    /// Device name, for display
    pub device_name: Option<String>,
}

/// Protocol of a TAK server connection.
#[derive(Clone, Copy, Debug, PartialEq, Eq, Structural)]
pub enum Protocol {
    Tcp,
    Udp,
    Tls,
    WebSocket,
    Meshtastic,
}

/// Names a protocol is known by, in lower case.
pub open spec fn protocol_named(l: Seq<char>) -> Protocol {
    if l == "udp"@ {
        Protocol::Udp
    } else if l == "tls"@ || l == "ssl"@ {
        Protocol::Tls
    } else if l == "ws"@ || l == "websocket"@ {
        Protocol::WebSocket
    } else if l == "meshtastic"@ || l == "mesh"@ {
        Protocol::Meshtastic
    } else {
        Protocol::Tcp
    }
}

/// What `str::to_lowercase` returns for a text.
pub uninterp spec fn lower_of(s: Seq<char>) -> Seq<char>;

/// Relies on `str::to_lowercase`: the result depends on the characters alone.
#[verifier::external_body]
fn lowercase(s: &str) -> (r: String)
    ensures
        r@ == lower_of(s@),
{
    s.to_lowercase()
}

/// Whether two texts are equal.
pub fn same_text(a: &str, b: &str) -> (r: bool)
    ensures
        r == (a@ == b@),
{
    let x = a.as_bytes();
    let y = b.as_bytes();
    proof {
        vstd::utf8::encode_utf8_decode_utf8(a@);
        vstd::utf8::encode_utf8_decode_utf8(b@);
    }
    assert(x@ == encode_utf8(a@));
    assert(y@ == encode_utf8(b@));
    if x.len() != y.len() {
        return false;
    }
    let mut i: usize = 0;
    while i < x.len()
        invariant
            x@ == encode_utf8(a@),
            y@ == encode_utf8(b@),
            x@.len() == y@.len(),
            i <= x@.len(),
            forall|j: int| 0 <= j < i ==> x@[j] == y@[j],
        decreases x@.len() - i,
    {
        if x[i] != y[i] {
            assert(x@ != y@);
            return false;
        }
        i = i + 1;
    }
    assert(x@ =~= y@);
    true
}

impl Protocol {
    /// The protocol that an already lower-cased name stands for; TCP for any
    /// name it does not know.
    pub fn from_lower(l: &str) -> (r: Protocol)
        ensures
            r == protocol_named(l@),
    {
        if same_text(l, "udp") {
            Protocol::Udp
        } else if same_text(l, "tls") || same_text(l, "ssl") {
            Protocol::Tls
        } else if same_text(l, "ws") || same_text(l, "websocket") {
            Protocol::WebSocket
        } else if same_text(l, "meshtastic") || same_text(l, "mesh") {
            Protocol::Meshtastic
        } else {
            Protocol::Tcp
        }
    }

    /// The protocol that a name stands for, in any letter case.
    pub fn from_name(s: &str) -> (r: Protocol)
        ensures
            r == protocol_named(lower_of(s@)),
    {
        let l = lowercase(s);
        Protocol::from_lower(l.as_str())
    }

    /// The protocol's short name.
    pub fn to_string(&self) -> (r: String)
        ensures
            r@ == (match self {
                Protocol::Tcp => "tcp"@,
                Protocol::Udp => "udp"@,
                Protocol::Tls => "tls"@,
                Protocol::WebSocket => "ws"@,
                Protocol::Meshtastic => "meshtastic"@,
            }),
    {
        match self {
            Protocol::Tcp => "tcp".to_owned(),
            Protocol::Udp => "udp".to_owned(),
            Protocol::Tls => "tls".to_owned(),
            Protocol::WebSocket => "ws".to_owned(),
            Protocol::Meshtastic => "meshtastic".to_owned(),
        }
    }
}

impl<'a> From<&'a str> for Protocol {
    fn from(s: &'a str) -> (r: Protocol) {
        Protocol::from_name(s)
    }
}

impl<'a> vstd::std_specs::convert::FromSpecImpl<&'a str> for Protocol {
    open spec fn obeys_from_spec() -> bool {
        true
    }

    open spec fn from_spec(s: &'a str) -> Protocol {
        protocol_named(lower_of(s@))
    }
}

/// Configuration of a connection to a TAK server or a mesh device.
#[derive(Clone, Debug)]
pub struct ConnectionConfig {
    pub host: String,
    pub port: u16,
    pub protocol: Protocol,
    pub use_tls: bool,
    /// Client certificate PEM
    pub cert_pem: Option<String>,
    /// Client private key PEM
    pub key_pem: Option<String>,
    /// CA certificate PEM
    pub ca_pem: Option<String>,
    /// Meshtastic settings, when the protocol is Meshtastic
    pub meshtastic_config: Option<MeshtasticConfig>,
}

impl ConnectionConfig {
    /// A plain connection to `host:port`.
    pub fn new(host: &str, port: u16, protocol: Protocol) -> (r: ConnectionConfig)
        ensures
            r.host@ == host@,
            r.port == port,
            r.protocol == protocol,
            !r.use_tls,
            r.cert_pem is None,
            r.key_pem is None,
            r.ca_pem is None,
            r.meshtastic_config is None,
    {
        ConnectionConfig {
            host: host.to_owned(),
            port,
            protocol,
            use_tls: false,
            cert_pem: None,
            key_pem: None,
            ca_pem: None,
            meshtastic_config: None,
        }
    }

    /// A connection to a Meshtastic device.
    pub fn new_meshtastic(meshtastic_config: MeshtasticConfig) -> (r: ConnectionConfig)
        ensures
            r.host@ == Seq::<char>::empty(),
            r.port == 0,
            r.protocol == Protocol::Meshtastic,
            !r.use_tls,
            r.cert_pem is None,
            r.key_pem is None,
            r.ca_pem is None,
            r.meshtastic_config == Some(meshtastic_config),
    {
        ConnectionConfig {
            host: String::new(),
            port: 0,
            protocol: Protocol::Meshtastic,
            use_tls: false,
            cert_pem: None,
            key_pem: None,
            ca_pem: None,
            meshtastic_config: Some(meshtastic_config),
        }
    }

    /// The same configuration with TLS on and the given certificates.
    pub fn with_tls(self, cert_pem: Option<String>, key_pem: Option<String>, ca_pem: Option<String>) -> (r: ConnectionConfig)
        ensures
            r.use_tls,
            r.cert_pem == cert_pem,
            r.key_pem == key_pem,
            r.ca_pem == ca_pem,
            r.host == self.host,
            r.port == self.port,
            r.protocol == self.protocol,
            r.meshtastic_config == self.meshtastic_config,
    {
        let mut c = self;
        c.use_tls = true;
        c.cert_pem = cert_pem;
        c.key_pem = key_pem;
        c.ca_pem = ca_pem;
        c
    }
}

/// State of a link.
#[derive(Clone, Copy, Debug, PartialEq, Eq, Structural)]
pub enum ConnectionState {
    Disconnected,
    Connecting,
    Connected,
    Failed,
}

/// What happens to a link.
#[derive(Clone, Copy, Debug, PartialEq, Eq, Structural)]
pub enum LinkEvent {
    /// Opening the device or socket began
    Open,
    /// The device or socket is open
    Opened,
    /// A fatal I/O error
    IoError,
    /// The peer closed, or a disconnect was asked for
    Closed,
}

/// The link's next state: `Disconnected` opens into `Connecting`, which
/// becomes `Connected`, or `Failed` on an I/O error; a connected link ends
/// `Disconnected` when closed and `Failed` on an I/O error. `Failed` is final;
/// any other event leaves the state as it is.
pub open spec fn link_next(s: ConnectionState, e: LinkEvent) -> ConnectionState {
    match (s, e) {
        (ConnectionState::Disconnected, LinkEvent::Open) => ConnectionState::Connecting,
        (ConnectionState::Connecting, LinkEvent::Opened) => ConnectionState::Connected,
        (ConnectionState::Connecting, LinkEvent::IoError) => ConnectionState::Failed,
        (ConnectionState::Connected, LinkEvent::IoError) => ConnectionState::Failed,
        (ConnectionState::Connected, LinkEvent::Closed) => ConnectionState::Disconnected,
        _ => s,
    }
}

impl ConnectionState {
    /// The state after `e` (see `link_next`).
    pub fn next(self, e: LinkEvent) -> (r: ConnectionState)
        ensures
            r == link_next(self, e),
    {
        match (self, e) {
            (ConnectionState::Disconnected, LinkEvent::Open) => ConnectionState::Connecting,
            (ConnectionState::Connecting, LinkEvent::Opened) => ConnectionState::Connected,
            (ConnectionState::Connecting, LinkEvent::IoError) => ConnectionState::Failed,
            (ConnectionState::Connected, LinkEvent::IoError) => ConnectionState::Failed,
            (ConnectionState::Connected, LinkEvent::Closed) => ConnectionState::Disconnected,
            _ => self,
        }
    }

    /// The state's name.
    pub fn to_string(&self) -> (r: String)
        ensures
            r@ == (match self {
                ConnectionState::Disconnected => "disconnected"@,
                ConnectionState::Connecting => "connecting"@,
                ConnectionState::Connected => "connected"@,
                ConnectionState::Failed => "failed"@,
            }),
    {
        match self {
            ConnectionState::Disconnected => "disconnected".to_owned(),
            ConnectionState::Connecting => "connecting".to_owned(),
            ConnectionState::Connected => "connected".to_owned(),
            ConnectionState::Failed => "failed".to_owned(),
        }
    }
}

/// Errors of a connection to a TAK server.
#[derive(Clone, Debug, PartialEq, Eq)]
pub enum ClientError {
    ConnectionFailed(String),
    SendFailed(String),
    UnsupportedProtocol(Protocol),
    TlsError(String),
    Io(String),
}

/// Certificate problems.
#[derive(Clone, Debug, PartialEq, Eq)]
pub enum CertError {
    InvalidCertPem,
    InvalidKeyPem,
    InvalidCaPem,
    NoCertsFound,
    NoKeysFound,
    TlsConfig(String),
}

/// A TLS certificate bundle.
#[derive(Clone, Debug)]
pub struct CertBundle {
    /// Client certificate PEM
    pub cert_pem: Option<String>,
    /// Client private key PEM
    pub key_pem: Option<String>,
    /// CA certificate PEM
    pub ca_pem: Option<String>,
}

impl CertBundle {
    pub fn new(cert_pem: Option<String>, key_pem: Option<String>, ca_pem: Option<String>) -> (r: CertBundle)
        ensures
            r.cert_pem == cert_pem,
            r.key_pem == key_pem,
            r.ca_pem == ca_pem,
    {
        CertBundle { cert_pem, key_pem, ca_pem }
    }

    /// The bundle holds both a client certificate and its key.
    pub fn has_client_cert(&self) -> (r: bool)
        ensures
            r == (self.cert_pem is Some && self.key_pem is Some),
    {
        self.cert_pem.is_some() && self.key_pem.is_some()
    }

    /// The bundle holds a CA certificate.
    pub fn has_ca(&self) -> (r: bool)
        ensures
            r == self.ca_pem is Some,
    {
        self.ca_pem.is_some()
    }
}

/// Errors reported across the mobile interface.
#[derive(Clone, Debug, PartialEq, Eq)]
pub enum MobileError {
    NotInitialized,
    ConnectionNotFound(u64),
    InvalidParameter(String),
    ConnectionError(String),
    IoError(String),
    SerializationError(String),
    RuntimeError(String),
}

impl MobileError {
    /// The error's code for C callers: -1 to -7 in declaration order.
    pub fn to_error_code(&self) -> (r: i32)
        ensures
            r == (match self {
                MobileError::NotInitialized => -1i32,
                MobileError::ConnectionNotFound(_) => -2i32,
                MobileError::InvalidParameter(_) => -3i32,
                MobileError::ConnectionError(_) => -4i32,
                MobileError::IoError(_) => -5i32,
                MobileError::SerializationError(_) => -6i32,
                MobileError::RuntimeError(_) => -7i32,
            }),
    {
        match self {
            MobileError::NotInitialized => -1,
            MobileError::ConnectionNotFound(_) => -2,
            MobileError::InvalidParameter(_) => -3,
            MobileError::ConnectionError(_) => -4,
            MobileError::IoError(_) => -5,
            MobileError::SerializationError(_) => -6,
            MobileError::RuntimeError(_) => -7,
        }
    }
}

} // verus!
