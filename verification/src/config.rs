//! The database connection settings, as plain values: where the servers
//! are, how to reach them and who connects.

use std::path::PathBuf;
use vstd::prelude::*;

verus! {

/// The file system path type of std, carried through as it is.
#[verifier::external_type_specification]
#[verifier::external_body]
pub struct ExPathBuf(PathBuf);

/// The document type of the database driver, carried through as it is.
#[verifier::external_type_specification]
#[verifier::external_body]
pub struct ExDocument(mongodb::bson::Document);

/// The address of a database server.
#[derive(Clone, Debug, PartialEq, Eq)]
pub enum ServerAddress {
    /// A TCP/IP host and port combination.
    Tcp {
        /// The hostname or IP address where the server can be found.
        host: String,
        /// The TCP port that the server is listening on; the driver's
        /// default is used when there is none.
        port: Option<u16>,
    },
}

/// The port a database server listens on by default.
pub const DEFAULT_PORT: u16 = 27017;

impl Default for ServerAddress {
    fn default() -> (r: Self)
        ensures
            r matches ServerAddress::Tcp { host, port } && host@ == "localhost"@ && port == Some(DEFAULT_PORT),
    {
        let host = "localhost".to_string();
        proof {
            vstd::string::to_string_from_display_ensures_for_str("localhost", host);
        }
        ServerAddress::Tcp { host, port: Some(DEFAULT_PORT) }
    }
}

/// The servers to connect to when none are configured: the default address alone.
pub fn default_hosts() -> (r: Vec<ServerAddress>)
    ensures
        r@.len() == 1,
        r@[0] matches ServerAddress::Tcp { host, port } && host@ == "localhost"@ && port == Some(DEFAULT_PORT),
{
    let mut hosts = Vec::new();
    hosts.push(ServerAddress::default());
    hosts
}

/// A compressor of the messages between client and server.
#[derive(Clone, Copy, Debug, PartialEq, Eq)]
pub enum Compressor {
    /// Zstd compression, at a level from 1 to 22.
    Zstd { level: Option<i32> },
    /// Zlib compression, at a level from -1 to 9.
    Zlib { level: Option<i32> },
    /// Snappy compression.
    Snappy,
}

/// Whether and how connections are secured by TLS.
#[derive(Clone, Debug, PartialEq)]
pub enum Tls {
    /// TLS is used, with these options.
    Enabled(TlsOptions),
    /// TLS is not used.
    Disabled,
}

/// The options of a TLS connection.
#[derive(Clone, Debug, Default, PartialEq)]
pub struct TlsOptions {
    /// Whether invalid certificates are accepted.
    pub allow_invalid_certificates: Option<bool>,
    /// The certificate authority file.
    pub ca_file_path: Option<PathBuf>,
    /// The client certificate and key file.
    pub cert_key_file_path: Option<PathBuf>,
}

impl TlsOptions {
    /// The options with invalid certificates accepted or not.
    pub fn with_allow_invalid_certificates(self, allow_invalid_certificates: bool) -> (r: Self)
        ensures
            r.allow_invalid_certificates == Some(allow_invalid_certificates),
            r.ca_file_path == self.ca_file_path,
            r.cert_key_file_path == self.cert_key_file_path,
    {
        let mut r = self;
        r.allow_invalid_certificates = Some(allow_invalid_certificates);
        r
    }

    /// The options with a certificate authority file.
    pub fn with_ca_file_path(self, ca_file_path: PathBuf) -> (r: Self)
        ensures
            r.allow_invalid_certificates == self.allow_invalid_certificates,
            r.ca_file_path == Some(ca_file_path),
            r.cert_key_file_path == self.cert_key_file_path,
    {
        let mut r = self;
        r.ca_file_path = Some(ca_file_path);
        r
    }

    /// The options with a client certificate and key file.
    pub fn with_cert_key_file_path(self, cert_key_file_path: PathBuf) -> (r: Self)
        ensures
            r.allow_invalid_certificates == self.allow_invalid_certificates,
            r.ca_file_path == self.ca_file_path,
            r.cert_key_file_path == Some(cert_key_file_path),
    {
        let mut r = self;
        r.cert_key_file_path = Some(cert_key_file_path);
        r
    }
}

/// What a library that wraps the driver adds to the handshake with the server.
#[derive(Clone, Debug, PartialEq, Eq)]
pub struct DriverInfo {
    /// The name of the library.
    pub name: String,
    /// The version of the library.
    pub version: Option<String>,
    /// The platform the library runs on.
    pub platform: Option<String>,
}

impl DriverInfo {
    /// The information of a library with this name, and no version or platform.
    pub fn named(name: String) -> (r: Self)
        ensures
            r.name == name,
            r.version is None,
            r.platform is None,
    {
        DriverInfo { name, version: None, platform: None }
    }

    /// The information with a version.
    pub fn with_version(self, version: String) -> (r: Self)
        ensures
            r.name == self.name,
            r.version == Some(version),
            r.platform == self.platform,
    {
        let mut r = self;
        r.version = Some(version);
        r
    }

    /// The information with a platform.
    pub fn with_platform(self, platform: String) -> (r: Self)
        ensures
            r.name == self.name,
            r.version == self.version,
            r.platform == Some(platform),
    {
        let mut r = self;
        r.platform = Some(platform);
        r
    }
}

/// How a client authenticates.
#[derive(Clone, Copy, Debug, PartialEq, Eq, Structural)]
pub enum AuthMechanism {
    /// MONGODB-CR, removed from the server in 4.0.
    MongoDbCr,
    /// SCRAM-SHA-1.
    ScramSha1,
    /// SCRAM-SHA-256.
    ScramSha256,
    /// MONGODB-X509.
    MongoDbX509,
    /// Kerberos.
    Gssapi,
    /// LDAP.
    Plain,
    /// AWS credentials.
    MongoDbAws,
}

/// The credential of a client.
#[derive(Clone, Debug, Default, PartialEq)]
pub struct Credential {
    /// The user name.
    pub username: Option<String>,
    /// The database the user is defined in.
    pub source: Option<String>,
    /// The password.
    pub password: Option<String>,
    /// How the client authenticates.
    pub mechanism: Option<AuthMechanism>,
    /// Properties of the mechanism.
    pub mechanism_properties: Option<mongodb::bson::Document>,
}

impl Credential {
    /// The credential with a user name.
    pub fn with_username(self, username: String) -> (r: Self)
        ensures
            r == (Credential { username: Some(username), ..self }),
    {
        let mut r = self;
        r.username = Some(username);
        r
    }

    /// The credential with the database the user is defined in.
    pub fn with_source(self, source: String) -> (r: Self)
        ensures
            r == (Credential { source: Some(source), ..self }),
    {
        let mut r = self;
        r.source = Some(source);
        r
    }

    /// The credential with a password.
    pub fn with_password(self, password: String) -> (r: Self)
        ensures
            r == (Credential { password: Some(password), ..self }),
    {
        let mut r = self;
        r.password = Some(password);
        r
    }

    /// The credential with an authentication mechanism.
    pub fn with_mechanism(self, mechanism: AuthMechanism) -> (r: Self)
        ensures
            r == (Credential { mechanism: Some(mechanism), ..self }),
    {
        let mut r = self;
        r.mechanism = Some(mechanism);
        r
    }

    /// The credential with properties of its mechanism.
    pub fn with_mechanism_properties(self, properties: mongodb::bson::Document) -> (r: Self)
        ensures
            r == (Credential { mechanism_properties: Some(properties), ..self }),
    {
        let mut r = self;
        r.mechanism_properties = Some(properties);
        r
    }
}

} // verus!
