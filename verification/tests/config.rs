use std::path::PathBuf;

use chronicle::config::{default_hosts, AuthMechanism, Credential, DriverInfo, ServerAddress, TlsOptions};

#[test]
fn default_server_address() {
    assert_eq!(
        ServerAddress::default(),
        ServerAddress::Tcp { host: "localhost".to_string(), port: Some(27017) }
    );
    assert_eq!(default_hosts(), vec![ServerAddress::default()]);
}

#[test]
fn tls_options_builders() {
    let tls = TlsOptions::default()
        .with_allow_invalid_certificates(true)
        .with_ca_file_path(PathBuf::from("/ca.pem"))
        .with_cert_key_file_path(PathBuf::from("/key.pem"));
    assert_eq!(tls.allow_invalid_certificates, Some(true));
    assert_eq!(tls.ca_file_path, Some(PathBuf::from("/ca.pem")));
    assert_eq!(tls.cert_key_file_path, Some(PathBuf::from("/key.pem")));
    let tls = tls.with_allow_invalid_certificates(false);
    assert_eq!(tls.allow_invalid_certificates, Some(false));
    assert_eq!(tls.ca_file_path, Some(PathBuf::from("/ca.pem")));
}

#[test]
fn driver_info_builders() {
    let info = DriverInfo::named("chronicle".to_string());
    assert_eq!(info.version, None);
    assert_eq!(info.platform, None);
    let info = info.with_version("1.0".to_string()).with_platform("linux".to_string());
    assert_eq!(info.name, "chronicle");
    assert_eq!(info.version.as_deref(), Some("1.0"));
    assert_eq!(info.platform.as_deref(), Some("linux"));
}

#[test]
fn credential_builders() {
    let c = Credential::default()
        .with_username("root".to_string())
        .with_password("pass".to_string())
        .with_source("admin".to_string())
        .with_mechanism(AuthMechanism::ScramSha256);
    assert_eq!(c.username.as_deref(), Some("root"));
    assert_eq!(c.password.as_deref(), Some("pass"));
    assert_eq!(c.source.as_deref(), Some("admin"));
    assert_eq!(c.mechanism, Some(AuthMechanism::ScramSha256));
    assert_eq!(c.mechanism_properties, None);
}
