use fileshare_core::{
    AppConfig, ConfigError, CorsConfig, DatabaseConfig, MonitoringConfig, RateLimitConfig, ServerConfig,
    StorageConfig, SyncOptions, TlsConfig,
};
use fileshare_core::CryptoConfig;

fn app() -> AppConfig {
    AppConfig {
        server: ServerConfig::default(),
        database: DatabaseConfig::default(),
        storage: StorageConfig::default(),
        monitoring: MonitoringConfig { enabled: true, metrics_port: 9090, log_level: "info".to_string() },
    }
}

#[test]
fn defaults_validate() {
    assert!(app().validate().is_ok());
    let server = ServerConfig::default();
    assert_eq!(server.host, "127.0.0.1");
    assert_eq!(server.port, 8080);
    assert_eq!(server.cors.allowed_methods.len(), 12);
    assert_eq!(server.cors.max_age, Some(3600));
    assert_eq!(RateLimitConfig::default().requests_per_minute, 1000);
    assert_eq!(CorsConfig::default().allowed_headers[0], "authorization");
    assert_eq!(StorageConfig::default().max_file_size, 100 * 1024 * 1024);
    assert_eq!(CryptoConfig::default().encryption_algorithm, "AES-256-GCM");
    assert_eq!(SyncOptions::default().chunk_size, 1024 * 1024);
}

#[test]
fn server_problems_are_reported_in_order() {
    let mut s = ServerConfig::default();
    s.host = String::new();
    s.port = 0;
    assert_eq!(s.validate(), Err(ConfigError::InvalidValue("Host cannot be empty".to_string())));
    s.host = "h".to_string();
    assert_eq!(s.validate(), Err(ConfigError::InvalidValue("Port must be greater than 0".to_string())));
    s.port = 1;
    s.max_connections = 0;
    assert_eq!(s.validate(), Err(ConfigError::InvalidValue("Max connections must be greater than 0".to_string())));
    s.max_connections = 1;
    s.tls = Some(TlsConfig { cert_file: String::new(), key_file: "k".to_string(), ca_file: None });
    assert_eq!(s.validate(), Err(ConfigError::InvalidValue("TLS cert file cannot be empty".to_string())));
    s.tls = Some(TlsConfig { cert_file: "c".to_string(), key_file: String::new(), ca_file: None });
    assert_eq!(s.validate(), Err(ConfigError::InvalidValue("TLS key file cannot be empty".to_string())));
}

#[test]
fn section_problems_surface_through_app_validation() {
    let mut a = app();
    a.database.url = String::new();
    assert_eq!(a.validate(), Err(ConfigError::MissingRequired("database.url".to_string())));
    let mut b = app();
    b.storage.max_file_size = 0;
    assert_eq!(b.validate(), Err(ConfigError::InvalidValue("max_file_size must be greater than 0".to_string())));
    let mut c = app();
    c.monitoring.metrics_port = 0;
    assert_eq!(c.validate(), Err(ConfigError::InvalidValue("metrics_port must be greater than 0".to_string())));
}
