//! Server configuration: sections, their defaults, and validation.
use vstd::prelude::*;
use vstd::string::StringExecFns;

use crate::text::{push_text, texts};

verus! {

/// A configuration value that the server cannot run with.
#[derive(Debug, Clone, PartialEq, Eq)]
pub enum ConfigError {
    InvalidValue(String),
    MissingRequired(String),
}

/// The error `e` is `InvalidValue` with the message `m`.
pub open spec fn is_invalid_value(e: ConfigError, m: Seq<char>) -> bool {
    e matches ConfigError::InvalidValue(s) && s@ == m
}

/// The error `e` is `MissingRequired` naming `m`.
pub open spec fn is_missing_required(e: ConfigError, m: Seq<char>) -> bool {
    e matches ConfigError::MissingRequired(s) && s@ == m
}

#[derive(Debug, Clone)]
pub struct TlsConfig {
    pub cert_file: String,
    pub key_file: String,
    pub ca_file: Option<String>,
}

#[derive(Debug, Clone)]
pub struct CorsConfig {
    pub allowed_origins: Vec<String>,
    pub allowed_methods: Vec<String>,
    pub allowed_headers: Vec<String>,
    pub expose_headers: Vec<String>,
    pub max_age: Option<usize>,
    pub allow_credentials: bool,
}

#[derive(Debug, Clone)]
pub struct RateLimitConfig {
    pub enabled: bool,
    pub requests_per_minute: u32,
    pub burst_size: u32,
    pub cleanup_interval: u64,
}

#[derive(Debug, Clone)]
pub struct ServerConfig {
    pub host: String,
    pub port: u16,
    pub workers: Option<usize>,
    pub max_connections: usize,
    pub keep_alive: u64,
    pub client_timeout: u64,
    pub client_shutdown: u64,
    pub tls: Option<TlsConfig>,
    pub cors: CorsConfig,
    pub rate_limiting: RateLimitConfig,
}

/// The first problem of a server configuration, as its message, if any.
pub open spec fn server_config_problem(c: ServerConfig) -> Option<Seq<char>> {
    if c.host@.len() == 0 {
        Some("Host cannot be empty"@)
    } else if c.port == 0 {
        Some("Port must be greater than 0"@)
    } else if c.max_connections == 0 {
        Some("Max connections must be greater than 0"@)
    } else if c.tls matches Some(t) && t.cert_file@.len() == 0 {
        Some("TLS cert file cannot be empty"@)
    } else if c.tls matches Some(t) && t.key_file@.len() == 0 {
        Some("TLS key file cannot be empty"@)
    } else {
        None
    }
}

impl ServerConfig {
    pub fn validate(&self) -> (r: Result<(), ConfigError>)
        ensures
            match server_config_problem(*self) {
                None => r is Ok,
                Some(m) => r matches Err(e) && is_invalid_value(e, m),
            },
    {
        if self.host.as_str().is_empty() {
            return Err(ConfigError::InvalidValue(String::from_str("Host cannot be empty")));
        }
        if self.port == 0 {
            return Err(ConfigError::InvalidValue(String::from_str("Port must be greater than 0")));
        }
        if self.max_connections == 0 {
            return Err(ConfigError::InvalidValue(String::from_str("Max connections must be greater than 0")));
        }
        if let Some(tls) = &self.tls {
            if tls.cert_file.as_str().is_empty() {
                return Err(ConfigError::InvalidValue(String::from_str("TLS cert file cannot be empty")));
            }
            if tls.key_file.as_str().is_empty() {
                return Err(ConfigError::InvalidValue(String::from_str("TLS key file cannot be empty")));
            }
        }
        Ok(())
    }
}

/// Origins allowed by default.
pub open spec fn default_origins() -> Seq<Seq<char>> {
    seq!["http://localhost:3000"@, "http://127.0.0.1:3000"@]
}

/// Methods allowed by default, WebDAV's included.
pub open spec fn default_methods() -> Seq<Seq<char>> {
    seq![
        "GET"@,
        "POST"@,
        "PUT"@,
        "DELETE"@,
        "OPTIONS"@,
        "PROPFIND"@,
        "PROPPATCH"@,
        "MKCOL"@,
        "COPY"@,
        "MOVE"@,
        "LOCK"@,
        "UNLOCK"@,
    ]
}

/// Request headers allowed by default.
pub open spec fn default_headers() -> Seq<Seq<char>> {
    seq![
        "authorization"@,
        "accept"@,
        "content-type"@,
        "x-requested-with"@,
        "depth"@,
        "destination"@,
        "if"@,
        "lock-token"@,
        "overwrite"@,
        "timeout"@,
    ]
}

impl Default for CorsConfig {
    fn default() -> (r: Self)
        ensures
            texts(r.allowed_origins@) == default_origins(),
            texts(r.allowed_methods@) == default_methods(),
            texts(r.allowed_headers@) == default_headers(),
            r.expose_headers@.len() == 0,
            r.max_age == Some(3600usize),
            r.allow_credentials,
    {
        let mut allowed_origins: Vec<String> = Vec::new();
        push_text(&mut allowed_origins, "http://localhost:3000");
        push_text(&mut allowed_origins, "http://127.0.0.1:3000");
        let mut allowed_methods: Vec<String> = Vec::new();
        push_text(&mut allowed_methods, "GET");
        push_text(&mut allowed_methods, "POST");
        push_text(&mut allowed_methods, "PUT");
        push_text(&mut allowed_methods, "DELETE");
        push_text(&mut allowed_methods, "OPTIONS");
        push_text(&mut allowed_methods, "PROPFIND");
        push_text(&mut allowed_methods, "PROPPATCH");
        push_text(&mut allowed_methods, "MKCOL");
        push_text(&mut allowed_methods, "COPY");
        push_text(&mut allowed_methods, "MOVE");
        push_text(&mut allowed_methods, "LOCK");
        push_text(&mut allowed_methods, "UNLOCK");
        let mut allowed_headers: Vec<String> = Vec::new();
        push_text(&mut allowed_headers, "authorization");
        push_text(&mut allowed_headers, "accept");
        push_text(&mut allowed_headers, "content-type");
        push_text(&mut allowed_headers, "x-requested-with");
        push_text(&mut allowed_headers, "depth");
        push_text(&mut allowed_headers, "destination");
        push_text(&mut allowed_headers, "if");
        push_text(&mut allowed_headers, "lock-token");
        push_text(&mut allowed_headers, "overwrite");
        push_text(&mut allowed_headers, "timeout");
        proof {
            assert(texts(Seq::<String>::empty()) =~= Seq::<Seq<char>>::empty());
            assert(texts(allowed_origins@) =~= default_origins());
            assert(texts(allowed_methods@) =~= default_methods());
            assert(texts(allowed_headers@) =~= default_headers());
        }
        CorsConfig {
            allowed_origins,
            allowed_methods,
            allowed_headers,
            expose_headers: Vec::new(),
            max_age: Some(3600),
            allow_credentials: true,
        }
    }
}

impl Default for RateLimitConfig {
    fn default() -> (r: Self)
        ensures
            r.enabled,
            r.requests_per_minute == 1000,
            r.burst_size == 100,
            r.cleanup_interval == 60,
    {
        RateLimitConfig { enabled: true, requests_per_minute: 1000, burst_size: 100, cleanup_interval: 60 }
    }
}

impl Default for ServerConfig {
    fn default() -> (r: Self)
        ensures
            r.host@ == "127.0.0.1"@,
            r.port == 8080,
            r.workers.is_none(),
            r.max_connections == 25000,
            r.keep_alive == 75,
            r.client_timeout == 5000,
            r.client_shutdown == 5000,
            r.tls.is_none(),
            texts(r.cors.allowed_origins@) == default_origins(),
            r.rate_limiting.requests_per_minute == 1000,
    {
        ServerConfig {
            host: String::from_str("127.0.0.1"),
            port: 8080,
            workers: None,
            max_connections: 25000,
            keep_alive: 75,
            client_timeout: 5000,
            client_shutdown: 5000,
            tls: None,
            cors: CorsConfig::default(),
            rate_limiting: RateLimitConfig::default(),
        }
    }
}

#[derive(Debug, Clone)]
pub struct DatabaseConfig {
    pub url: String,
    pub max_connections: u32,
    pub timeout_seconds: u64,
}

impl DatabaseConfig {
    pub fn validate(&self) -> (r: Result<(), ConfigError>)
        ensures
            self.url@.len() == 0 ==> (r matches Err(e) && is_missing_required(e, "database.url"@)),
            self.url@.len() != 0 ==> r is Ok,
    {
        if self.url.as_str().is_empty() {
            return Err(ConfigError::MissingRequired(String::from_str("database.url")));
        }
        Ok(())
    }
}

impl Default for DatabaseConfig {
    fn default() -> (r: Self)
        ensures
            r.url@ == "sqlite://./data.db"@,
            r.max_connections == 10,
            r.timeout_seconds == 30,
    {
        DatabaseConfig { url: String::from_str("sqlite://./data.db"), max_connections: 10, timeout_seconds: 30 }
    }
}

#[derive(Debug, Clone)]
pub struct StorageConfig {
    pub local_path: Option<String>,
    pub max_file_size: u64,
    pub allowed_extensions: Vec<String>,
}

/// Default size limit of one stored file: 100 MiB.
pub const DEFAULT_STORAGE_MAX_FILE_SIZE: u64 = 104857600;

impl StorageConfig {
    pub fn validate(&self) -> (r: Result<(), ConfigError>)
        ensures
            self.max_file_size == 0 ==> (r matches Err(e) && is_invalid_value(
                e,
                "max_file_size must be greater than 0"@,
            )),
            self.max_file_size != 0 ==> r is Ok,
    {
        if self.max_file_size == 0 {
            return Err(ConfigError::InvalidValue(String::from_str("max_file_size must be greater than 0")));
        }
        Ok(())
    }
}

impl Default for StorageConfig {
    fn default() -> (r: Self)
        ensures
            r.local_path matches Some(p) && p@ == "./storage"@,
            r.max_file_size == DEFAULT_STORAGE_MAX_FILE_SIZE,
            texts(r.allowed_extensions@) == seq!["txt"@, "pdf"@, "jpg"@, "png"@],
    {
        let mut allowed_extensions: Vec<String> = Vec::new();
        push_text(&mut allowed_extensions, "txt");
        push_text(&mut allowed_extensions, "pdf");
        push_text(&mut allowed_extensions, "jpg");
        push_text(&mut allowed_extensions, "png");
        proof {
            assert(texts(Seq::<String>::empty()) =~= Seq::<Seq<char>>::empty());
            assert(texts(allowed_extensions@) =~= seq!["txt"@, "pdf"@, "jpg"@, "png"@]);
        }
        StorageConfig {
            local_path: Some(String::from_str("./storage")),
            max_file_size: DEFAULT_STORAGE_MAX_FILE_SIZE,
            allowed_extensions,
        }
    }
}

#[derive(Debug, Clone)]
pub struct MonitoringConfig {
    pub enabled: bool,
    pub metrics_port: u16,
    pub log_level: String,
}

impl MonitoringConfig {
    pub fn validate(&self) -> (r: Result<(), ConfigError>)
        ensures
            self.metrics_port == 0 ==> (r matches Err(e) && is_invalid_value(
                e,
                "metrics_port must be greater than 0"@,
            )),
            self.metrics_port != 0 ==> r is Ok,
    {
        if self.metrics_port == 0 {
            return Err(ConfigError::InvalidValue(String::from_str("metrics_port must be greater than 0")));
        }
        Ok(())
    }
}

/// The whole server configuration.
#[derive(Debug, Clone)]
pub struct AppConfig {
    pub server: ServerConfig,
    pub database: DatabaseConfig,
    pub storage: StorageConfig,
    pub monitoring: MonitoringConfig,
}

impl AppConfig {
    /// Validates the sections in order and reports the first failure.
    pub fn validate(&self) -> (r: Result<(), ConfigError>)
        ensures
            r is Ok <==> (server_config_problem(self.server) is None && self.database.url@.len() != 0
                && self.storage.max_file_size != 0 && self.monitoring.metrics_port != 0),
            server_config_problem(self.server) matches Some(m) ==> (r matches Err(e) && is_invalid_value(e, m)),
            server_config_problem(self.server) is None && self.database.url@.len() == 0 ==> (r matches Err(e)
                && is_missing_required(e, "database.url"@)),
            server_config_problem(self.server) is None && self.database.url@.len() != 0
                && self.storage.max_file_size == 0 ==> (r matches Err(e) && is_invalid_value(
                e,
                "max_file_size must be greater than 0"@,
            )),
            server_config_problem(self.server) is None && self.database.url@.len() != 0
                && self.storage.max_file_size != 0 && self.monitoring.metrics_port == 0 ==> (r matches Err(e)
                && is_invalid_value(e, "metrics_port must be greater than 0"@)),
    {
        self.server.validate()?;
        self.database.validate()?;
        self.storage.validate()?;
        self.monitoring.validate()?;
        Ok(())
    }
}

} // verus!
