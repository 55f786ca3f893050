//! Synchronization and security core of a multi-device file-sharing service:
//! content hashing, block-level deltas, authenticated encryption, key
//! derivation and password handling.
use vstd::prelude::*;

pub mod api_error;
pub mod config;
pub mod delta;
pub mod encryption;
pub mod engine;
pub mod hashing;
pub mod key_derivation;
pub mod password;
pub mod sync;
pub mod text;
mod random;
mod wipe;

pub use api_error::ApiError;
pub use config::{
    AppConfig, ConfigError, CorsConfig, DatabaseConfig, MonitoringConfig, RateLimitConfig, ServerConfig,
    StorageConfig, TlsConfig,
};
pub use delta::{
    ByteChange, DeltaApplier, DeltaGenerator, DeltaOperation, FileDelta, SmallFileDelta,
};
pub use encryption::{CryptoError, EncryptedData, EncryptionKey, FileEncryption};
pub use engine::{hash_file, hash_password, CryptoConfig, CryptoEngine};
pub use hashing::{to_hex, BlockHash, FileHasher, Match, RollingHasher};
pub use key_derivation::{KeyDerivation, KeyDerivationFactory, KeyPurpose, SecureKey};
pub use password::{PasswordError, PasswordManager, PasswordStrength, PasswordStrengthLevel, SecureString};
pub use sync::{ConflictResolutionMode, SyncDelta, SyncEngine, SyncError, SyncOptions, SyncState};

verus! {

} // verus!
