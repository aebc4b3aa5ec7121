pub mod config;
pub mod db;
pub mod error;
pub mod grants;
pub mod laws;
pub mod manager;
pub mod order;
pub mod sync;
pub mod validator;

pub use config::CommandConfig;
pub use config::Config;
pub use db::Database;
pub use error::PermissionError;
pub use grants::AuditAction;
pub use grants::AuditLogEntry;
pub use grants::PermissionGrant;
pub use manager::PermissionManager;
pub use validator::LookupAnswer;
