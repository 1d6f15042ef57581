//! fileport: the verified core of a file-transfer client.
//!
//! Path handling, listing and protocol parsers, checksummed transfer
//! bookkeeping, connection and profile registries — the logic behind the
//! SFTP, SCP, rsync, FTPS, WebDAV, SMB and object-store backends. The
//! network and file-system plumbing around it lives in the application.

pub mod backend;
pub mod engine;
pub mod error;
pub mod ftp;
pub mod listing;
pub mod local;
pub mod objstore;
pub mod profiles;
pub mod rpath;
pub mod rsync;
pub mod scp;
pub mod sftp;
pub mod smb;
pub mod ssh;
pub mod text;
pub mod transfer;
pub mod transfers;
pub mod webdav;

pub use backend::{Entry, EntryKind};
pub use engine::{Engine, LOCAL_CONN};
pub use error::FpError;
pub use ftp::{FtpConfig, FtpSecurity};
pub use local::LocalBackend;
pub use objstore::{AzureConfig, GcsConfig, S3Config};
pub use profiles::{ConnectResult, Profile, Protocol};
pub use rpath::{file_name, join, parent};
pub use smb::SmbConfig;
pub use ssh::{SshAuth, SshConfig};
pub use transfer::{CopyProgress, TransferResult};
pub use transfers::{Direction, Transfers};
pub use webdav::WebdavConfig;
