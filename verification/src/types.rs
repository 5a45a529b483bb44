//! Protocol constants, command codes, and the plain data carried by every
//! operation: headers, storage-server descriptors, file information, and the
//! client configuration.

use vstd::prelude::*;
use vstd::string::StringSliceAdditionalSpecFns;
use vstd::utf8::encode_utf8;

use crate::errors::FastDFSError;
use crate::protocol::{lemma_first_sep_from_scan, spec_first_sep, str_eq};

verus! {

/// A usable tracker address: non-empty and holding a `:` between host and
/// port.
pub open spec fn spec_addr_valid(b: Seq<u8>) -> bool {
    b.len() > 0 && spec_first_sep(b, 58) < b.len()
}

/// Default port of a tracker server.
pub const TRACKER_DEFAULT_PORT: u16 = 22122;

/// Default port of a storage server.
pub const STORAGE_DEFAULT_PORT: u16 = 23000;

/// Size in bytes of the wire header.
pub const FDFS_PROTO_HEADER_LEN: usize = 10;

/// Maximum length in bytes of a group name.
pub const FDFS_GROUP_NAME_MAX_LEN: usize = 16;

/// Maximum length in bytes of a file extension on the wire.
pub const FDFS_FILE_EXT_NAME_MAX_LEN: usize = 6;

/// Maximum length in bytes of a metadata key on the wire.
pub const FDFS_MAX_META_NAME_LEN: usize = 64;

/// Maximum length in bytes of a metadata value on the wire.
pub const FDFS_MAX_META_VALUE_LEN: usize = 256;

/// Maximum length in bytes of a file prefix.
pub const FDFS_FILE_PREFIX_MAX_LEN: usize = 16;

/// Maximum length in bytes of a storage id.
pub const FDFS_STORAGE_ID_MAX_SIZE: usize = 16;

/// Length in bytes of a version field.
pub const FDFS_VERSION_SIZE: usize = 8;

/// Length in bytes of a fixed-width ip address field.
pub const IP_ADDRESS_SIZE: usize = 16;

/// Separator byte between metadata records on the wire.
pub const FDFS_RECORD_SEPARATOR: u8 = 0x01;

/// Separator byte between the key and the value of one metadata record.
pub const FDFS_FIELD_SEPARATOR: u8 = 0x02;

/// Commands understood by a tracker server.
#[derive(Debug, Clone, Copy, PartialEq, Eq, Structural)]
pub enum TrackerCommand {
    /// Pick a storage server for an upload, any group.
    ServiceQueryStoreWithoutGroupOne,
    /// Locate the storage server holding one given file.
    ServiceQueryFetchOne,
    /// Locate the storage server to update one given file.
    ServiceQueryUpdate,
    /// Pick a storage server for an upload within a given group.
    ServiceQueryStoreWithGroupOne,
    /// Locate every storage server holding one given file.
    ServiceQueryFetchAll,
    /// Pick storage servers for an upload, any group, all candidates.
    ServiceQueryStoreWithoutGroupAll,
    /// Pick storage servers for an upload within a group, all candidates.
    ServiceQueryStoreWithGroupAll,
    /// List one group.
    ServerListOneGroup,
    /// List all groups.
    ServerListAllGroups,
    /// List storage servers.
    ServerListStorage,
    /// Delete a storage server.
    ServerDeleteStorage,
    /// A storage server reports a changed ip.
    StorageReportIpChanged,
    /// A storage server reports its status.
    StorageReportStatus,
    /// A storage server reports its disk usage.
    StorageReportDiskUsage,
    /// A storage server syncs a timestamp.
    StorageSyncTimestamp,
    /// A storage server sends a sync report.
    StorageSyncReport,
}

impl TrackerCommand {
    /// The command byte placed in the wire header.
    pub open spec fn spec_code(self) -> u8 {
        match self {
            TrackerCommand::ServiceQueryStoreWithoutGroupOne => 101,
            TrackerCommand::ServiceQueryFetchOne => 102,
            TrackerCommand::ServiceQueryUpdate => 103,
            TrackerCommand::ServiceQueryStoreWithGroupOne => 104,
            TrackerCommand::ServiceQueryFetchAll => 105,
            TrackerCommand::ServiceQueryStoreWithoutGroupAll => 106,
            TrackerCommand::ServiceQueryStoreWithGroupAll => 107,
            TrackerCommand::ServerListOneGroup => 90,
            TrackerCommand::ServerListAllGroups => 91,
            TrackerCommand::ServerListStorage => 92,
            TrackerCommand::ServerDeleteStorage => 93,
            TrackerCommand::StorageReportIpChanged => 94,
            TrackerCommand::StorageReportStatus => 95,
            TrackerCommand::StorageReportDiskUsage => 96,
            TrackerCommand::StorageSyncTimestamp => 97,
            TrackerCommand::StorageSyncReport => 98,
        }
    }

    /// The command byte placed in the wire header.
    #[verifier::when_used_as_spec(spec_code)]
    pub fn code(self) -> (c: u8)
        ensures
            c == self.spec_code(),
    {
        match self {
            TrackerCommand::ServiceQueryStoreWithoutGroupOne => 101,
            TrackerCommand::ServiceQueryFetchOne => 102,
            TrackerCommand::ServiceQueryUpdate => 103,
            TrackerCommand::ServiceQueryStoreWithGroupOne => 104,
            TrackerCommand::ServiceQueryFetchAll => 105,
            TrackerCommand::ServiceQueryStoreWithoutGroupAll => 106,
            TrackerCommand::ServiceQueryStoreWithGroupAll => 107,
            TrackerCommand::ServerListOneGroup => 90,
            TrackerCommand::ServerListAllGroups => 91,
            TrackerCommand::ServerListStorage => 92,
            TrackerCommand::ServerDeleteStorage => 93,
            TrackerCommand::StorageReportIpChanged => 94,
            TrackerCommand::StorageReportStatus => 95,
            TrackerCommand::StorageReportDiskUsage => 96,
            TrackerCommand::StorageSyncTimestamp => 97,
            TrackerCommand::StorageSyncReport => 98,
        }
    }
}

/// Commands understood by a storage server.
#[derive(Debug, Clone, Copy, PartialEq, Eq, Structural)]
pub enum StorageCommand {
    /// Store a new file.
    UploadFile,
    /// Delete a stored file.
    DeleteFile,
    /// Replace or merge the metadata of a stored file.
    SetMetadata,
    /// Read a stored file, whole or as a byte range.
    DownloadFile,
    /// Read the metadata of a stored file.
    GetMetadata,
    /// Store a slave file next to an existing one.
    UploadSlaveFile,
    /// Read size, creation time, checksum and source of a stored file.
    QueryFileInfo,
    /// Store a new appender file.
    UploadAppenderFile,
    /// Append to an appender file.
    AppendFile,
    /// Modify an appender file in place.
    ModifyFile,
    /// Truncate an appender file.
    TruncateFile,
}

impl StorageCommand {
    /// The command byte placed in the wire header.
    pub open spec fn spec_code(self) -> u8 {
        match self {
            StorageCommand::UploadFile => 11,
            StorageCommand::DeleteFile => 12,
            StorageCommand::SetMetadata => 13,
            StorageCommand::DownloadFile => 14,
            StorageCommand::GetMetadata => 15,
            StorageCommand::UploadSlaveFile => 21,
            StorageCommand::QueryFileInfo => 22,
            StorageCommand::UploadAppenderFile => 23,
            StorageCommand::AppendFile => 24,
            StorageCommand::ModifyFile => 34,
            StorageCommand::TruncateFile => 36,
        }
    }

    /// The command byte placed in the wire header.
    #[verifier::when_used_as_spec(spec_code)]
    pub fn code(self) -> (c: u8)
        ensures
            c == self.spec_code(),
    {
        match self {
            StorageCommand::UploadFile => 11,
            StorageCommand::DeleteFile => 12,
            StorageCommand::SetMetadata => 13,
            StorageCommand::DownloadFile => 14,
            StorageCommand::GetMetadata => 15,
            StorageCommand::UploadSlaveFile => 21,
            StorageCommand::QueryFileInfo => 22,
            StorageCommand::UploadAppenderFile => 23,
            StorageCommand::AppendFile => 24,
            StorageCommand::ModifyFile => 34,
            StorageCommand::TruncateFile => 36,
        }
    }
}

/// Status of a storage server as reported by a tracker.
#[derive(Debug, Clone, Copy, PartialEq, Eq, Structural)]
pub enum StorageStatus {
    /// Joining the cluster.
    Init,
    /// Waiting for synchronisation.
    WaitSync,
    /// Synchronising.
    Syncing,
    /// Its ip changed.
    IpChanged,
    /// Removed from the cluster.
    Deleted,
    /// Offline.
    Offline,
    /// Online but not yet serving.
    Online,
    /// Serving.
    Active,
    /// Recovering.
    Recovery,
    /// No status reported.
    NoStatus,
}

impl StorageStatus {
    /// The status byte used on the wire.
    pub open spec fn spec_code(self) -> u8 {
        match self {
            StorageStatus::Init => 0,
            StorageStatus::WaitSync => 1,
            StorageStatus::Syncing => 2,
            StorageStatus::IpChanged => 3,
            StorageStatus::Deleted => 4,
            StorageStatus::Offline => 5,
            StorageStatus::Online => 6,
            StorageStatus::Active => 7,
            StorageStatus::Recovery => 9,
            StorageStatus::NoStatus => 99,
        }
    }

    /// The status byte used on the wire.
    #[verifier::when_used_as_spec(spec_code)]
    pub fn code(self) -> (c: u8)
        ensures
            c == self.spec_code(),
    {
        match self {
            StorageStatus::Init => 0,
            StorageStatus::WaitSync => 1,
            StorageStatus::Syncing => 2,
            StorageStatus::IpChanged => 3,
            StorageStatus::Deleted => 4,
            StorageStatus::Offline => 5,
            StorageStatus::Online => 6,
            StorageStatus::Active => 7,
            StorageStatus::Recovery => 9,
            StorageStatus::NoStatus => 99,
        }
    }
}

/// How a set-metadata request treats metadata already stored for the file.
#[derive(Debug, Clone, Copy, PartialEq, Eq, Structural)]
pub enum MetadataFlag {
    /// Replace all existing metadata with the new values.
    Overwrite,
    /// Merge the new metadata into the existing metadata.
    Merge,
}

impl MetadataFlag {
    /// The flag byte placed in a set-metadata request body.
    pub open spec fn spec_code(self) -> u8 {
        match self {
            MetadataFlag::Overwrite => 79,  // b'O'
            MetadataFlag::Merge => 77,  // b'M'
        }
    }

    /// The flag byte placed in a set-metadata request body.
    #[verifier::when_used_as_spec(spec_code)]
    pub fn code(self) -> (c: u8)
        ensures
            c == self.spec_code(),
    {
        match self {
            MetadataFlag::Overwrite => 79,
            MetadataFlag::Merge => 77,
        }
    }
}

/// What a storage server reports about one stored file.
#[derive(Debug, Clone)]
pub struct FileInfo {
    /// Size of the file in bytes.
    pub file_size: u64,
    /// Creation time as seconds since the Unix epoch.
    pub create_time: u64,
    /// CRC32 checksum of the file.
    pub crc32: u32,
    /// Ip address of the source storage server.
    pub source_ip_addr: String,
}

/// A storage server as reported by a tracker.
#[derive(Debug, Clone)]
pub struct StorageServer {
    /// Ip address of the storage server.
    pub ip_addr: String,
    /// Port of the storage server.
    pub port: u16,
    /// Which storage root the server should use; meaningful for uploads only.
    pub store_path_index: u8,
}

/// The fixed 10-byte header that frames every message.
#[derive(Debug, Clone)]
pub struct TrackerHeader {
    /// Length in bytes of the body that follows the header.
    pub length: u64,
    /// Command byte.
    pub cmd: u8,
    /// Status byte: 0 in requests and successful responses.
    pub status: u8,
}

/// The two components a storage server returns for a freshly stored file.
#[derive(Debug, Clone)]
pub struct UploadResponse {
    /// The group the file was stored in.
    pub group_name: String,
    /// Path and name of the file on the storage server.
    pub remote_filename: String,
}

/// Settings of a client, validated before any connection is made.
#[derive(Debug, Clone)]
pub struct ClientConfig {
    /// Tracker addresses as `host:port`, first one primary.
    pub tracker_addrs: Vec<String>,
    /// Idle connections kept per endpoint.
    pub max_conns: usize,
    /// Deadline in milliseconds for establishing a connection.
    pub connect_timeout: u64,
    /// Deadline in milliseconds for each network read or write.
    pub network_timeout: u64,
    /// Age in milliseconds beyond which an idle connection is discarded.
    pub idle_timeout: u64,
    /// Attempts per upload, download or delete.
    pub retry_count: usize,
}

impl Default for ClientConfig {
    /// The configuration with no tracker addresses and every other setting at
    /// its default.
    fn default() -> (c: Self)
        ensures
            c.tracker_addrs@ =~= Seq::<String>::empty(),
            c.max_conns == 10,
            c.connect_timeout == 5000,
            c.network_timeout == 30000,
            c.idle_timeout == 60000,
            c.retry_count == 3,
    {
        ClientConfig {
            tracker_addrs: Vec::new(),
            max_conns: 10,
            connect_timeout: 5000,
            network_timeout: 30000,
            idle_timeout: 60000,
            retry_count: 3,
        }
    }
}

impl ClientConfig {
    /// A configuration with the given tracker addresses and default settings.
    pub fn new(tracker_addrs: Vec<String>) -> (c: Self)
        ensures
            c.tracker_addrs == tracker_addrs,
            c.max_conns == 10,
            c.connect_timeout == 5000,
            c.network_timeout == 30000,
            c.idle_timeout == 60000,
            c.retry_count == 3,
    {
        ClientConfig {
            tracker_addrs,
            max_conns: 10,
            connect_timeout: 5000,
            network_timeout: 30000,
            idle_timeout: 60000,
            retry_count: 3,
        }
    }

    /// The same configuration with the per-endpoint connection cap replaced.
    pub fn with_max_conns(self, max_conns: usize) -> (c: Self)
        ensures
            c == (ClientConfig { max_conns, ..self }),
    {
        ClientConfig { max_conns, ..self }
    }

    /// The same configuration with the connect deadline replaced.
    pub fn with_connect_timeout(self, timeout: u64) -> (c: Self)
        ensures
            c == (ClientConfig { connect_timeout: timeout, ..self }),
    {
        ClientConfig { connect_timeout: timeout, ..self }
    }

    /// The same configuration with the per-read/write deadline replaced.
    pub fn with_network_timeout(self, timeout: u64) -> (c: Self)
        ensures
            c == (ClientConfig { network_timeout: timeout, ..self }),
    {
        ClientConfig { network_timeout: timeout, ..self }
    }

    /// The same configuration with the idle threshold replaced.
    pub fn with_idle_timeout(self, timeout: u64) -> (c: Self)
        ensures
            c == (ClientConfig { idle_timeout: timeout, ..self }),
    {
        ClientConfig { idle_timeout: timeout, ..self }
    }

    /// The same configuration with the retry budget replaced.
    pub fn with_retry_count(self, count: usize) -> (c: Self)
        ensures
            c == (ClientConfig { retry_count: count, ..self }),
    {
        ClientConfig { retry_count: count, ..self }
    }

    /// Checks the configuration before any network use: there must be at
    /// least one tracker address and every address must be non-empty and hold
    /// a `:`.
    pub fn validate(&self) -> (r: Result<(), FastDFSError>)
        ensures
            (r is Ok) <==> (self.tracker_addrs@.len() > 0 && forall|i: int|
                0 <= i < self.tracker_addrs@.len() ==> spec_addr_valid(
                    encode_utf8(self.tracker_addrs@[i]@),
                )),
            self.tracker_addrs@.len() == 0 ==> (r matches Err(FastDFSError::InvalidArgument(m))
                && m@ == "Tracker addresses are required"@),
            (self.tracker_addrs@.len() > 0 && !(forall|i: int|
                0 <= i < self.tracker_addrs@.len() ==> spec_addr_valid(
                    encode_utf8(self.tracker_addrs@[i]@),
                ))) ==> (r matches Err(FastDFSError::InvalidArgument(m)) && exists|i: int|
                0 <= i < self.tracker_addrs@.len() && !spec_addr_valid(
                    encode_utf8(self.tracker_addrs@[i]@),
                ) && m@ == "Invalid tracker address: "@ + self.tracker_addrs@[i]@),
    {
        let n = self.tracker_addrs.len();
        if n == 0 {
            return Err(
                FastDFSError::InvalidArgument(
                    String::from_str("Tracker addresses are required"),
                ),
            );
        }
        let mut i: usize = 0;
        while i < n
            invariant
                0 <= i <= n,
                n == self.tracker_addrs@.len(),
                forall|j: int|
                    0 <= j < i ==> spec_addr_valid(encode_utf8(self.tracker_addrs@[j]@)),
            decreases n - i,
        {
            if !addr_is_valid(self.tracker_addrs[i].as_str()) {
                let mut m = String::from_str("Invalid tracker address: ");
                m.append(self.tracker_addrs[i].as_str());
                return Err(FastDFSError::InvalidArgument(m));
            }
            i = i + 1;
        }
        Ok(())
    }
}

/// Whether an address is non-empty and holds a `:`.
fn addr_is_valid(addr: &str) -> (b: bool)
    ensures
        b == spec_addr_valid(addr.spec_bytes()),
{
    let bytes = addr.as_bytes();
    let n = bytes.len();
    if n == 0 {
        return false;
    }
    let mut i: usize = 0;
    while i < n
        invariant
            0 <= i <= n,
            n == bytes@.len(),
            bytes@ == addr.spec_bytes(),
            forall|j: int| 0 <= j < i ==> bytes@[j] != 58,
        decreases n - i,
    {
        if bytes[i] == 58 {
            proof {
                lemma_first_sep_from_scan(bytes@, 58, i as int);
            }
            return true;
        }
        i = i + 1;
    }
    proof {
        lemma_first_sep_from_scan(bytes@, 58, n as int);
    }
    false
}

} // verus!
