//! Request builders and response parsers for every tracker and storage
//! operation, and the retry policy.
//!
//! Each builder yields the exact bytes that go on the wire: the 10-byte
//! header followed by the operation's body. Each parser states what it reads
//! from a response body and when it rejects one. The embedding program only
//! moves these bytes over a socket.

use vstd::prelude::*;
use vstd::slice::slice_subrange;
use vstd::string::StringSliceAdditionalSpecFns;

use crate::errors::FastDFSError;
use crate::metadata::{spec_encode_metadata, encode_metadata, Metadata};
use crate::protocol::{
    encode_header, encode_int64, spec_encode_header, spec_pad_bytes, spec_u32_from_be_bytes,
    spec_u64_from_be_bytes, spec_u64_to_be_bytes, spec_unpad_chars, unpad_string, utf8_chars,
    bytes_to_string, decode_int32, decode_int64, pad_string,
};
use crate::types::{
    FileInfo, MetadataFlag, StorageCommand, StorageServer, TrackerCommand, UploadResponse,
    FDFS_FILE_EXT_NAME_MAX_LEN, FDFS_GROUP_NAME_MAX_LEN, IP_ADDRESS_SIZE,
};

verus! {

// ---------------------------------------------------------------------------
// Retry policy
// ---------------------------------------------------------------------------
/// How long to sleep after a failed attempt: linear backoff, one more second
/// per attempt already made.
pub open spec fn spec_backoff_secs(attempt: usize) -> u64 {
    if attempt as int + 1 <= u64::MAX as int {
        (attempt + 1) as u64
    } else {
        u64::MAX
    }
}

/// How long to sleep after failed attempt number `attempt` (counted from 0):
/// linear backoff.
pub fn backoff_secs(attempt: usize) -> (s: u64)
    ensures
        s == spec_backoff_secs(attempt),
{
    let a = attempt as u64;
    if a == u64::MAX {
        a
    } else {
        a + 1
    }
}

/// Whether a failed attempt number `attempt` (counted from 0) leaves budget
/// for another attempt.
pub fn should_retry(attempt: usize, retry_count: usize) -> (b: bool)
    ensures
        b == (attempt + 1 < retry_count),
{
    attempt < retry_count && retry_count - attempt > 1
}

// ---------------------------------------------------------------------------
// Tracker requests
// ---------------------------------------------------------------------------
/// The wire picture of a query-store request: group-less (command 101) with an
/// empty body, or with a 16-byte padded group (command 104).
pub open spec fn spec_query_store_request(group: Seq<u8>) -> Seq<u8> {
    if group.len() == 0 {
        spec_encode_header(0, TrackerCommand::ServiceQueryStoreWithoutGroupOne.spec_code(), 0)
    } else {
        spec_encode_header(
            FDFS_GROUP_NAME_MAX_LEN as u64,
            TrackerCommand::ServiceQueryStoreWithGroupOne.spec_code(),
            0,
        ) + spec_pad_bytes(group, FDFS_GROUP_NAME_MAX_LEN as nat)
    }
}

/// Builds the tracker request that asks for a storage server to upload to,
/// within `group_name` when one is given.
pub fn build_query_store_request(group_name: &str) -> (r: Vec<u8>)
    ensures
        r@ == spec_query_store_request(group_name.spec_bytes()),
{
    if group_name.as_bytes().len() == 0 {
        encode_header(0, TrackerCommand::ServiceQueryStoreWithoutGroupOne.code(), 0)
    } else {
        let mut buf = encode_header(
            FDFS_GROUP_NAME_MAX_LEN as u64,
            TrackerCommand::ServiceQueryStoreWithGroupOne.code(),
            0,
        );
        let body = pad_string(group_name, FDFS_GROUP_NAME_MAX_LEN);
        buf.extend_from_slice(body.as_slice());
        proof {
            assert(buf@ =~= spec_query_store_request(group_name.spec_bytes()));
        }
        buf
    }
}

/// The wire picture of a request that names one file: the command, a 16-byte
/// padded group, and the remote filename.
pub open spec fn spec_file_request(cmd: u8, group: Seq<u8>, remote: Seq<u8>) -> Seq<u8> {
    spec_encode_header((FDFS_GROUP_NAME_MAX_LEN + remote.len()) as u64, cmd, 0) + spec_pad_bytes(
        group,
        FDFS_GROUP_NAME_MAX_LEN as nat,
    ) + remote
}

fn build_file_request(cmd: u8, group_name: &str, remote_filename: &str) -> (r: Vec<u8>)
    requires
        remote_filename.spec_bytes().len() + FDFS_GROUP_NAME_MAX_LEN <= u64::MAX,
    ensures
        r@ == spec_file_request(cmd, group_name.spec_bytes(), remote_filename.spec_bytes()),
{
    let remote = remote_filename.as_bytes();
    let body_len = FDFS_GROUP_NAME_MAX_LEN as u64 + remote.len() as u64;
    let mut buf = encode_header(body_len, cmd, 0);
    let padded = pad_string(group_name, FDFS_GROUP_NAME_MAX_LEN);
    buf.extend_from_slice(padded.as_slice());
    buf.extend_from_slice(remote);
    proof {
        assert(buf@ =~= spec_file_request(
            cmd,
            group_name.spec_bytes(),
            remote_filename.spec_bytes(),
        ));
    }
    buf
}

/// Builds the tracker request that locates the storage server holding one
/// file (command 102).
pub fn build_query_fetch_request(group_name: &str, remote_filename: &str) -> (r: Vec<u8>)
    requires
        remote_filename.spec_bytes().len() + FDFS_GROUP_NAME_MAX_LEN <= u64::MAX,
    ensures
        r@ == spec_file_request(
            TrackerCommand::ServiceQueryFetchOne.spec_code(),
            group_name.spec_bytes(),
            remote_filename.spec_bytes(),
        ),
{
    build_file_request(TrackerCommand::ServiceQueryFetchOne.code(), group_name, remote_filename)
}

// ---------------------------------------------------------------------------
// Storage requests
// ---------------------------------------------------------------------------
/// The wire picture of an upload request: the store path index, the extension
/// padded to 6 bytes, and the file data, under command 11 (or 23 for an
/// appender file).
pub open spec fn spec_upload_request(
    store_path_index: u8,
    ext: Seq<u8>,
    data: Seq<u8>,
    is_appender: bool,
) -> Seq<u8> {
    let cmd = if is_appender {
        StorageCommand::UploadAppenderFile.spec_code()
    } else {
        StorageCommand::UploadFile.spec_code()
    };
    spec_encode_header((1 + FDFS_FILE_EXT_NAME_MAX_LEN + data.len()) as u64, cmd, 0) + seq![
        store_path_index,
    ] + spec_pad_bytes(ext, FDFS_FILE_EXT_NAME_MAX_LEN as nat) + data
}

/// Builds the storage request that uploads `data` with the given extension to
/// the store path the tracker chose.
pub fn build_upload_request(
    store_path_index: u8,
    file_ext_name: &str,
    data: &[u8],
    is_appender: bool,
) -> (r: Vec<u8>)
    requires
        data@.len() + 1 + FDFS_FILE_EXT_NAME_MAX_LEN <= u64::MAX,
    ensures
        r@ == spec_upload_request(
            store_path_index,
            file_ext_name.spec_bytes(),
            data@,
            is_appender,
        ),
{
    let cmd = if is_appender {
        StorageCommand::UploadAppenderFile.code()
    } else {
        StorageCommand::UploadFile.code()
    };
    let body_len = 1 + FDFS_FILE_EXT_NAME_MAX_LEN as u64 + data.len() as u64;
    let mut buf = encode_header(body_len, cmd, 0);
    buf.push(store_path_index);
    let ext = pad_string(file_ext_name, FDFS_FILE_EXT_NAME_MAX_LEN);
    buf.extend_from_slice(ext.as_slice());
    buf.extend_from_slice(data);
    proof {
        assert(buf@ =~= spec_upload_request(
            store_path_index,
            file_ext_name.spec_bytes(),
            data@,
            is_appender,
        ));
    }
    buf
}

/// The wire picture of a ranged download request: offset, length, the padded
/// group and the remote filename, under command 14.
pub open spec fn spec_download_request(
    group: Seq<u8>,
    remote: Seq<u8>,
    offset: u64,
    length: u64,
) -> Seq<u8> {
    spec_encode_header(
        (16 + FDFS_GROUP_NAME_MAX_LEN + remote.len()) as u64,
        StorageCommand::DownloadFile.spec_code(),
        0,
    ) + spec_u64_to_be_bytes(offset) + spec_u64_to_be_bytes(length) + spec_pad_bytes(
        group,
        FDFS_GROUP_NAME_MAX_LEN as nat,
    ) + remote
}

/// Builds the storage request that downloads a byte range of one file; offset
/// and length both 0 ask for the whole file.
pub fn build_download_request(
    group_name: &str,
    remote_filename: &str,
    offset: u64,
    length: u64,
) -> (r: Vec<u8>)
    requires
        remote_filename.spec_bytes().len() + 16 + FDFS_GROUP_NAME_MAX_LEN <= u64::MAX,
    ensures
        r@ == spec_download_request(
            group_name.spec_bytes(),
            remote_filename.spec_bytes(),
            offset,
            length,
        ),
{
    let remote = remote_filename.as_bytes();
    let body_len = 16 + FDFS_GROUP_NAME_MAX_LEN as u64 + remote.len() as u64;
    let mut buf = encode_header(body_len, StorageCommand::DownloadFile.code(), 0);
    let off = encode_int64(offset);
    buf.extend_from_slice(off.as_slice());
    let len = encode_int64(length);
    buf.extend_from_slice(len.as_slice());
    let padded = pad_string(group_name, FDFS_GROUP_NAME_MAX_LEN);
    buf.extend_from_slice(padded.as_slice());
    buf.extend_from_slice(remote);
    proof {
        assert(buf@ =~= spec_download_request(
            group_name.spec_bytes(),
            remote_filename.spec_bytes(),
            offset,
            length,
        ));
    }
    buf
}

/// Builds the storage request that deletes one file (command 12).
pub fn build_delete_request(group_name: &str, remote_filename: &str) -> (r: Vec<u8>)
    requires
        remote_filename.spec_bytes().len() + FDFS_GROUP_NAME_MAX_LEN <= u64::MAX,
    ensures
        r@ == spec_file_request(
            StorageCommand::DeleteFile.spec_code(),
            group_name.spec_bytes(),
            remote_filename.spec_bytes(),
        ),
{
    build_file_request(StorageCommand::DeleteFile.code(), group_name, remote_filename)
}

/// Builds the storage request that reads one file's metadata (command 15).
pub fn build_get_metadata_request(group_name: &str, remote_filename: &str) -> (r: Vec<u8>)
    requires
        remote_filename.spec_bytes().len() + FDFS_GROUP_NAME_MAX_LEN <= u64::MAX,
    ensures
        r@ == spec_file_request(
            StorageCommand::GetMetadata.spec_code(),
            group_name.spec_bytes(),
            remote_filename.spec_bytes(),
        ),
{
    build_file_request(StorageCommand::GetMetadata.code(), group_name, remote_filename)
}

/// Builds the storage request that reads one file's size, creation time,
/// checksum and source (command 22).
pub fn build_query_file_info_request(group_name: &str, remote_filename: &str) -> (r: Vec<u8>)
    requires
        remote_filename.spec_bytes().len() + FDFS_GROUP_NAME_MAX_LEN <= u64::MAX,
    ensures
        r@ == spec_file_request(
            StorageCommand::QueryFileInfo.spec_code(),
            group_name.spec_bytes(),
            remote_filename.spec_bytes(),
        ),
{
    build_file_request(StorageCommand::QueryFileInfo.code(), group_name, remote_filename)
}

/// The wire picture of a set-metadata request: the filename length, the
/// metadata length, the overwrite-or-merge flag, the padded group, the remote
/// filename and the encoded metadata, under command 13.
pub open spec fn spec_set_metadata_request(
    group: Seq<u8>,
    remote: Seq<u8>,
    meta: Seq<(Seq<char>, Seq<char>)>,
    flag: MetadataFlag,
) -> Seq<u8> {
    let meta_bytes = spec_encode_metadata(meta);
    spec_encode_header(
        (17 + FDFS_GROUP_NAME_MAX_LEN + remote.len() + meta_bytes.len()) as u64,
        StorageCommand::SetMetadata.spec_code(),
        0,
    ) + spec_u64_to_be_bytes(remote.len() as u64) + spec_u64_to_be_bytes(meta_bytes.len() as u64)
        + seq![flag.spec_code()] + spec_pad_bytes(group, FDFS_GROUP_NAME_MAX_LEN as nat) + remote
        + meta_bytes
}

/// Builds the storage request that replaces or merges one file's metadata.
pub fn build_set_metadata_request(
    group_name: &str,
    remote_filename: &str,
    metadata: &Metadata,
    flag: MetadataFlag,
) -> (r: Vec<u8>)
    requires
        remote_filename.spec_bytes().len() + spec_encode_metadata(metadata@).len() + 17
            + FDFS_GROUP_NAME_MAX_LEN <= u64::MAX,
    ensures
        r@ == spec_set_metadata_request(
            group_name.spec_bytes(),
            remote_filename.spec_bytes(),
            metadata@,
            flag,
        ),
{
    let remote = remote_filename.as_bytes();
    let meta_bytes = encode_metadata(metadata);
    let body_len = 17 + FDFS_GROUP_NAME_MAX_LEN as u64 + remote.len() as u64
        + meta_bytes.len() as u64;
    let mut buf = encode_header(body_len, StorageCommand::SetMetadata.code(), 0);
    let rlen = encode_int64(remote.len() as u64);
    buf.extend_from_slice(rlen.as_slice());
    let mlen = encode_int64(meta_bytes.len() as u64);
    buf.extend_from_slice(mlen.as_slice());
    buf.push(flag.code());
    let padded = pad_string(group_name, FDFS_GROUP_NAME_MAX_LEN);
    buf.extend_from_slice(padded.as_slice());
    buf.extend_from_slice(remote);
    buf.extend_from_slice(meta_bytes.as_slice());
    proof {
        assert(buf@ =~= spec_set_metadata_request(
            group_name.spec_bytes(),
            remote_filename.spec_bytes(),
            metadata@,
            flag,
        ));
    }
    buf
}

// ---------------------------------------------------------------------------
// Response parsers
// ---------------------------------------------------------------------------
/// Parses the body a tracker returns for a query-store request: the padded
/// group, the padded ip, an 8-byte big-endian port and the store path index.
/// Fails on fewer than 41 bytes.
pub fn parse_query_store_response(body: &[u8]) -> (r: Result<StorageServer, FastDFSError>)
    ensures
        (r is Ok) <==> body@.len() >= FDFS_GROUP_NAME_MAX_LEN + IP_ADDRESS_SIZE + 9,
        body@.len() < FDFS_GROUP_NAME_MAX_LEN + IP_ADDRESS_SIZE + 9 ==> (r matches Err(
            FastDFSError::InvalidResponse(_),
        )),
        body@.len() >= FDFS_GROUP_NAME_MAX_LEN + IP_ADDRESS_SIZE + 9 ==> (r matches Ok(s) && ({
            &&& s.ip_addr@ == spec_unpad_chars(body@.subrange(16, 32))
            &&& s.port == (spec_u64_from_be_bytes(body@.subrange(32, 40)) & 0xffff) as u16
            &&& s.store_path_index == body@[40]
        })),
{
    if body.len() < FDFS_GROUP_NAME_MAX_LEN + IP_ADDRESS_SIZE + 9 {
        return Err(
            FastDFSError::InvalidResponse(
                String::from_str("Storage server response too short"),
            ),
        );
    }
    let ip_addr = unpad_string(slice_subrange(body, 16, 32));
    let port64 = decode_int64(slice_subrange(body, 32, 40));
    let port = low_two_bytes(port64);
    let store_path_index = body[40];
    Ok(StorageServer { ip_addr, port, store_path_index })
}

/// Parses the body a tracker returns for a query-fetch request: as for
/// query-store but without a store path index. Fails on fewer than 40 bytes.
pub fn parse_query_fetch_response(body: &[u8]) -> (r: Result<StorageServer, FastDFSError>)
    ensures
        (r is Ok) <==> body@.len() >= FDFS_GROUP_NAME_MAX_LEN + IP_ADDRESS_SIZE + 8,
        body@.len() < FDFS_GROUP_NAME_MAX_LEN + IP_ADDRESS_SIZE + 8 ==> (r matches Err(
            FastDFSError::InvalidResponse(_),
        )),
        body@.len() >= FDFS_GROUP_NAME_MAX_LEN + IP_ADDRESS_SIZE + 8 ==> (r matches Ok(s) && ({
            &&& s.ip_addr@ == spec_unpad_chars(body@.subrange(16, 32))
            &&& s.port == (spec_u64_from_be_bytes(body@.subrange(32, 40)) & 0xffff) as u16
            &&& s.store_path_index == 0
        })),
{
    if body.len() < FDFS_GROUP_NAME_MAX_LEN + IP_ADDRESS_SIZE + 8 {
        return Err(
            FastDFSError::InvalidResponse(
                String::from_str("Download storage server response too short"),
            ),
        );
    }
    let ip_addr = unpad_string(slice_subrange(body, 16, 32));
    let port64 = decode_int64(slice_subrange(body, 32, 40));
    let port = low_two_bytes(port64);
    Ok(StorageServer { ip_addr, port, store_path_index: 0 })
}

fn low_two_bytes(x: u64) -> (p: u16)
    ensures
        p == (x & 0xffff) as u16,
{
    proof {
        assert((x & 0xffff) < 0x10000) by (bit_vector);
    }
    (x & 0xffff) as u16
}

/// Parses the body a storage server returns for an upload: the padded group
/// and the remote filename. Fails on fewer than 16 bytes.
pub fn parse_upload_response(body: &[u8]) -> (r: Result<UploadResponse, FastDFSError>)
    ensures
        (r is Ok) <==> body@.len() >= FDFS_GROUP_NAME_MAX_LEN,
        body@.len() < FDFS_GROUP_NAME_MAX_LEN ==> (r matches Err(FastDFSError::InvalidResponse(_))),
        body@.len() >= FDFS_GROUP_NAME_MAX_LEN ==> (r matches Ok(u) && ({
            &&& u.group_name@ == spec_unpad_chars(body@.subrange(0, 16))
            &&& u.remote_filename@ == utf8_chars(body@.skip(16))
        })),
{
    if body.len() < FDFS_GROUP_NAME_MAX_LEN {
        return Err(
            FastDFSError::InvalidResponse(String::from_str("Response body too short")),
        );
    }
    let group_name = unpad_string(slice_subrange(body, 0, FDFS_GROUP_NAME_MAX_LEN));
    let remote_filename = bytes_to_string(
        slice_subrange(body, FDFS_GROUP_NAME_MAX_LEN, body.len()),
    );
    proof {
        assert(body@.subrange(16, body@.len() as int) =~= body@.skip(16));
    }
    Ok(UploadResponse { group_name, remote_filename })
}

/// Parses the body a storage server returns for a file-info query: the file
/// size, the creation time in Unix seconds, the CRC32 checksum and the padded
/// source ip. Fails on fewer than 36 bytes.
pub fn parse_file_info_response(body: &[u8]) -> (r: Result<FileInfo, FastDFSError>)
    ensures
        (r is Ok) <==> body@.len() >= 20 + IP_ADDRESS_SIZE,
        body@.len() < 20 + IP_ADDRESS_SIZE ==> (r matches Err(FastDFSError::InvalidResponse(_))),
        body@.len() >= 20 + IP_ADDRESS_SIZE ==> (r matches Ok(info) && ({
            &&& info.file_size == spec_u64_from_be_bytes(body@.subrange(0, 8))
            &&& info.create_time == spec_u64_from_be_bytes(body@.subrange(8, 16))
            &&& info.crc32 == spec_u32_from_be_bytes(body@.subrange(16, 20))
            &&& info.source_ip_addr@ == spec_unpad_chars(body@.subrange(20, 36))
        })),
{
    if body.len() < 20 + IP_ADDRESS_SIZE {
        return Err(
            FastDFSError::InvalidResponse(String::from_str("File info response too short")),
        );
    }
    let file_size = decode_int64(slice_subrange(body, 0, 8));
    let create_time = decode_int64(slice_subrange(body, 8, 16));
    let crc32 = decode_int32(slice_subrange(body, 16, 20));
    let source_ip_addr = unpad_string(slice_subrange(body, 20, 36));
    Ok(FileInfo { file_size, create_time, crc32, source_ip_addr })
}

} // verus!
