//! Tests of the request builders, the response parsers and the retry policy.

use fastdfs::errors::FastDFSError;
use fastdfs::metadata::Metadata;
use fastdfs::operations::{
    backoff_secs, build_delete_request, build_download_request, build_get_metadata_request,
    build_query_fetch_request, build_query_file_info_request, build_query_store_request,
    build_set_metadata_request, build_upload_request, parse_file_info_response,
    parse_query_fetch_response, parse_query_store_response, parse_upload_response, should_retry,
};
use fastdfs::protocol::join_file_id;
use fastdfs::types::MetadataFlag;

/// `s` padded with zero bytes to exactly `n` bytes.
fn padded(s: &str, n: usize) -> Vec<u8> {
    let mut v = s.as_bytes().to_vec();
    v.truncate(n);
    while v.len() < n {
        v.push(0);
    }
    v
}

#[test]
fn test_build_query_store_request_groupless() {
    let req = build_query_store_request("");
    assert_eq!(req, vec![0, 0, 0, 0, 0, 0, 0, 0, 101, 0]);
}

#[test]
fn test_build_query_store_request_with_group() {
    let req = build_query_store_request("group1");
    let mut expected = vec![0, 0, 0, 0, 0, 0, 0, 16, 104, 0];
    expected.extend_from_slice(&padded("group1", 16));
    assert_eq!(req, expected);
}

#[test]
fn test_build_query_fetch_request_bytes() {
    let req = build_query_fetch_request("group1", "f.txt");
    let mut expected = vec![0, 0, 0, 0, 0, 0, 0, 21, 102, 0];
    expected.extend_from_slice(&padded("group1", 16));
    expected.extend_from_slice(b"f.txt");
    assert_eq!(req, expected);
}

#[test]
fn test_build_upload_request_bytes() {
    let req = build_upload_request(1, "txt", b"hello", false);
    let mut expected = vec![0, 0, 0, 0, 0, 0, 0, 12, 11, 0];
    expected.push(1);
    expected.extend_from_slice(&padded("txt", 6));
    expected.extend_from_slice(b"hello");
    assert_eq!(req, expected);
}

#[test]
fn test_build_upload_request_appender_command() {
    let req = build_upload_request(0, "bin", b"x", true);
    assert_eq!(req[8], 23, "an appender upload uses command 23");
    assert_eq!(req[9], 0);
}

#[test]
fn test_build_download_request_bytes() {
    let req = build_download_request("group1", "f", 10, 20);
    let mut expected = vec![0, 0, 0, 0, 0, 0, 0, 33, 14, 0];
    expected.extend_from_slice(&[0, 0, 0, 0, 0, 0, 0, 10]);
    expected.extend_from_slice(&[0, 0, 0, 0, 0, 0, 0, 20]);
    expected.extend_from_slice(&padded("group1", 16));
    expected.extend_from_slice(b"f");
    assert_eq!(req, expected);
}

#[test]
fn test_build_delete_request_bytes() {
    let req = build_delete_request("group1", "f");
    let mut expected = vec![0, 0, 0, 0, 0, 0, 0, 17, 12, 0];
    expected.extend_from_slice(&padded("group1", 16));
    expected.extend_from_slice(b"f");
    assert_eq!(req, expected);
}

#[test]
fn test_build_get_metadata_request_bytes() {
    let req = build_get_metadata_request("group1", "f");
    assert_eq!(req[8], 15);
    assert_eq!(&req[10..26], padded("group1", 16).as_slice());
    assert_eq!(&req[26..], b"f");
}

#[test]
fn test_build_query_file_info_request_bytes() {
    let req = build_query_file_info_request("group1", "f");
    assert_eq!(req[8], 22);
    assert_eq!(&req[10..26], padded("group1", 16).as_slice());
    assert_eq!(&req[26..], b"f");
}

#[test]
fn test_build_set_metadata_request_bytes() {
    let mut meta = Metadata::new();
    meta.insert("a".to_string(), "b".to_string());

    let req = build_set_metadata_request("g", "f", &meta, MetadataFlag::Overwrite);

    let mut expected = vec![0, 0, 0, 0, 0, 0, 0, 38, 13, 0];
    expected.extend_from_slice(&[0, 0, 0, 0, 0, 0, 0, 1]); // filename length
    expected.extend_from_slice(&[0, 0, 0, 0, 0, 0, 0, 4]); // metadata length
    expected.push(b'O');
    expected.extend_from_slice(&padded("g", 16));
    expected.extend_from_slice(b"f");
    expected.extend_from_slice(&[b'a', 0x02, b'b', 0x01]);
    assert_eq!(req, expected);
}

#[test]
fn test_build_set_metadata_request_merge_flag() {
    let meta = Metadata::new();
    let req = build_set_metadata_request("g", "f", &meta, MetadataFlag::Merge);
    assert_eq!(req[26], b'M');
}

#[test]
fn test_parse_query_store_response_ok() {
    let mut body = padded("group1", 16);
    body.extend_from_slice(&padded("10.0.0.1", 16));
    body.extend_from_slice(&[0, 0, 0, 0, 0, 0, 0x59, 0xd8]); // 23000
    body.push(2);

    let server = parse_query_store_response(&body).unwrap();
    assert_eq!(server.ip_addr, "10.0.0.1");
    assert_eq!(server.port, 23000);
    assert_eq!(server.store_path_index, 2);
}

#[test]
fn test_parse_query_store_response_short() {
    let body = padded("group1", 16);
    assert!(matches!(
        parse_query_store_response(&body),
        Err(FastDFSError::InvalidResponse(_))
    ));
    // One byte short of the 41 required.
    let forty = vec![0u8; 40];
    assert!(parse_query_store_response(&forty).is_err());
    let fortyone = vec![0u8; 41];
    assert!(parse_query_store_response(&fortyone).is_ok());
}

#[test]
fn test_parse_query_fetch_response_ok() {
    let mut body = padded("group1", 16);
    body.extend_from_slice(&padded("10.0.0.2", 16));
    body.extend_from_slice(&[0, 0, 0, 0, 0, 0, 0x59, 0xd8]);

    let server = parse_query_fetch_response(&body).unwrap();
    assert_eq!(server.ip_addr, "10.0.0.2");
    assert_eq!(server.port, 23000);
    assert_eq!(server.store_path_index, 0, "a fetch response carries no store path index");

    let short = vec![0u8; 39];
    assert!(parse_query_fetch_response(&short).is_err());
}

#[test]
fn test_parse_upload_response_ok() {
    let mut body = padded("group1", 16);
    body.extend_from_slice(b"M00/00/00/x.txt");

    let resp = parse_upload_response(&body).unwrap();
    assert_eq!(resp.group_name, "group1");
    assert_eq!(resp.remote_filename, "M00/00/00/x.txt");
    assert_eq!(
        join_file_id(&resp.group_name, &resp.remote_filename),
        "group1/M00/00/00/x.txt"
    );
}

#[test]
fn test_parse_upload_response_short() {
    let body = vec![0u8; 15];
    assert!(matches!(
        parse_upload_response(&body),
        Err(FastDFSError::InvalidResponse(_))
    ));
}

#[test]
fn test_parse_file_info_response_ok() {
    let mut body = vec![0, 0, 0, 0, 0, 0, 4, 210]; // size 1234
    body.extend_from_slice(&[0, 0, 0, 0, 0x65, 0x4a, 0x7b, 0x00]); // creation time
    body.extend_from_slice(&[0x12, 0x34, 0x56, 0x78]); // crc32
    body.extend_from_slice(&padded("192.168.0.9", 16));

    let info = parse_file_info_response(&body).unwrap();
    assert_eq!(info.file_size, 1234);
    assert_eq!(info.create_time, 0x654a7b00);
    assert_eq!(info.crc32, 0x12345678);
    assert_eq!(info.source_ip_addr, "192.168.0.9");
}

#[test]
fn test_parse_file_info_response_short() {
    let body = vec![0u8; 35];
    assert!(matches!(
        parse_file_info_response(&body),
        Err(FastDFSError::InvalidResponse(_))
    ));
}

#[test]
fn test_backoff_is_linear() {
    assert_eq!(backoff_secs(0), 1);
    assert_eq!(backoff_secs(1), 2);
    assert_eq!(backoff_secs(4), 5);
}

#[test]
fn test_should_retry_within_budget() {
    assert!(should_retry(0, 3));
    assert!(should_retry(1, 3));
    assert!(!should_retry(2, 3));
    assert!(!should_retry(0, 1));
    assert!(!should_retry(0, 0));
}
