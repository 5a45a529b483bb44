//! Tests of the wire codec: headers, file identifiers, padding, big-endian
//! integers and file extensions.

use fastdfs::protocol::{
    decode_header, decode_int32, decode_int64, encode_header, encode_int32, encode_int64,
    get_file_ext_name, join_file_id, pad_string, split_file_id, unpad_string,
};
use fastdfs::types::FDFS_PROTO_HEADER_LEN;

#[test]
fn protocol_test_encode_decode_header() {
    let length: u64 = 1024;
    let cmd: u8 = 11;
    let status: u8 = 0;

    let encoded = encode_header(length, cmd, status);
    assert_eq!(encoded.len(), FDFS_PROTO_HEADER_LEN);

    let decoded = decode_header(&encoded).unwrap();
    assert_eq!(decoded.length, length);
    assert_eq!(decoded.cmd, cmd);
    assert_eq!(decoded.status, status);
}

#[test]
fn protocol_tests_test_encode_decode_header() {
    let length: u64 = 1024;
    let cmd: u8 = 11;
    let status: u8 = 0;

    let encoded = encode_header(length, cmd, status);
    assert_eq!(
        encoded.len(),
        FDFS_PROTO_HEADER_LEN,
        "Encoded header should be exactly 10 bytes"
    );

    let decoded = decode_header(&encoded).unwrap();
    assert_eq!(decoded.length, length, "Decoded length should match original");
    assert_eq!(decoded.cmd, cmd, "Decoded cmd should match original");
    assert_eq!(decoded.status, status, "Decoded status should match original");
}

#[test]
fn test_header_exact_bytes() {
    let encoded = encode_header(1024, 11, 0);
    assert_eq!(encoded, vec![0, 0, 0, 0, 0, 0, 4, 0, 11, 0]);
}

#[test]
fn test_decode_header_short_data() {
    let short_data = b"short";

    let result = decode_header(short_data);
    assert!(result.is_err(), "Decoding short data should return an error");
}

#[test]
fn test_decode_header_exactly_ten_bytes() {
    let data: [u8; 10] = [0, 0, 0, 0, 0, 0, 0, 7, 14, 2];
    let decoded = decode_header(&data).unwrap();
    assert_eq!(decoded.length, 7);
    assert_eq!(decoded.cmd, 14);
    assert_eq!(decoded.status, 2);

    let nine: [u8; 9] = [0, 0, 0, 0, 0, 0, 0, 7, 14];
    assert!(decode_header(&nine).is_err());
}

#[test]
fn test_encode_header_max_values() {
    let length = u64::MAX;
    let cmd = u8::MAX;
    let status = u8::MAX;

    let encoded = encode_header(length, cmd, status);
    assert_eq!(encoded.len(), FDFS_PROTO_HEADER_LEN);

    let decoded = decode_header(&encoded).unwrap();
    assert_eq!(decoded.length, length);
    assert_eq!(decoded.cmd, cmd);
    assert_eq!(decoded.status, status);
}

#[test]
fn test_encode_header_zero_values() {
    let length: u64 = 0;
    let cmd: u8 = 0;
    let status: u8 = 0;

    let encoded = encode_header(length, cmd, status);
    assert_eq!(encoded.len(), FDFS_PROTO_HEADER_LEN);

    let decoded = decode_header(&encoded).unwrap();
    assert_eq!(decoded.length, 0);
    assert_eq!(decoded.cmd, 0);
    assert_eq!(decoded.status, 0);
}

#[test]
fn test_split_file_id() {
    let file_id = "group1/M00/00/00/test.jpg";
    let (group_name, remote_filename) = split_file_id(file_id).unwrap();

    assert_eq!(group_name, "group1");
    assert_eq!(remote_filename, "M00/00/00/test.jpg");
}

#[test]
fn test_split_file_id_valid() {
    let file_id = "group1/M00/00/00/test.jpg";

    let (group_name, remote_filename) = split_file_id(file_id).unwrap();

    assert_eq!(group_name, "group1", "Group name should be extracted correctly");
    assert_eq!(
        remote_filename, "M00/00/00/test.jpg",
        "Remote filename should be extracted correctly"
    );
}

#[test]
fn test_split_file_id_invalid() {
    let invalid_ids = vec![
        "",
        "group1",
        "/M00/00/00/test.jpg",
        "group1/",
        "verylonggroupname123/M00/00/00/test.jpg",
    ];

    for file_id in invalid_ids {
        let result = split_file_id(file_id);
        assert!(
            result.is_err(),
            "Invalid file ID '{}' should fail to split",
            file_id
        );
    }
}

#[test]
fn test_split_file_id_group_at_limit() {
    // A 16-byte group is the longest accepted; 17 bytes is rejected.
    let (group, rest) = split_file_id("abcdefghijklmnop/f").unwrap();
    assert_eq!(group, "abcdefghijklmnop");
    assert_eq!(rest, "f");
    assert!(split_file_id("abcdefghijklmnopq/f").is_err());
}

#[test]
fn protocol_test_join_file_id() {
    let group_name = "group1";
    let remote_filename = "M00/00/00/test.jpg";

    let file_id = join_file_id(group_name, remote_filename);
    assert_eq!(file_id, "group1/M00/00/00/test.jpg");
}

#[test]
fn protocol_tests_test_join_file_id() {
    let group_name = "group1";
    let remote_filename = "M00/00/00/test.jpg";

    let file_id = join_file_id(group_name, remote_filename);
    assert_eq!(
        file_id, "group1/M00/00/00/test.jpg",
        "Joined file ID should have correct format"
    );
}

#[test]
fn test_file_id_round_trip() {
    let original_file_id = "group1/M00/00/00/test.jpg";

    let (group_name, remote_filename) = split_file_id(original_file_id).unwrap();
    let reconstructed_file_id = join_file_id(&group_name, &remote_filename);

    assert_eq!(
        reconstructed_file_id, original_file_id,
        "Round-trip should preserve file ID"
    );
}

#[test]
fn protocol_test_get_file_ext_name() {
    assert_eq!(get_file_ext_name("test.jpg"), "jpg");
    assert_eq!(get_file_ext_name("file.tar.gz"), "gz");
    assert_eq!(get_file_ext_name("noext"), "");
}

#[test]
fn protocol_tests_test_get_file_ext_name() {
    assert_eq!(get_file_ext_name("test.jpg"), "jpg", "Should extract 'jpg' extension");
    assert_eq!(
        get_file_ext_name("file.tar.gz"),
        "gz",
        "Should extract last extension from multi-dot filename"
    );
    assert_eq!(
        get_file_ext_name("noext"),
        "",
        "Should return empty string for files without extension"
    );
    assert_eq!(
        get_file_ext_name(".hidden"),
        "hidden",
        "Should extract extension from hidden files"
    );
}

#[test]
fn test_get_file_ext_name_truncation() {
    let filename = "file.verylongextension";

    let ext = get_file_ext_name(filename);

    assert_eq!(ext.len(), 6, "Extension should be truncated to 6 characters");
    assert_eq!(ext, "verylo", "Truncated extension should be 'verylo'");
}

#[test]
fn test_get_file_ext_name_with_path() {
    let filename = "/path/to/file.txt";

    let ext = get_file_ext_name(filename);

    assert_eq!(ext, "txt", "Should extract extension from full path");
}

#[test]
fn test_get_file_ext_name_dot_in_directory() {
    // A dot in a directory name is not an extension of the file.
    assert_eq!(get_file_ext_name("/pa.th/to/file"), "");
    assert_eq!(get_file_ext_name("dir.d/name."), "");
}

#[test]
fn protocol_test_pad_unpad_string() {
    let test_str = "test";
    let length: usize = 16;

    let padded = pad_string(test_str, length);
    assert_eq!(padded.len(), length);

    let unpadded = unpad_string(&padded);
    assert_eq!(unpadded, test_str);
}

#[test]
fn protocol_tests_test_pad_unpad_string() {
    let test_string = "test";
    let length: usize = 16;

    let padded = pad_string(test_string, length);
    assert_eq!(
        padded.len(),
        length,
        "Padded string should have exact target length"
    );

    let unpadded = unpad_string(&padded);
    assert_eq!(unpadded, test_string, "Unpadded string should match original");
}

#[test]
fn test_pad_string_truncate() {
    let test_string = "verylongstringthatexceedslength";
    let length: usize = 10;

    let padded = pad_string(test_string, length);

    assert_eq!(
        padded.len(),
        length,
        "Padded string should be truncated to target length"
    );
    assert_eq!(padded, b"verylongst".to_vec());
}

#[test]
fn test_pad_empty_string() {
    let test_string = "";
    let length: usize = 16;

    let padded = pad_string(test_string, length);

    assert_eq!(padded.len(), length);
    assert!(
        padded.iter().all(|&b| b == 0),
        "Padded empty string should be all null bytes"
    );
}

#[test]
fn test_unpad_string_no_padding() {
    let data = b"test";

    let unpadded = unpad_string(data);

    assert_eq!(unpadded, "test", "String without padding should be unchanged");
}

#[test]
fn test_unpad_string_all_zeros() {
    let data: [u8; 5] = [0, 0, 0, 0, 0];
    assert_eq!(unpad_string(&data), "");
    // An interior zero byte survives; only the trailing run is stripped.
    let mixed: [u8; 5] = [97, 0, 98, 0, 0];
    assert_eq!(unpad_string(&mixed), "a\u{0}b");
}

#[test]
fn test_encode_decode_int64() {
    let test_values = vec![0u64, 1u64, 1024u64, u32::MAX as u64, u64::MAX];

    for value in test_values {
        let encoded = encode_int64(value);
        assert_eq!(
            encoded.len(),
            8,
            "Encoded int64 should be 8 bytes for value {}",
            value
        );

        let decoded = decode_int64(&encoded);
        assert_eq!(decoded, value, "Decoded value should match original for {}", value);
    }
}

#[test]
fn test_decode_int64_short_data() {
    let short_data = b"short";

    let result = decode_int64(short_data);

    assert_eq!(result, 0, "Decoding short data should return 0");
}

#[test]
fn test_encode_decode_int32() {
    let test_values = vec![0u32, 1u32, 1024u32, u32::MAX];

    for value in test_values {
        let encoded = encode_int32(value);
        assert_eq!(
            encoded.len(),
            4,
            "Encoded int32 should be 4 bytes for value {}",
            value
        );

        let decoded = decode_int32(&encoded);
        assert_eq!(decoded, value, "Decoded value should match original for {}", value);
    }
}

#[test]
fn test_decode_int32_short_data() {
    let short_data = b"ab";

    let result = decode_int32(short_data);

    assert_eq!(result, 0, "Decoding short data should return 0");
}

#[test]
fn test_encode_int64_exact_bytes() {
    assert_eq!(encode_int64(23000), vec![0, 0, 0, 0, 0, 0, 0x59, 0xd8]);
    assert_eq!(encode_int32(0xdead_beef), vec![0xde, 0xad, 0xbe, 0xef]);
}
