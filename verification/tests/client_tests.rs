//! Tests of the client configuration, its validation, and the error taxonomy.

use fastdfs::errors::{map_status_to_error, FastDFSError};
use fastdfs::types::{ClientConfig, MetadataFlag, StorageCommand, StorageStatus, TrackerCommand};

#[test]
fn test_client_creation_valid_config() {
    let config = ClientConfig::new(vec!["127.0.0.1:22122".to_string()]);

    let result = config.validate();

    assert!(result.is_ok(), "Client should be created with valid config");
}

#[test]
fn test_client_creation_empty_trackers() {
    let config = ClientConfig::new(vec![]);

    let result = config.validate();

    assert!(
        result.is_err(),
        "Client creation should fail with empty tracker addresses"
    );
}

#[test]
fn test_client_creation_invalid_address() {
    let config = ClientConfig::new(vec!["invalid".to_string()]);

    let result = config.validate();

    assert!(
        result.is_err(),
        "Client creation should fail with invalid address format"
    );
}

#[test]
fn test_validate_rejects_empty_address() {
    let config = ClientConfig::new(vec!["127.0.0.1:22122".to_string(), "".to_string()]);
    let result = config.validate();
    assert!(matches!(result, Err(FastDFSError::InvalidArgument(_))));
}

#[test]
fn test_config_builder() {
    let config = ClientConfig::new(vec!["127.0.0.1:22122".to_string()])
        .with_max_conns(20)
        .with_connect_timeout(10000)
        .with_network_timeout(60000)
        .with_idle_timeout(120000)
        .with_retry_count(5);

    assert_eq!(config.max_conns, 20, "Max conns should be set to 20");
    assert_eq!(config.connect_timeout, 10000, "Connect timeout should be set to 10000");
    assert_eq!(config.network_timeout, 60000, "Network timeout should be set to 60000");
    assert_eq!(config.idle_timeout, 120000, "Idle timeout should be set to 120000");
    assert_eq!(config.retry_count, 5, "Retry count should be set to 5");
}

#[test]
fn test_config_defaults() {
    let config = ClientConfig::new(vec!["127.0.0.1:22122".to_string()]);

    assert_eq!(config.max_conns, 10, "Default max_conns should be 10");
    assert_eq!(config.connect_timeout, 5000, "Default connect_timeout should be 5000ms");
    assert_eq!(config.network_timeout, 30000, "Default network_timeout should be 30000ms");
    assert_eq!(config.idle_timeout, 60000, "Default idle_timeout should be 60000ms");
    assert_eq!(config.retry_count, 3, "Default retry_count should be 3");
}

#[test]
fn test_map_status_success() {
    assert!(map_status_to_error(0).is_none());
}

#[test]
fn test_map_status_known_codes() {
    assert!(matches!(map_status_to_error(2), Some(FastDFSError::FileNotFound(_))));
    assert!(matches!(map_status_to_error(6), Some(FastDFSError::FileAlreadyExists(_))));
    assert!(matches!(map_status_to_error(22), Some(FastDFSError::InvalidArgument(_))));
    assert!(matches!(map_status_to_error(28), Some(FastDFSError::InsufficientSpace)));
}

#[test]
fn test_map_status_unknown_code() {
    match map_status_to_error(99) {
        Some(FastDFSError::Protocol { code, message }) => {
            assert_eq!(code, 99);
            assert_eq!(message, "Unknown error code: 99");
        }
        other => panic!("status 99 should map to a Protocol error, got {:?}", other),
    }
    match map_status_to_error(255) {
        Some(FastDFSError::Protocol { code, message }) => {
            assert_eq!(code, 255);
            assert_eq!(message, "Unknown error code: 255");
        }
        other => panic!("status 255 should map to a Protocol error, got {:?}", other),
    }
}

#[test]
fn test_error_transience() {
    assert!(FastDFSError::ConnectionTimeout("t:1".to_string()).is_transient());
    assert!(FastDFSError::NetworkTimeout("read".to_string()).is_transient());
    assert!(FastDFSError::NoStorageServer.is_transient());
    assert!(
        FastDFSError::Network {
            operation: "write".to_string(),
            addr: "t:1".to_string(),
            message: "reset".to_string(),
        }
        .is_transient()
    );
    assert!(!FastDFSError::ClientClosed.is_transient());
    assert!(!FastDFSError::FileNotFound("f".to_string()).is_transient());
    assert!(!FastDFSError::InvalidResponse("bad".to_string()).is_transient());
}

#[test]
fn test_command_codes() {
    assert_eq!(TrackerCommand::ServiceQueryStoreWithoutGroupOne.code(), 101);
    assert_eq!(TrackerCommand::ServiceQueryFetchOne.code(), 102);
    assert_eq!(TrackerCommand::ServiceQueryStoreWithGroupOne.code(), 104);
    assert_eq!(StorageCommand::UploadFile.code(), 11);
    assert_eq!(StorageCommand::DeleteFile.code(), 12);
    assert_eq!(StorageCommand::SetMetadata.code(), 13);
    assert_eq!(StorageCommand::DownloadFile.code(), 14);
    assert_eq!(StorageCommand::GetMetadata.code(), 15);
    assert_eq!(StorageCommand::QueryFileInfo.code(), 22);
    assert_eq!(StorageCommand::UploadAppenderFile.code(), 23);
    assert_eq!(MetadataFlag::Overwrite.code(), b'O');
    assert_eq!(MetadataFlag::Merge.code(), b'M');
    assert_eq!(StorageStatus::Active.code(), 7);
}
