//! Tests of the connection pool: reuse in LIFO order, the idle cap, stale
//! eviction, endpoint registration and shutdown. The transport is a plain
//! integer token, so each connection can be recognised when it comes back.

use fastdfs::connection::{Connection, ConnectionPool, PoolAcquire};
use fastdfs::errors::FastDFSError;

fn pool(max_conns: usize, idle_timeout: u64) -> ConnectionPool<u64> {
    ConnectionPool::new(
        vec!["tracker:22122".to_string()],
        max_conns,
        5000,
        idle_timeout,
    )
}

#[test]
fn test_pool_acquire_empty_directs_connect() {
    let mut p = pool(10, 60000);
    match p.get(None, 0) {
        Ok(PoolAcquire::Connect(addr)) => assert_eq!(addr, "tracker:22122"),
        other => panic!("expected a connect directive, got {:?}", other.is_ok()),
    }
}

#[test]
fn test_pool_acquire_named_endpoint() {
    let mut p = pool(10, 60000);
    match p.get(Some("storage:23000"), 0) {
        Ok(PoolAcquire::Connect(addr)) => assert_eq!(addr, "storage:23000"),
        other => panic!("expected a connect directive, got {:?}", other.is_ok()),
    }
}

#[test]
fn test_pool_acquire_no_addresses() {
    let mut p: ConnectionPool<u64> = ConnectionPool::new(vec![], 10, 5000, 60000);
    assert!(matches!(p.get(None, 0), Err(FastDFSError::InvalidArgument(_))));
}

#[test]
fn test_pool_release_then_acquire_lifo() {
    let mut p = pool(10, 60000);
    p.add_addr("storage:23000".to_string());
    p.put(Connection::new(1u64, "storage:23000".to_string(), 0), 0);
    p.put(Connection::new(2u64, "storage:23000".to_string(), 0), 0);

    // The most recently released connection comes back first.
    match p.get(Some("storage:23000"), 10) {
        Ok(PoolAcquire::Reused(c)) => assert_eq!(c.stream, 2),
        _ => panic!("expected the top of the free-list"),
    }
    match p.get(Some("storage:23000"), 10) {
        Ok(PoolAcquire::Reused(c)) => assert_eq!(c.stream, 1),
        _ => panic!("expected the remaining idle connection"),
    }
    // The acquired connections are gone from the free-list.
    assert!(matches!(
        p.get(Some("storage:23000"), 10),
        Ok(PoolAcquire::Connect(_))
    ));
}

#[test]
fn test_pool_release_to_full_list_drops() {
    let mut p = pool(1, 60000);
    p.add_addr("storage:23000".to_string());
    p.put(Connection::new(1u64, "storage:23000".to_string(), 0), 0);
    // The list is at its cap of one: this release changes nothing.
    p.put(Connection::new(2u64, "storage:23000".to_string(), 0), 0);

    match p.get(Some("storage:23000"), 10) {
        Ok(PoolAcquire::Reused(c)) => assert_eq!(c.stream, 1),
        _ => panic!("expected the first released connection"),
    }
    assert!(matches!(
        p.get(Some("storage:23000"), 10),
        Ok(PoolAcquire::Connect(_))
    ));
}

#[test]
fn test_pool_release_to_unknown_endpoint_drops() {
    let mut p = pool(10, 60000);
    p.put(Connection::new(1u64, "storage:23000".to_string(), 0), 0);

    // Nothing was stored: the endpoint had no free-list.
    assert!(matches!(
        p.get(Some("storage:23000"), 0),
        Ok(PoolAcquire::Connect(_))
    ));
}

#[test]
fn test_pool_acquire_skips_stale() {
    let mut p = pool(10, 100);
    p.add_addr("storage:23000".to_string());
    p.put(Connection::new(1u64, "storage:23000".to_string(), 0), 0);

    // 200 ms later the idle connection is stale and is discarded.
    assert!(matches!(
        p.get(Some("storage:23000"), 200),
        Ok(PoolAcquire::Connect(_))
    ));
}

#[test]
fn test_pool_release_stale_drops() {
    let mut p = pool(10, 100);
    p.add_addr("storage:23000".to_string());
    p.put(Connection::new(1u64, "storage:23000".to_string(), 0), 200);

    assert!(matches!(
        p.get(Some("storage:23000"), 200),
        Ok(PoolAcquire::Connect(_))
    ));
}

#[test]
fn test_pool_release_evicts_stale_entries() {
    let mut p = pool(10, 100);
    p.add_addr("storage:23000".to_string());
    p.put(Connection::new(1u64, "storage:23000".to_string(), 0), 0);
    // By now the first connection has gone stale; releasing a fresh one
    // evicts it.
    p.put(Connection::new(2u64, "storage:23000".to_string(), 200), 200);

    match p.get(Some("storage:23000"), 200) {
        Ok(PoolAcquire::Reused(c)) => assert_eq!(c.stream, 2),
        _ => panic!("expected the fresh connection"),
    }
    assert!(matches!(
        p.get(Some("storage:23000"), 200),
        Ok(PoolAcquire::Connect(_))
    ));
}

#[test]
fn test_pool_register_is_idempotent() {
    let mut p = pool(10, 60000);
    p.add_addr("storage:23000".to_string());
    p.add_addr("storage:23000".to_string());
    p.put(Connection::new(1u64, "storage:23000".to_string(), 0), 0);

    match p.get(Some("storage:23000"), 0) {
        Ok(PoolAcquire::Reused(c)) => assert_eq!(c.stream, 1),
        _ => panic!("expected the released connection"),
    }
}

#[test]
fn test_pool_close_gates_acquire() {
    let mut p = pool(10, 60000);
    p.add_addr("storage:23000".to_string());
    p.put(Connection::new(1u64, "storage:23000".to_string(), 0), 0);

    p.close();

    // Every acquire fails without touching the network.
    assert!(matches!(p.get(None, 0), Err(FastDFSError::ClientClosed)));
    assert!(matches!(
        p.get(Some("storage:23000"), 0),
        Err(FastDFSError::ClientClosed)
    ));
    // A release is a no-op, and closing again is safe.
    p.put(Connection::new(2u64, "storage:23000".to_string(), 0), 0);
    p.close();
    assert!(matches!(p.get(None, 0), Err(FastDFSError::ClientClosed)));
}

#[test]
fn test_connection_accessors() {
    let mut c = Connection::new(7u64, "storage:23000".to_string(), 5);
    assert_eq!(c.last_used(), 5);
    assert_eq!(c.addr(), "storage:23000");
    c.touch(42);
    assert_eq!(c.last_used(), 42);
    assert_eq!(c.stream, 7);
}

#[test]
fn test_pool_empty_endpoint_uses_default() {
    let mut p = pool(10, 60000);
    match p.get(Some(""), 0) {
        Ok(PoolAcquire::Connect(addr)) => assert_eq!(addr, "tracker:22122"),
        other => panic!("expected a connect directive, got {:?}", other.is_ok()),
    }
}
