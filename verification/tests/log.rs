use hybridconsensus::ccr::log::{Log, LogEntry, LogError};

fn copy_entries(log: &Log) -> Vec<LogEntry> {
    log.entries()
        .iter()
        .map(|e| LogEntry { index: e.index, term: e.term, command: e.command.clone() })
        .collect()
}

#[test]
fn test_log_operations() {
    let file_path = "raft_log_operations.log";

    let mut log = Log::new(file_path, Vec::new());

    // Test append
    log.append(1, "command1".to_string());
    log.append(1, "command2".to_string());
    log.append(2, "command3".to_string());

    assert_eq!(log.len(), 3);

    // Test get
    let entry = log.get(1).unwrap();
    assert_eq!(entry.command, "command2");

    // Test last
    let last = log.last().unwrap();
    assert_eq!(last.command, "command3");

    // Test truncate
    log.truncate(2).unwrap();
    assert_eq!(log.len(), 2);

    // Test persistence: a log read back from what was persisted
    let persisted = copy_entries(&log);
    drop(log);
    let new_log = Log::new(file_path, persisted);
    assert_eq!(new_log.len(), 2);
    assert_eq!(new_log.last().unwrap().command, "command2");
    assert_eq!(new_log.file_path(), file_path);
}

#[test]
fn append_returns_the_position() {
    let mut log = Log::new("p", Vec::new());
    assert_eq!(log.append(4, "a".to_string()), 0);
    assert_eq!(log.append(5, "b".to_string()), 1);
    let e = log.get(1).unwrap();
    assert_eq!((e.index, e.term), (1, 5));
    assert!(log.get(2).is_none());
}

#[test]
fn truncate_past_the_end_is_refused() {
    let mut log = Log::new("p", Vec::new());
    log.append(1, "a".to_string());
    assert!(matches!(log.truncate(2), Err(LogError::IndexOutOfBounds)));
    assert_eq!(log.len(), 1);
    log.truncate(1).unwrap();
    assert_eq!(log.len(), 1);
    log.truncate(0).unwrap();
    assert_eq!(log.len(), 0);
    assert!(log.last().is_none());
}
