use helix_term::logging::rotation::{backup_path, rotate_files, Move, RotatingFile};
use helix_term::logging::writer::{
    flush_result, remember_writer_error, writer_step, WriterEvent, WriterStep,
};
use helix_term::logging::{
    bounded_str, bounded_string, is_low_priority, report_dropped, setup, writer_unavailable,
    DroppedRecords, Level, LevelFilter, LogError, LogQueue, QueuedRecord, WriterCommand,
    LOG_BACKUPS, MAX_LOG_BYTES,
};

fn test_record(level: Level, message: &str) -> QueuedRecord {
    QueuedRecord {
        timestamp: 0,
        level,
        target: "test".to_string(),
        message: message.to_string(),
    }
}

#[test]
fn saturation_coalesces_low_levels_and_preserves_warning_visibility() {
    let mut queue = LogQueue::bounded(4, 1).unwrap();

    assert!(queue.try_enqueue(test_record(Level::Info, "first")));
    assert!(queue.try_enqueue(test_record(Level::Debug, "second")));
    assert!(queue.try_enqueue(test_record(Level::Trace, "third")));
    assert!(!queue.try_enqueue_with(Level::Trace, || {
        panic!("a saturated producer must not format its record")
    }));
    assert!(!queue.try_enqueue(test_record(Level::Debug, "drop-debug")));
    assert!(!queue.try_enqueue(test_record(Level::Info, "drop-info")));
    assert!(queue.try_enqueue(test_record(Level::Warn, "visible-warning")));
    assert!(!queue.try_enqueue(test_record(Level::Error, "overflow-error")));

    let messages = (0..4)
        .map(|_| match queue.receive().unwrap() {
            WriterCommand::Record(record) => record.message,
            WriterCommand::Flush(_) | WriterCommand::Shutdown(_) => {
                panic!("unexpected control message")
            }
        })
        .collect::<Vec<_>>();
    assert_eq!(messages, ["first", "second", "third", "visible-warning"]);
    assert!(queue.receive().is_none());

    let dropped = queue.dropped.take();
    let mut report = String::new();
    for (level, message) in report_dropped(&dropped) {
        report.push_str(&QueuedRecord::internal(0, level, message).line("now"));
    }
    assert!(report.contains("dropped trace=1 debug=1 info=1"));
    assert!(report.contains("dropped warning=0 error=1"));
    assert!(!report.contains("overflow-error"));
    assert_eq!(report.matches("log queue saturated").count(), 1);
    assert!(report_dropped(&queue.dropped.take()).is_empty());
}

/// Files in memory: the log and its backups.
struct Files {
    log: RotatingFile,
    contents: Vec<Option<Vec<u8>>>,
}

impl Files {
    fn open(existing: Option<&[u8]>, max_bytes: u64, backups: usize) -> Files {
        let length = existing.map(|bytes| bytes.len() as u64);
        let (log, rotate) = RotatingFile::open(length, max_bytes, backups).unwrap();
        let mut contents = vec![None; backups + 2];
        contents[0] = existing.map(|bytes| bytes.to_vec());
        let mut files = Files { log, contents };
        if rotate {
            files.rotate();
        }
        files
    }

    fn rotate(&mut self) {
        match rotate_files(self.log.backups) {
            None => self.contents[0] = None,
            Some(moves) => {
                for Move { from, to } in moves {
                    if self.contents[from].is_some() {
                        self.contents[to] = self.contents[from].take();
                    }
                }
            }
        }
        self.log.rotated();
    }

    fn write(&mut self, bytes: &[u8]) {
        if self.log.must_rotate(bytes.len() as u64) {
            self.rotate();
        }
        self.contents[0].get_or_insert_with(Vec::new).extend_from_slice(bytes);
        self.log.wrote(bytes.len() as u64);
    }
}

#[test]
fn rotates_at_the_size_limit_and_retains_bounded_backups() {
    let mut files = Files::open(None, 8, 2);

    files.write(b"12345678");
    files.write(b"abcdefgh");
    files.write(b"ABCDEFGH");

    assert_eq!(files.contents[0].as_deref(), Some(&b"ABCDEFGH"[..]));
    assert_eq!(files.contents[1].as_deref(), Some(&b"abcdefgh"[..]));
    assert_eq!(files.contents[2].as_deref(), Some(&b"12345678"[..]));
    assert_eq!(files.contents[3], None);
    files.write(b"x");
    assert_eq!(files.contents[2].as_deref(), Some(&b"abcdefgh"[..]));
}

#[test]
fn rotates_an_oversized_existing_log_on_open() {
    let mut files = Files::open(Some(b"oversized"), 4, 1);
    files.write(b"new");

    assert_eq!(files.contents[0].as_deref(), Some(&b"new"[..]));
    assert_eq!(files.contents[1].as_deref(), Some(&b"oversized"[..]));
}

#[test]
fn logs_without_backups_are_deleted() {
    let mut files = Files::open(None, 4, 0);
    files.write(b"old!");
    files.write(b"new");
    assert_eq!(files.contents[0].as_deref(), Some(&b"new"[..]));
    assert_eq!(files.contents[1], None);
    assert!(matches!(RotatingFile::open(None, 0, 1), Err(LogError::InvalidSize)));
    assert_eq!(backup_path("helix.log", 2), "helix.log.2");
    let mut log = RotatingFile { max_bytes: 8, backups: 1, bytes_written: 3 };
    log.rotation_failed(Some(6));
    assert_eq!(log.bytes_written, 6);
    log.rotation_failed(None);
    assert_eq!(log.bytes_written, 0);
}

#[test]
fn flushes_and_shutdowns_pass_a_full_queue_in_order() {
    let mut queue = LogQueue::bounded(2, 1).unwrap();
    assert!(queue.try_enqueue(test_record(Level::Error, "before-flush")));
    assert!(queue.send_control(WriterCommand::Flush(1)).unwrap());
    assert!(matches!(queue.receive(), Some(WriterCommand::Record(_))));
    assert!(matches!(queue.receive(), Some(WriterCommand::Flush(1))));
    queue.disconnected = true;
    assert!(matches!(
        queue.send_control(WriterCommand::Shutdown(2)),
        Err(LogError::WriterUnavailable)
    ));
    assert!(matches!(writer_unavailable(), LogError::WriterUnavailable));
    assert!(matches!(LogQueue::bounded(0, 0), Err(LogError::InvalidCapacity)));
    assert!(!LogError::InvalidCapacity.message().is_empty());
    assert_eq!(LogError::InvalidSize.message(), "maximum log size must be greater than zero");
}

#[test]
fn writers_flush_when_it_is_due() {
    let step = |write, flush, answer, stop| WriterStep { write, flush, answer, stop };
    assert_eq!(writer_step(WriterEvent::Record, 10, 250), step(true, false, false, false));
    assert_eq!(writer_step(WriterEvent::Record, 250, 250), step(true, true, false, false));
    assert_eq!(writer_step(WriterEvent::Flush, 0, 250), step(false, true, true, false));
    assert_eq!(writer_step(WriterEvent::Shutdown, 0, 250), step(false, true, true, true));
    assert_eq!(writer_step(WriterEvent::Timeout, 0, 250), step(false, true, false, false));
    assert_eq!(writer_step(WriterEvent::Disconnected, 0, 250), step(false, true, false, true));

    let mut pending = None;
    remember_writer_error(&mut pending, Err("disk full".to_string()));
    remember_writer_error(&mut pending, Err("later".to_string()));
    remember_writer_error(&mut pending, Ok(()));
    assert_eq!(flush_result(&mut pending), Err("disk full".to_string()));
    assert_eq!(flush_result(&mut pending), Ok(()));
}

#[test]
fn long_texts_are_cut_between_characters() {
    assert_eq!(bounded_str("short", 10), "short");
    let long = "ä".repeat(40);
    let cut = bounded_str(&long, 31);
    assert!(cut.len() <= 31);
    assert!(cut.starts_with("ää"));
    assert!(cut.ends_with("[truncated]") || cut.contains("truncated"));
    assert_eq!(bounded_string(long.clone(), 31), cut);
    assert_eq!(bounded_string(long.clone(), 80), long);
}

#[test]
fn records_become_lines() {
    let record = QueuedRecord::from_log(0, Level::Warn, "helix", "careful".to_string());
    assert_eq!(record.line("2024-01-02T03:04:05.678"), "2024-01-02T03:04:05.678 helix [WARN] careful\n");
    assert_eq!(Level::Error.as_str(), "ERROR");
    assert!(is_low_priority(Level::Info));
    assert!(!is_low_priority(Level::Warn));
    let mut dropped = DroppedRecords::none();
    dropped.increment(Level::Info);
    assert!(dropped.has_low_priority());
    assert!(!dropped.has_high_priority());
}

#[test]
fn verbosity_sets_the_level() {
    let levels: Vec<LevelFilter> = (0..5).map(|verbosity| setup(verbosity).level).collect();
    assert_eq!(
        levels,
        vec![
            LevelFilter::Warn,
            LevelFilter::Info,
            LevelFilter::Debug,
            LevelFilter::Trace,
            LevelFilter::Trace,
        ]
    );
    assert!(LevelFilter::Warn.enabled(Level::Error));
    assert!(!LevelFilter::Warn.enabled(Level::Info));
    assert!(!LevelFilter::Off.enabled(Level::Error));
    let config = setup(0).config;
    assert_eq!(config.max_bytes, MAX_LOG_BYTES);
    assert_eq!(config.backups, LOG_BACKUPS);
}
