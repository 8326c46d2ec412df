use mapgen::stage_logger::{LogError, LogLevel, StageLogger};

#[test]
fn logger_path_and_records() {
    let logger = StageLogger::new("job-7", "heightmap", "./logs").unwrap();
    assert_eq!(logger.log_path(), "./logs/jobs/job-7/heightmap.log.jsonl");
    let kv = vec![("width".to_string(), "4".to_string())];
    let record = logger.info(1700, "stage_started", "Heightmap stage started", kv.clone()).unwrap();
    assert_eq!(record.ts, 1700);
    assert_eq!(record.stage, "heightmap");
    assert_eq!(record.job_id, "job-7");
    assert_eq!(record.level, "Info");
    assert_eq!(record.event, "stage_started");
    assert_eq!(record.msg, "Heightmap stage started");
    assert_eq!(record.kv, kv);
    assert_eq!(logger.warn(1, "flat", "Flat map", vec![]).unwrap().level, "Warn");
    assert_eq!(logger.error(2, "failed", "It failed", vec![]).unwrap().level, "Error");
    assert_eq!(LogLevel::Warn.as_str(), "Warn");
}

#[test]
fn logger_refuses_blank_names() {
    assert_eq!(StageLogger::new("   ", "heightmap", "./logs").err(), Some(LogError::EmptyJobId));
    assert_eq!(StageLogger::new("", "heightmap", "./logs").err(), Some(LogError::EmptyJobId));
    assert_eq!(StageLogger::new("job", " \t\n", "./logs").err(), Some(LogError::EmptyStage));
    let logger = StageLogger::new("job", "weather", "/var/log").unwrap();
    assert_eq!(logger.info(0, "  ", "msg", vec![]).err(), Some(LogError::EmptyEvent));
    assert_eq!(logger.info(0, "event", "\t", vec![]).err(), Some(LogError::EmptyMessage));
    assert!(logger.info(0, " event ", " msg ", vec![]).is_ok());
}
