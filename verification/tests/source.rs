use fusion::config::convert::ConvertTask;
use fusion::config::utils::ProbeMismatch;
use fusion::fusion::source::{Source, SourceEntry, SourceProbe, SourceRecord};
use std::path::Path;

fn record(file: &str, modified_at: u64) -> SourceRecord {
    SourceRecord { file: file.into(), modified_at }
}

fn probe(modified_at: u64, destination_exists: bool) -> SourceProbe {
    SourceProbe { source_is_file: true, modified_at, destination_exists }
}

fn task(source: &str) -> ConvertTask {
    ConvertTask {
        source: source.into(),
        destination: format!("{}.pdf", source),
        source_size: 1,
        script: "scripts".into(),
    }
}

#[test]
fn a_source_is_updated_once_it_is_modified_after_its_record() {
    let source = Source::new("ws", vec![record("f", 100)]);
    assert!(!source.is_updated(&"f".to_string(), &probe(100, true)));
    assert!(source.is_updated(&"f".to_string(), &probe(101, true)));
    assert!(!source.is_updated(&"f".to_string(), &probe(99, true)));
}

#[test]
fn a_missing_destination_forces_the_conversion() {
    let source = Source::new("ws", vec![record("f", 100)]);
    assert!(source.is_updated(&"f".to_string(), &probe(100, false)));
}

#[test]
fn a_source_without_record_is_updated() {
    let source = Source::new("ws", vec![record("f", 100)]);
    assert!(source.is_updated(&"g".to_string(), &probe(0, true)));
    assert_eq!(source.last_modified(&"g".to_string()), None);
}

#[test]
fn a_source_that_is_no_file_is_updated() {
    let source = Source::new("ws", vec![record("f", 100)]);
    let probe = SourceProbe { source_is_file: false, modified_at: 0, destination_exists: true };
    assert!(source.is_updated(&"f".to_string(), &probe));
}

#[test]
fn the_last_record_of_a_source_counts() {
    let source = Source::new("ws", vec![record("f", 100), record("g", 5), record("f", 200)]);
    assert_eq!(source.last_modified(&"f".to_string()), Some(200));
    assert!(!source.is_updated(&"f".to_string(), &probe(150, true)));
}

#[test]
fn the_record_is_kept_in_the_workspace() {
    let source = Source::new("ws", vec![]);
    let expected = Path::new("ws").join("source.json").to_string_lossy().into_owned();
    assert_eq!(source.filepath(), &expected);
}

#[test]
fn filter_keeps_the_updated_tasks_in_order() {
    let source = Source::new("ws", vec![record("a", 10), record("b", 10), record("c", 10)]);
    let tasks = vec![task("a"), task("b"), task("c"), task("d")];
    let probes = vec![probe(11, true), probe(10, true), probe(10, false), probe(0, true)];
    let filtered = source.filter_convert_tasks(&tasks, &probes).unwrap();
    let names: Vec<&str> = filtered.iter().map(|t| t.source.as_str()).collect();
    assert_eq!(names, vec!["a", "c", "d"]);
    assert_eq!(filtered[1].destination, "c.pdf");
}

#[test]
fn filter_wants_one_probe_per_task() {
    let source = Source::new("ws", vec![]);
    let tasks = vec![task("a"), task("b")];
    assert_eq!(source.filter_convert_tasks(&tasks, &vec![probe(1, true)]).err(), Some(ProbeMismatch));
}

#[test]
fn update_source_records_the_rtf_files() {
    let source = Source::new("ws", vec![]);
    let entries = vec![
        SourceEntry { file_name: "a.rtf".into(), is_file: true, modified_at: 1 },
        SourceEntry { file_name: "b.pdf".into(), is_file: true, modified_at: 2 },
        SourceEntry { file_name: "c.rtf".into(), is_file: false, modified_at: 3 },
        SourceEntry { file_name: "rtf".into(), is_file: true, modified_at: 4 },
        SourceEntry { file_name: "d.rtf".into(), is_file: true, modified_at: 5 },
    ];
    let records = source.update_source("out", &entries);
    assert_eq!(records.len(), 2);
    assert_eq!(records[0].file, Path::new("out").join("a.rtf").to_string_lossy());
    assert_eq!(records[0].modified_at, 1);
    assert_eq!(records[1].file, Path::new("out").join("d.rtf").to_string_lossy());
    assert_eq!(records[1].modified_at, 5);
}
