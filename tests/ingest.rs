use dataset_ops::ingest::{is_supported_source, supported_extension, Action, Event, Ingestion, Outcome};

#[test]
fn csv_sources_are_supported() {
    assert!(is_supported_source("songs.csv"));
    assert!(is_supported_source("data/dir.v2/songs.csv"));
    assert!(!is_supported_source("songs.tsv"));
    assert!(!is_supported_source("songs.json"));
    assert!(!is_supported_source("songs"));
    assert!(!is_supported_source(".csv"));
    assert!(!is_supported_source("songs.CSV"));
}

#[test]
fn extension_check() {
    assert!(supported_extension(&Some("csv".to_string())));
    assert!(!supported_extension(&Some("cs".to_string())));
    assert!(!supported_extension(&Some("csvx".to_string())));
    assert!(!supported_extension(&None));
}

#[test]
fn five_rows_are_imported() {
    let (mut ing, first) = Ingestion::new("songs.csv");
    assert_eq!(first, Action::ProbeTable);
    assert_eq!(ing.step(Event::TableProbed(false)), Action::CreateSchema);
    assert_eq!(ing.step(Event::SchemaCreated), Action::OpenSource);
    assert_eq!(ing.step(Event::SourceOpened), Action::ReadRow);
    for _ in 0..5 {
        assert_eq!(ing.step(Event::RowRead), Action::InsertRow);
        assert_eq!(ing.step(Event::RowInserted), Action::ReadRow);
    }
    assert_eq!(ing.step(Event::SourceEnded), Action::Finish(Outcome::Imported(5)));
    assert_eq!(ing.step(Event::RowRead), Action::Finish(Outcome::Imported(5)));
}

#[test]
fn second_run_is_a_no_op() {
    let (mut ing, _) = Ingestion::new("songs.csv");
    assert_eq!(ing.step(Event::TableProbed(true)), Action::Finish(Outcome::AlreadyPopulated));
    assert_eq!(ing.step(Event::SchemaCreated), Action::Finish(Outcome::AlreadyPopulated));
    assert_eq!(ing.inserted, 0);
}

#[test]
fn unsupported_source_is_rejected_before_reading() {
    let (mut ing, _) = Ingestion::new("songs.txt");
    assert_eq!(ing.step(Event::TableProbed(false)), Action::CreateSchema);
    assert_eq!(ing.step(Event::SchemaCreated), Action::Finish(Outcome::UnsupportedFormat));
    assert_eq!(ing.step(Event::SourceOpened), Action::Finish(Outcome::UnsupportedFormat));
}

#[test]
fn first_failure_stops_the_import() {
    let (mut ing, _) = Ingestion::new("songs.csv");
    ing.step(Event::TableProbed(false));
    ing.step(Event::SchemaCreated);
    ing.step(Event::SourceOpened);
    assert_eq!(ing.step(Event::RowRead), Action::InsertRow);
    assert_eq!(ing.step(Event::RowInserted), Action::ReadRow);
    assert_eq!(ing.step(Event::Failed), Action::Finish(Outcome::Failed));
    assert_eq!(ing.step(Event::RowRead), Action::Finish(Outcome::Failed));
    assert_eq!(ing.inserted, 1);
}

#[test]
fn unexpected_event_fails() {
    let (mut ing, _) = Ingestion::new("songs.csv");
    assert_eq!(ing.step(Event::RowInserted), Action::Finish(Outcome::Failed));
}
