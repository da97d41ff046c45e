use alias2fish::errors::ApplicationError;
use alias2fish::locate::locate;
use alias2fish::locate::output_file_path;
use alias2fish::pipeline::plan;

#[test]
fn missing_home_directory_is_reported() {
    let r = locate(None, None);
    assert!(matches!(r, Err(ApplicationError::NoHomeDirectory)));
}

#[test]
fn missing_home_directory_wins_over_explicit_input() {
    let r = locate(None, Some("/tmp/aliases"));
    assert!(matches!(r, Err(ApplicationError::NoHomeDirectory)));
}

#[test]
fn default_paths_come_from_home() {
    let p = locate(Some("/home/u"), None).unwrap();
    assert_eq!(p.input, "/home/u/.alias");
    assert_eq!(p.output_dir, "/home/u/.config/fish/functions/");
}

#[test]
fn explicit_input_overrides_the_default() {
    let p = locate(Some("/home/u"), Some("/tmp/aliases")).unwrap();
    assert_eq!(p.input, "/tmp/aliases");
    assert_eq!(p.output_dir, "/home/u/.config/fish/functions/");
}

#[test]
fn output_file_path_appends_name_and_extension() {
    let p = output_file_path("/home/u/.config/fish/functions/", "ll");
    assert_eq!(p, "/home/u/.config/fish/functions/ll.fish");
}

#[test]
fn plan_round_trip() {
    let files = plan("alias ll=ls -la", "/home/u/.config/fish/functions/").unwrap();
    assert_eq!(files.len(), 1);
    assert_eq!(files[0].0, "/home/u/.config/fish/functions/ll.fish");
    assert_eq!(files[0].1, "function ll\n\tls -la\nend");
}

#[test]
fn plan_twice_is_byte_identical() {
    let text = "alias ll=ls -la\n# comment\nalias gs=git status";
    let first = plan(text, "/home/u/.config/fish/functions/").unwrap();
    let second = plan(text, "/home/u/.config/fish/functions/").unwrap();
    assert_eq!(first, second);
}

#[test]
fn plan_keeps_record_order() {
    let files = plan("alias a=1\nalias b=2", "/d/").unwrap();
    assert_eq!(files.len(), 2);
    assert_eq!(files[0].0, "/d/a.fish");
    assert_eq!(files[1].0, "/d/b.fish");
}

#[test]
fn plan_propagates_the_parse_error() {
    let r = plan("alias broken", "/d/");
    assert!(matches!(r, Err(ApplicationError::MalformedAliasLine)));
}

#[test]
fn plan_writes_nothing_for_non_alias_text() {
    let files = plan("just some notes\nexport A=B", "/d/").unwrap();
    assert_eq!(files.len(), 0);
}

#[test]
fn error_messages_are_fixed() {
    assert_eq!(
        ApplicationError::NoHomeDirectory.message(),
        "couldn't find home directory"
    );
    assert_eq!(ApplicationError::OpeningFile.message(), "couldn't open file");
    assert_eq!(ApplicationError::ReadingFile.message(), "couldn't read file");
    assert_eq!(ApplicationError::CreatingFile.message(), "couldn't create file");
    assert_eq!(ApplicationError::WritingFile.message(), "couldn't write file");
    assert_eq!(
        ApplicationError::MalformedAliasLine.message(),
        "malformed alias line"
    );
}

#[test]
fn error_kinds_are_distinct() {
    assert_ne!(ApplicationError::OpeningFile, ApplicationError::ReadingFile);
    assert_eq!(ApplicationError::WritingFile, ApplicationError::WritingFile);
}
