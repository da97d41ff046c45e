use alias2fish::alias::Alias;
use alias2fish::errors::ApplicationError;

#[test]
fn single_alias_line() {
    let v = Alias::parse(String::from("alias ll=ls -la")).unwrap();
    assert_eq!(v.len(), 1);
    assert_eq!(v[0].name, "ll");
    assert_eq!(v[0].cmd, "ls -la");
}

#[test]
fn name_and_command_are_trimmed() {
    let v = Alias::parse(String::from("alias  gs =  git status  ")).unwrap();
    assert_eq!(v.len(), 1);
    assert_eq!(v[0].name, "gs");
    assert_eq!(v[0].cmd, "git status");
}

#[test]
fn non_alias_lines_are_skipped() {
    let v = Alias::parse(String::from("# alias x=y\nexport FOO=bar")).unwrap();
    assert_eq!(v.len(), 0);
}

#[test]
fn unalias_line_is_ignored() {
    let v = Alias::parse(String::from("alias foo=bar\nunalias foo")).unwrap();
    assert_eq!(v.len(), 1);
    assert_eq!(v[0].name, "foo");
    assert_eq!(v[0].cmd, "bar");
}

#[test]
fn records_keep_line_order() {
    let v = Alias::parse(String::from("alias a=1\nignored\nalias b=2")).unwrap();
    assert_eq!(v.len(), 2);
    assert_eq!(v[0].name, "a");
    assert_eq!(v[1].name, "b");
}

#[test]
fn malformed_line_without_equals_is_an_error() {
    let r = Alias::parse(String::from("alias noequals"));
    assert!(matches!(r, Err(ApplicationError::MalformedAliasLine)));
}

#[test]
fn malformed_line_aborts_the_whole_parse() {
    let r = Alias::parse(String::from("alias good=ok\nalias broken"));
    assert!(matches!(r, Err(ApplicationError::MalformedAliasLine)));
}

#[test]
fn bare_alias_keyword_is_malformed() {
    let r = Alias::parse(String::from("alias"));
    assert!(matches!(r, Err(ApplicationError::MalformedAliasLine)));
}

#[test]
fn keyword_prefix_is_matched_naively() {
    let v = Alias::parse(String::from("aliases x=y")).unwrap();
    assert_eq!(v.len(), 1);
    assert_eq!(v[0].name, "es x");
    assert_eq!(v[0].cmd, "y");
}

#[test]
fn empty_name_is_rejected() {
    let r = Alias::parse(String::from("alias =x"));
    assert!(matches!(r, Err(ApplicationError::MalformedAliasLine)));
}

#[test]
fn name_with_path_separator_is_rejected() {
    let r = Alias::parse(String::from("alias a/b=c"));
    assert!(matches!(r, Err(ApplicationError::MalformedAliasLine)));
}

#[test]
fn command_keeps_everything_after_the_first_equals() {
    let v = Alias::parse(String::from("alias e=env FOO=bar cmd")).unwrap();
    assert_eq!(v.len(), 1);
    assert_eq!(v[0].name, "e");
    assert_eq!(v[0].cmd, "env FOO=bar cmd");
}

#[test]
fn empty_input_yields_no_records() {
    let v = Alias::parse(String::from("")).unwrap();
    assert_eq!(v.len(), 0);
}

#[test]
fn lone_newline_yields_no_records() {
    let v = Alias::parse(String::from("\n")).unwrap();
    assert_eq!(v.len(), 0);
}

#[test]
fn trailing_newline_is_harmless() {
    let v = Alias::parse(String::from("alias ll=ls -la\n")).unwrap();
    assert_eq!(v.len(), 1);
    assert_eq!(v[0].name, "ll");
    assert_eq!(v[0].cmd, "ls -la");
}

#[test]
fn carriage_return_stays_in_the_command() {
    let v = Alias::parse(String::from("alias a=b\r\nalias c=d")).unwrap();
    assert_eq!(v.len(), 2);
    assert_eq!(v[0].cmd, "b\r");
    assert_eq!(v[1].cmd, "d");
}

#[test]
fn new_binds_the_fields() {
    let a = Alias::new(String::from("x"), String::from("y"));
    assert_eq!(a.name, "x");
    assert_eq!(a.cmd, "y");
}

#[test]
fn function_renders_the_block() {
    let v = Alias::parse(String::from("alias ll=ls -la")).unwrap();
    assert_eq!(v[0].function(), "function ll\n\tls -la\nend");
}

#[test]
fn function_has_no_trailing_newline() {
    let a = Alias::new(String::from("g"), String::from("git"));
    assert_eq!(a.function(), "function g\n\tgit\nend");
}
