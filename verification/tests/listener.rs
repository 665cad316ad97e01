use collector::args::{argument_value, resolve_port};
use collector::collect::{join_output, Collector, Handled};
use collector::request::{parse_target, split_fields};

fn request(line: &str) -> Vec<String> {
    vec![line.to_string()]
}

#[test]
fn argument_value_found() {
    let args = vec!["prog".to_string(), "--port".to_string(), "7000".to_string()];
    assert_eq!(argument_value("--port", &args), Ok("7000".to_string()));
}

#[test]
fn argument_value_absent() {
    let args = vec!["prog".to_string(), "7000".to_string()];
    assert_eq!(argument_value("--port", &args), Err(()));
}

#[test]
fn argument_value_flag_is_last() {
    let args = vec!["prog".to_string(), "--port".to_string()];
    assert_eq!(argument_value("--port", &args), Err(()));
}

#[test]
fn argument_value_first_occurrence_wins() {
    let args = vec![
        "prog".to_string(),
        "-p".to_string(),
        "1111".to_string(),
        "-p".to_string(),
        "2222".to_string(),
    ];
    assert_eq!(argument_value("-p", &args), Ok("1111".to_string()));
}

#[test]
fn resolve_port_long_flag() {
    let args = vec!["prog".to_string(), "--port".to_string(), "7000".to_string()];
    assert_eq!(resolve_port(&args), ("7000".to_string(), false));
}

#[test]
fn resolve_port_short_flag() {
    let args = vec!["prog".to_string(), "-p".to_string(), "8080".to_string()];
    assert_eq!(resolve_port(&args), ("8080".to_string(), false));
}

#[test]
fn resolve_port_long_flag_wins() {
    let args = vec![
        "prog".to_string(),
        "-p".to_string(),
        "1111".to_string(),
        "--port".to_string(),
        "2222".to_string(),
    ];
    assert_eq!(resolve_port(&args), ("2222".to_string(), false));
}

#[test]
fn resolve_port_flag_without_value() {
    let args = vec!["prog".to_string(), "--port".to_string()];
    assert_eq!(resolve_port(&args), ("6969".to_string(), true));
}

#[test]
fn resolve_port_present_long_flag_shadows_short() {
    let args = vec![
        "prog".to_string(),
        "-p".to_string(),
        "1234".to_string(),
        "--port".to_string(),
    ];
    assert_eq!(resolve_port(&args), ("6969".to_string(), true));
}

#[test]
fn resolve_port_default() {
    let args = vec!["prog".to_string()];
    assert_eq!(resolve_port(&args), ("6969".to_string(), true));
}

#[test]
fn parse_target_well_formed() {
    assert_eq!(
        parse_target("GET a;b;c HTTP/1.1"),
        Some("a;b;c".to_string())
    );
}

#[test]
fn parse_target_empty_target() {
    assert_eq!(parse_target("GET  HTTP/1.1"), Some("".to_string()));
}

#[test]
fn parse_target_missing_prefix() {
    assert_eq!(parse_target("POST a;b HTTP/1.1"), None);
}

#[test]
fn parse_target_missing_suffix() {
    assert_eq!(parse_target("GET a;b HTTP/1.0"), None);
}

#[test]
fn parse_target_too_short() {
    assert_eq!(parse_target("GET HTTP/1.1"), None);
}

#[test]
fn split_keeps_empty_fields() {
    assert_eq!(
        split_fields("a;;b"),
        vec!["a".to_string(), "".to_string(), "b".to_string()]
    );
}

#[test]
fn split_without_delimiter() {
    assert_eq!(split_fields("abc"), vec!["abc".to_string()]);
}

#[test]
fn split_empty_target() {
    assert_eq!(split_fields(""), vec!["".to_string()]);
}

#[test]
fn split_trailing_delimiter() {
    assert_eq!(split_fields("a;"), vec!["a".to_string(), "".to_string()]);
}

#[test]
fn run_accumulates_then_ends() {
    let mut c = Collector::new();
    let r = c.handle_request(&request("GET a;b;c HTTP/1.1"));
    assert!(matches!(r, Ok(Handled::Stored(_))));
    assert!(!c.done);
    let r = c.handle_request(&request("GET END HTTP/1.1"));
    assert!(matches!(r, Ok(Handled::Finished)));
    assert!(c.done);
    assert_eq!(join_output(&c.output), "\na\nb\nc".to_string());
}

#[test]
fn empty_run_yields_empty_content() {
    let mut c = Collector::new();
    let r = c.handle_request(&request("GET END HTTP/1.1"));
    assert!(matches!(r, Ok(Handled::Finished)));
    assert_eq!(join_output(&c.output), "".to_string());
}

#[test]
fn stored_fields_keep_empty_fields() {
    let mut c = Collector::new();
    let r = c.handle_request(&request("GET a;;b HTTP/1.1"));
    match r {
        Ok(Handled::Stored(fields)) => {
            assert_eq!(
                fields,
                vec!["a".to_string(), "".to_string(), "b".to_string()]
            );
        }
        _ => panic!("expected stored fields"),
    }
    assert_eq!(
        c.output,
        vec!["a".to_string(), "".to_string(), "b".to_string()]
    );
}

#[test]
fn malformed_line_is_an_error() {
    let mut c = Collector::new();
    let r = c.handle_request(&request("GET a;b"));
    assert!(matches!(r, Err(())));
    assert!(c.output.is_empty());
    assert!(!c.done);
}

#[test]
fn empty_connection_changes_nothing() {
    let mut c = Collector::new();
    c.handle_request(&request("GET x HTTP/1.1")).unwrap();
    let r = c.handle_request(&Vec::new());
    assert!(matches!(r, Ok(Handled::Empty)));
    assert_eq!(c.output, vec!["x".to_string()]);
    assert!(!c.done);
}

#[test]
fn sentinel_is_case_sensitive() {
    let mut c = Collector::new();
    let r = c.handle_request(&request("GET end HTTP/1.1"));
    assert!(matches!(r, Ok(Handled::Stored(_))));
    assert!(!c.done);
    assert_eq!(c.output, vec!["end".to_string()]);
}

#[test]
fn later_header_lines_are_ignored() {
    let mut c = Collector::new();
    let lines = vec!["GET a HTTP/1.1".to_string(), "Host: nowhere".to_string()];
    let r = c.handle_request(&lines);
    assert!(matches!(r, Ok(Handled::Stored(_))));
    assert_eq!(c.output, vec!["a".to_string()]);
}

#[test]
fn duplicates_are_preserved() {
    let mut c = Collector::new();
    c.handle_request(&request("GET a;a HTTP/1.1")).unwrap();
    c.handle_request(&request("GET a HTTP/1.1")).unwrap();
    assert_eq!(
        c.output,
        vec!["a".to_string(), "a".to_string(), "a".to_string()]
    );
    assert_eq!(join_output(&c.output), "\na\na\na".to_string());
}

#[test]
fn join_output_exact() {
    let frags = vec!["x".to_string(), "y".to_string()];
    assert_eq!(join_output(&frags), "\nx\ny".to_string());
}

#[test]
fn join_output_empty() {
    assert_eq!(join_output(&Vec::new()), "".to_string());
}
