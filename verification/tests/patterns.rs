use texlog::error::ProcessError;
use texlog::matcher::Pattern;
use texlog::rules::{MissingPackage, Rule};
use texlog::utils::PatternBuilder;

fn source(builder: PatternBuilder) -> String {
    builder.compile().unwrap().as_str().to_string()
}

#[test]
fn new_builder_is_empty() {
    assert_eq!(source(PatternBuilder::new()), "");
}

#[test]
fn raw_appends_as_it_is() {
    assert_eq!(source(PatternBuilder::new().raw("ab").raw("c+")), "abc+");
}

#[test]
fn line_appends_the_end_of_the_line() {
    assert_eq!(source(PatternBuilder::new().line("ab")), r"ab\n");
    assert_eq!(source(PatternBuilder::new().raw("x").line("").line("y")), r"x\ny\n");
}

#[test]
fn error_starts_with_the_error_mark() {
    assert_eq!(source(PatternBuilder::new().error("Oops")), r"! Oops\n");
}

#[test]
fn any_on_line_takes_a_whole_line() {
    assert_eq!(source(PatternBuilder::new().any_on_line()), r".*\n");
}

#[test]
fn location_names_the_line() {
    assert_eq!(source(PatternBuilder::new().location()), r"l\.(\d+) ");
}

#[test]
fn location_with_arg_captures_the_rest() {
    assert_eq!(source(PatternBuilder::new().location_with_arg()), r"l\.(\d+) (.+)");
}

#[test]
fn built_pattern_matches_what_it_describes() {
    let pattern = PatternBuilder::new().error("Oops").any_on_line().location_with_arg();
    let re = pattern.compile().unwrap();
    let found = MissingPackage.captures(&re, "! Oops\nwhatever\nl.12 rest of it\n");
    assert_eq!(found.len(), 1);
    assert_eq!(found[0].get(1), Some(&"12".to_string()));
    assert_eq!(found[0].get(2), Some(&"rest of it".to_string()));
    assert!(MissingPackage.captures(&re, "! Oops\nl.12 rest").is_empty());
}

#[test]
fn pattern_that_the_engine_refuses() {
    assert_eq!(
        PatternBuilder::new().raw("(").compile().err(),
        Some(ProcessError::PatternRejected)
    );
    assert_eq!(
        PatternBuilder::new().raw(r"\w{1000}").line("x").compile().err(),
        Some(ProcessError::PatternRejected)
    );
}

#[test]
fn pattern_is_compiled_from_its_text() {
    let pattern = Pattern::new(r"a(b+)c").unwrap();
    assert_eq!(pattern.as_str(), r"a(b+)c");
    let found = MissingPackage.captures(&pattern, "xabbc ac abc");
    assert_eq!(found.len(), 2);
    assert_eq!(found[0].groups, vec![Some("abbc".to_string()), Some("bb".to_string())]);
    assert_eq!(found[1].groups, vec![Some("abc".to_string()), Some("b".to_string())]);
    assert_eq!(Pattern::new(r"a(b").err(), Some(ProcessError::PatternRejected));
    assert_eq!(Pattern::new(r"[").err(), Some(ProcessError::PatternRejected));
    assert!(Pattern::new("").is_ok());
}

#[test]
fn pattern_matches_with_regard_to_case() {
    let pattern = Pattern::new("a").unwrap();
    assert!(MissingPackage.captures(&pattern, "A").is_empty());
    assert_eq!(MissingPackage.captures(&pattern, "a").len(), 1);
}
