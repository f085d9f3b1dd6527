use path_template::ident::is_identifier;
use path_template::step::Step;

#[test]
fn test_is_identifier() {
    assert!(is_identifier("foo"));
    assert!(is_identifier("foo123"));
    assert!(is_identifier("foo_bar"));
    assert!(is_identifier("fooBar"));
    assert!(!is_identifier("123"));
    assert!(!is_identifier("$foo"));
}

#[test]
fn test_step_new_no_variables() {
    let step = Step::new("foo").unwrap();
    assert_eq!(step.raw_text().as_str(), "foo");
    assert_eq!(step.generalized_text().as_str(), "foo");
    assert_eq!(step.literal_parts(), &vec!["foo"]);
    assert_eq!(step.placeholder_names(), &(vec![] as Vec<String>));
}

#[test]
fn test_step_new_one_variable_start() {
    let step = Step::new("{bar}baz").unwrap();
    assert_eq!(step.raw_text().as_str(), "{bar}baz");
    assert_eq!(step.generalized_text().as_str(), "{}baz");
    assert_eq!(step.literal_parts(), &vec!["", "baz"]);
    assert_eq!(step.placeholder_names(), &vec!["bar"]);
}

#[test]
fn test_step_new_one_variable_middle() {
    let step = Step::new("foo{bar}baz").unwrap();
    assert_eq!(step.raw_text().as_str(), "foo{bar}baz");
    assert_eq!(step.generalized_text().as_str(), "foo{}baz");
    assert_eq!(step.literal_parts(), &vec!["foo", "baz"]);
    assert_eq!(step.placeholder_names(), &vec!["bar"]);
}

#[test]
fn test_step_new_one_variable_end() {
    let step = Step::new("foo{bar}").unwrap();
    assert_eq!(step.raw_text().as_str(), "foo{bar}");
    assert_eq!(step.generalized_text().as_str(), "foo{}");
    assert_eq!(step.literal_parts(), &vec!["foo", ""]);
    assert_eq!(step.placeholder_names(), &vec!["bar"]);
}

#[test]
fn test_step_new_one_variable_only() {
    let step = Step::new("{bar}").unwrap();
    assert_eq!(step.raw_text().as_str(), "{bar}");
    assert_eq!(step.generalized_text().as_str(), "{}");
    assert_eq!(step.literal_parts(), &vec!["", ""]);
    assert_eq!(step.placeholder_names(), &vec!["bar"]);
}

#[test]
fn test_step_multiple_variables() {
    let step = Step::new("foo{bar}baz{qux}frub").unwrap();
    assert_eq!(step.raw_text().as_str(), "foo{bar}baz{qux}frub");
    assert_eq!(step.generalized_text().as_str(), "foo{}baz{}frub");
    assert_eq!(step.literal_parts(), &vec!["foo", "baz", "frub"]);
    assert_eq!(step.placeholder_names(), &vec!["bar", "qux"]);
}

#[test]
fn test_step_bad_variable() {
    let step = Step::new("foo{%$}baz");
    assert!(step.is_err());
}

#[test]
fn test_step_duplicate_variable() {
    let step = Step::new("foo{bar}baz{bar}");
    assert!(step.is_err());
}

#[test]
fn test_step_consecutive_variables() {
    let step = Step::new("{bar}{baz}");
    assert!(step.is_err());
}

#[test]
fn test_invalid_step_only_open() {
    let step = Step::new("{bar");
    assert!(step.is_err());
}

#[test]
fn test_invalid_step_only_close() {
    let step = Step::new("bar}");
    assert!(step.is_err());
}

#[test]
fn test_match_segment_no_variables() {
    let step = Step::new("foo").unwrap();
    assert!(step.match_segment("foo").is_some());
    assert!(step.match_segment("bar").is_none());
}

#[test]
fn test_match_segment_one_variable() {
    let step = Step::new("{bar}").unwrap();
    assert_eq!(step.match_segment("foo").unwrap(), vec!["foo"]);
}

#[test]
fn test_match_segment_two_variables() {
    let step = Step::new("start{a}middle{b}end").unwrap();
    assert_eq!(
        step.match_segment("startAmiddleBend").unwrap(),
        vec!["A", "B"]
    );
}
