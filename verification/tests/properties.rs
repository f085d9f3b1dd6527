use path_template::ident::is_identifier;
use path_template::step::Step;

#[test]
fn plain_string_compiles_to_itself() {
    let step = Step::new("a.b*c(d)").unwrap();
    assert_eq!(step.generalized_text(), step.raw_text());
    assert_eq!(step.literal_parts(), &vec!["a.b*c(d)"]);
    assert_eq!(step.placeholder_names(), &(vec![] as Vec<String>));
}

#[test]
fn empty_template_compiles_and_matches_empty() {
    let step = Step::new("").unwrap();
    assert_eq!(step.literal_parts(), &vec![""]);
    assert_eq!(step.placeholder_names(), &(vec![] as Vec<String>));
    assert_eq!(step.match_segment(""), Some(vec![]));
    assert!(step.match_segment("x").is_none());
}

#[test]
fn parts_outnumber_names_by_one() {
    let step = Step::new("{a}x{b}y{c}").unwrap();
    assert_eq!(
        step.literal_parts().len(),
        step.placeholder_names().len() + 1
    );
    let step = Step::new("no placeholders").unwrap();
    assert_eq!(
        step.literal_parts().len(),
        step.placeholder_names().len() + 1
    );
}

#[test]
fn empty_placeholder_name_is_rejected() {
    assert!(Step::new("foo{}baz").is_err());
}

#[test]
fn name_with_space_is_rejected() {
    assert!(Step::new("foo{a b}baz").is_err());
}

#[test]
fn name_starting_with_digit_is_rejected() {
    assert!(Step::new("foo{1a}baz").is_err());
}

#[test]
fn unicode_letters_make_identifiers() {
    assert!(is_identifier("caf\u{e9}"));
    let step = Step::new("x{caf\u{e9}}y").unwrap();
    assert_eq!(step.placeholder_names(), &vec!["caf\u{e9}"]);
    assert_eq!(step.match_segment("x12y").unwrap(), vec!["12"]);
}

#[test]
fn underscore_identifiers_are_accepted() {
    let step = Step::new("{_a}-{b_}").unwrap();
    assert_eq!(step.placeholder_names(), &vec!["_a", "b_"]);
}

#[test]
fn compilation_is_deterministic() {
    let a = Step::new("foo{bar}baz{qux}frub").unwrap();
    let b = Step::new("foo{bar}baz{qux}frub").unwrap();
    assert_eq!(a.raw_text(), b.raw_text());
    assert_eq!(a.generalized_text(), b.generalized_text());
    assert_eq!(a.literal_parts(), b.literal_parts());
    assert_eq!(a.placeholder_names(), b.placeholder_names());
}

#[test]
fn reassembling_parts_and_names_reproduces_raw() {
    let raw = "foo{bar}baz{qux}frub";
    let step = Step::new(raw).unwrap();
    let parts = step.literal_parts();
    let names = step.placeholder_names();
    let mut rebuilt = String::new();
    rebuilt.push_str(&parts[0]);
    for i in 0..names.len() {
        rebuilt.push('{');
        rebuilt.push_str(&names[i]);
        rebuilt.push('}');
        rebuilt.push_str(&parts[i + 1]);
    }
    assert_eq!(&rebuilt, step.raw_text());
}

#[test]
fn captures_are_greedy() {
    let step = Step::new("{a}x{b}").unwrap();
    assert_eq!(step.match_segment("1x2x3").unwrap(), vec!["1x2", "3"]);
}

#[test]
fn match_needs_nonempty_captures() {
    let step = Step::new("start{a}end").unwrap();
    assert!(step.match_segment("startend").is_none());
    assert_eq!(step.match_segment("startXend").unwrap(), vec!["X"]);
}

#[test]
fn match_respects_literal_boundaries() {
    let step = Step::new("start{a}end").unwrap();
    assert!(step.match_segment("xstartAend").is_none());
    assert!(step.match_segment("startAendx").is_none());
    assert!(step.match_segment("strtAend").is_none());
}

#[test]
fn whole_segment_must_match_without_variables() {
    let step = Step::new("foo").unwrap();
    assert!(step.match_segment("xfooy").is_none());
    assert_eq!(step.match_segment("foo"), Some(vec![]));
}

#[test]
fn literal_metacharacters_match_literally() {
    let step = Step::new("a.b{n}c*").unwrap();
    assert_eq!(step.match_segment("a.bXc*").unwrap(), vec!["X"]);
    assert!(step.match_segment("aWbXc*").is_none());
}

#[test]
fn parse_error_is_one_kind() {
    let e1 = Step::new("{bar").unwrap_err();
    let e2 = Step::new("foo{bar}baz{bar}").unwrap_err();
    assert_eq!(e1, e2);
}

#[test]
fn brace_inside_body_is_rejected() {
    assert!(Step::new("{a{b}").is_err());
    assert!(Step::new("{{a}}").is_err());
}
