use text_interpolator::TextInterpolator;

fn map_template(template: &str) -> Option<String> {
    match template {
        "verb" => Some("run".to_string()),
        "noun" => Some("place".to_string()),
        "adj" => Some("aggrivating".to_string()),
        "sentence" => Some("I've never seen someone 'verb with a 'noun before.".to_string()),
        "infinite" => Some("'infinite".to_string()),
        _ => None,
    }
}

fn endless_chain(name: &str) -> Option<String> {
    if let Some(num) = name.strip_prefix('c') {
        if let Ok(k) = num.parse::<u32>() {
            return Some(format!("'c{}", k + 1));
        }
    }
    None
}

fn short_chain(name: &str) -> Option<String> {
    match name {
        "a" => Some("'b".to_string()),
        "b" => Some("'c".to_string()),
        "c" => Some("done".to_string()),
        _ => None,
    }
}

#[test]
fn exact_substitution_with_round_trip() {
    let mut interpolator = TextInterpolator::default();
    let out = interpolator
        .interp("A 'adj 'noun will always 'verb in the morning.", &map_template)
        .unwrap();
    assert_eq!("A aggrivating place will always run in the morning.", out);
    assert!(!interpolator.contains_template(&out));
}

#[test]
fn exact_nested_substitution() {
    let mut interpolator = TextInterpolator::default();
    let out = interpolator.interp("'sentence", &map_template).unwrap();
    assert_eq!("I've never seen someone run with a place before.", out);
}

#[test]
fn prefix_and_suffix_carried_around_substitution() {
    let mut interpolator = TextInterpolator::default();
    let out = interpolator.interp("('noun)", &map_template).unwrap();
    assert_eq!("(place)", out);
}

#[test]
fn second_marker_in_token_leaves_its_name_verbatim() {
    let mut interpolator = TextInterpolator::default();
    let out = interpolator.interp("'noun'noun", &map_template).unwrap();
    assert_eq!("placenoun", out);
}

#[test]
fn whitespace_normalizes_to_single_spaces() {
    let mut interpolator = TextInterpolator::default();
    let out = interpolator.interp("  a \t 'adj\n noun  ", &map_template).unwrap();
    assert_eq!("a aggrivating noun", out);
}

#[test]
fn empty_input_gives_empty_output() {
    let mut interpolator = TextInterpolator::default();
    let out = interpolator.interp("", &map_template).unwrap();
    assert_eq!("", out);
}

#[test]
fn marker_only_token_passes_through() {
    let mut interpolator = TextInterpolator::default();
    let out = interpolator.interp("' x", &map_template).unwrap();
    assert_eq!("' x", out);
}

#[test]
fn tokens_without_template_name_never_consult_the_resolver() {
    let empty_name_resolver = |name: &str| -> Option<String> {
        if name.is_empty() { Some("SURPRISE".to_string()) } else { None }
    };
    let mut interpolator = TextInterpolator::default();
    let out = interpolator.interp("plain tokens only", &empty_name_resolver).unwrap();
    assert_eq!("plain tokens only", out);
}

#[test]
fn chain_within_recursion_limit_resolves() {
    let mut interpolator = TextInterpolator::default();
    let out = interpolator.interp("'a", &short_chain).unwrap();
    assert_eq!("done", out);
}

#[test]
fn endless_chain_of_fresh_names_hits_recursion_limit() {
    let mut interpolator = TextInterpolator::default();
    let out = interpolator.interp("'c1", &endless_chain);
    assert!(out.is_err());
}

#[test]
fn engine_reusable_after_error_and_success() {
    let mut interpolator = TextInterpolator::default();
    assert!(interpolator.interp("'infinite", &map_template).is_err());
    let after_error = interpolator.interp("A 'adj 'noun", &map_template).unwrap();
    let mut fresh = TextInterpolator::new();
    let from_fresh = fresh.interp("A 'adj 'noun", &map_template).unwrap();
    assert_eq!(after_error, from_fresh);
    let again = interpolator.interp("just words", &map_template).unwrap();
    assert_eq!("just words", again);
}

#[test]
fn recursion_error_carries_a_description() {
    let mut interpolator = TextInterpolator::default();
    let err = interpolator.interp("'infinite", &map_template).unwrap_err();
    assert_eq!("detected infinitely looping nested templates", err.message());
}

#[test]
fn contains_template_sees_leading_markers_only() {
    let interpolator = TextInterpolator::default();
    assert!(interpolator.contains_template("hello 'world"));
    assert!(!interpolator.contains_template("hello world"));
    assert!(!interpolator.contains_template("no mid'marker here"));
    assert!(!interpolator.contains_template(""));
}
