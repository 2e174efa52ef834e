use text_interpolator::defaults::extract_template;
use text_interpolator::defaults::is_template;

#[test]
fn template_extration_with_prefix_and_suffix() {
    let extrated_template = extract_template("['adj.'..'.]");
    assert_eq!("[", extrated_template.prefix);
    assert_eq!("'..'.]", extrated_template.suffix);
    assert_eq!("adj", extrated_template.template);
}

#[test]
fn template_extration_with_punctuation_and_suffix() {
    let extrated_template = extract_template("'noun's");
    assert_eq!("", extrated_template.prefix);
    assert_eq!("s", extrated_template.suffix);
    assert_eq!("noun", extrated_template.template);
}

#[test]
fn template_extration_with_no_template() {
    let extrated_template = extract_template("noun");
    assert_eq!("", extrated_template.prefix);
    assert_eq!("", extrated_template.suffix);
    assert_eq!("", extrated_template.template);
}

#[test]
fn template_extration_with_ending_punctuation() {
    let extrated_template = extract_template("'noun.");
    assert_eq!("", extrated_template.prefix);
    assert_eq!(".", extrated_template.suffix);
    assert_eq!("noun", extrated_template.template);
}

#[test]
fn template_extration_with_ending_punctuation_2() {
    let extrated_template = extract_template("'noun!");
    assert_eq!("", extrated_template.prefix);
    assert_eq!("!", extrated_template.suffix);
    assert_eq!("noun", extrated_template.template);
}

#[test]
fn template_extration_with_no_suffix_or_prefix() {
    let extrated_template = extract_template("'noun");
    assert_eq!("", extrated_template.prefix);
    assert_eq!("", extrated_template.suffix);
    assert_eq!("noun", extrated_template.template);
}

#[test]
fn template_extration_with_nested_template() {
    let extrated_template = extract_template("'noun'noun");
    assert_eq!("", extrated_template.prefix);
    assert_eq!("noun", extrated_template.suffix);
    assert_eq!("noun", extrated_template.template);
}

#[test]
fn is_template_checks_leading_marker() {
    assert!(is_template("'template"));
    assert!(!is_template("not_template"));
    assert!(!is_template(""));
    assert!(!is_template("mid'marker"));
}
