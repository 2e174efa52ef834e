use text_interpolator::TextInterpolator;

fn map_template(template: &str) -> Option<String> {
    match template {
        "verb" => Some(["run", "fall", "fly", "swim"][0].to_string()),
        "noun" => Some(["person", "place", "thing"][1].to_string()),
        "adj" => Some(["funny", "interesting", "aggrivating"][2].to_string()),
        "sentence" => Some(
            [
                "A 'adj 'noun should never 'verb..",
                "I've never seen someone 'verb with a 'noun before.",
                "You are too 'adj to be 'adj..",
            ][1]
            .to_string(),
        ),
        "paragraph" => Some(["'sentence 'sentence 'sentence"][0].to_string()),
        "infinite" => Some("'infinite".to_string()),
        "nonexistantnest" => Some("'nothing".to_string()),
        _ => None,
    }
}

#[test]
fn interpolate_non_templated_text() {
    let mut interpolator = TextInterpolator::default();

    let text: String =
        String::from("This is an example of a basic input with no templates to be substituted.");
    let interpolated_text = interpolator.interp(&text, &map_template);

    assert_eq!(&text, &interpolated_text.unwrap());
}

#[test]
fn interpolate_templated_text() {
    let mut interpolator = TextInterpolator::default();

    let text: String = String::from("A 'adj 'noun will always 'verb in the morning.");
    let interpolated_text = interpolator.interp(&text, &map_template);

    assert!(!interpolator.contains_template(&interpolated_text.unwrap()));
}

#[test]
fn interpolate_templated_text_2() {
    let mut interpolator = TextInterpolator::default();

    let text: String = String::from("I'm 'verb'ing on some 'adj 'noun's right now.");
    let interpolated_text = interpolator.interp(&text, &map_template);

    assert!(!interpolator.contains_template(&interpolated_text.unwrap()));
}

#[test]
fn interpolated_nested_templated_text() {
    let mut interpolator = TextInterpolator::default();

    let text: String = String::from("'sentence");
    let interpolated_text = interpolator.interp(&text, &map_template);

    assert!(!interpolator.contains_template(&interpolated_text.unwrap()));
}

#[test]
fn interpolated_double_nested_templated_text() {
    let mut interpolator = TextInterpolator::default();

    let text: String = String::from("'paragraph");
    let interpolated_text = interpolator.interp(&text, &map_template);

    assert!(!interpolator.contains_template(&interpolated_text.unwrap()));
}

#[test]
fn interpolated_double_nested_templated_text_with_prefix_and_suffix() {
    let mut interpolator = TextInterpolator::default();

    let text: String = String::from("My Story:'paragraph...");

    let interpolated_text = interpolator.interp(&text, &map_template);

    assert!(!interpolator.contains_template(&interpolated_text.unwrap()));
}

#[test]
fn missing_template() {
    let mut interpolator = TextInterpolator::default();

    let text: String = String::from("'klsfjkaejfaeskfjl");

    let interpolated_text = interpolator.interp(&text, &map_template);

    assert_eq!("'klsfjkaejfaeskfjl", &interpolated_text.unwrap());
}

#[test]
fn missing_nested_template() {
    let mut interpolator = TextInterpolator::default();
    let interp_text = interpolator.interp("'nonexistantnest", &map_template);
    let _ = interp_text.unwrap();
}

#[test]
fn infinite_self_recursion() {
    let mut interpolator = TextInterpolator::default();

    let text: String = String::from("'infinite");

    let interpolated_text = interpolator.interp(&text, &map_template);

    assert!(&interpolated_text.is_err());
}
