use diagweave::template::{render_display_template, TemplateError};

fn names(list: &[&str]) -> Vec<String> {
    list.iter().map(|s| s.to_string()).collect()
}

#[test]
fn placeholders_become_positional() {
    let (fmt, ord) = render_display_template("user {user_id} token is invalid", &names(&["user_id"])).unwrap();
    assert_eq!(fmt, "user {} token is invalid");
    assert_eq!(ord, vec![0]);
}

#[test]
fn tuple_indices_and_repeats() {
    let (fmt, ord) = render_display_template("{1}-{0}-{1}", &names(&["0", "1"])).unwrap();
    assert_eq!(fmt, "{}-{}-{}");
    assert_eq!(ord, vec![1, 0, 1]);
}

#[test]
fn escaped_braces_stay_escaped() {
    let (fmt, ord) = render_display_template("{{literal}} {x}", &names(&["x"])).unwrap();
    assert_eq!(fmt, "{{literal}} {}");
    assert_eq!(ord, vec![0]);
}

#[test]
fn template_errors() {
    assert_eq!(render_display_template("oops {", &names(&[])).unwrap_err(), TemplateError::Unclosed);
    assert_eq!(render_display_template("empty {}", &names(&[])).unwrap_err(), TemplateError::EmptyPlaceholder);
    assert_eq!(
        render_display_template("{missing}", &names(&["x"])).unwrap_err(),
        TemplateError::UnknownPlaceholder("missing".to_string())
    );
    assert_eq!(render_display_template("a } b", &names(&[])).unwrap_err(), TemplateError::UnmatchedClose);
}
