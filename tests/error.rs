use rcodec::error::Error;

#[test]
fn the_error_message_should_include_context_in_the_correct_order() {
    let msg = "This is a slam poem that I wrote and I am speaking the slam poem to you right now with my mouth.";
    let expected = "outer/inner: ".to_string() + msg;
    let error = Error::new(msg.to_string())
        .push_context("inner")
        .push_context("outer");
    assert_eq!(error.message(), expected);
}

#[test]
fn an_error_without_context_renders_its_bare_description() {
    let error = Error::new("plain".to_string());
    assert_eq!(error.message(), "plain");
    assert_eq!(error.description, "plain");
}

#[test]
fn context_labels_are_not_deduplicated() {
    let error = Error::new("d".to_string()).push_context("x").push_context("x");
    assert_eq!(error.message(), "x/x: d");
}
