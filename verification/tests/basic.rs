use eyecite::EyeciteError;

#[test]
fn it_works() {
    let result = 2 + 2;
    assert_eq!(result, 4);
}

#[test]
fn error_messages_are_kept() {
    let e = EyeciteError::AhocorasickError { message: "automaton too large".to_string() };
    assert_eq!(e.message(), "automaton too large");
    let e = EyeciteError::RegexError { message: "unclosed group".to_string() };
    assert_eq!(e.message(), "unclosed group");
    let e = EyeciteError::TemplateError { message: "placeholder left".to_string() };
    assert_eq!(e.message(), "placeholder left");
}
