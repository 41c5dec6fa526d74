use bfc::compile::compile;
use bfc::ir::CompileError;
use bfc::position::position_of;

#[test]
fn position_skips_comments() {
    assert_eq!(position_of("ab+", 0), Some(2));
    assert_eq!(position_of("+++ comment ]", 0), Some(0));
    assert_eq!(position_of("+++ comment ]", 1), Some(12));
}

#[test]
fn position_is_the_start_of_a_run() {
    assert_eq!(position_of("+ x + -- .", 0), Some(0));
    assert_eq!(position_of("+ x + -- .", 1), Some(6));
    assert_eq!(position_of("+ x + -- .", 2), Some(9));
    assert_eq!(position_of("+-+", 2), Some(2));
}

#[test]
fn position_counts_characters_not_bytes() {
    assert_eq!(position_of("\u{00e9}\u{4e16}[", 0), Some(2));
}

#[test]
fn position_of_a_missing_instruction_is_none() {
    assert_eq!(position_of("", 0), None);
    assert_eq!(position_of("++", 1), None);
    assert_eq!(position_of("only words", 0), None);
    assert_eq!(position_of("[]", 2), None);
}

#[test]
fn position_agrees_with_the_compiler() {
    for source in ["++ [ - ] oops ] .", "say [ and [ then ]", "]", "x[", "+[>[-"] {
        let failure = compile(source).unwrap_err();
        let index = match failure.kind {
            CompileError::UnmatchedOpenBracket { index } => index,
            CompileError::UnmatchedCloseBracket { index } => index,
            CompileError::BackendEmissionFailure => panic!("no backend took part"),
        };
        assert_eq!(position_of(source, index), Some(failure.position));
    }
}
