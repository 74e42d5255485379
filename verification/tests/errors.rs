use deml::builder::parse_dag;
use deml::errors::CompileError;

#[test]
fn syntax_error_carries_line_and_text() {
    match parse_dag("A\n----\n%%%\n") {
        Err(CompileError::Syntax { line, text }) => {
            assert_eq!(line, 3);
            assert_eq!(text, "%%%");
        }
        other => panic!("expected a syntax error, got {:?}", other.is_ok()),
    }
}

#[test]
fn unterminated_relation_is_a_syntax_error() {
    match parse_dag("A <") {
        Err(CompileError::Syntax { line, .. }) => assert_eq!(line, 1),
        other => panic!("expected a syntax error, got {:?}", other.is_ok()),
    }
}

#[test]
fn invalid_name_character_is_a_syntax_error() {
    match parse_dag("na-me") {
        Err(CompileError::Syntax { line, text }) => {
            assert_eq!(line, 1);
            assert_eq!(text, "na-me");
        }
        other => panic!("expected a syntax error, got {:?}", other.is_ok()),
    }
}

#[test]
fn undeclared_after_name_is_a_reference_error() {
    match parse_dag("A > Missing") {
        Err(CompileError::Reference { task, missing }) => {
            assert_eq!(task, "A");
            assert_eq!(missing, "Missing");
        }
        other => panic!("expected a reference error, got {:?}", other.is_ok()),
    }
}

#[test]
fn undeclared_before_name_is_a_reference_error() {
    match parse_dag("A < Ghost") {
        Err(CompileError::Reference { task, missing }) => {
            assert_eq!(task, "A");
            assert_eq!(missing, "Ghost");
        }
        other => panic!("expected a reference error, got {:?}", other.is_ok()),
    }
}

#[test]
fn successor_on_same_tier_is_an_ordering_error() {
    match parse_dag("A\nB > A") {
        Err(
            CompileError::Ordering {
                task,
                task_elevation,
                other,
                other_elevation,
                other_is_successor,
            },
        ) => {
            assert_eq!(task, "B");
            assert_eq!(task_elevation, 0);
            assert_eq!(other, "A");
            assert_eq!(other_elevation, 0);
            assert!(other_is_successor);
        }
        other => panic!("expected an ordering error, got {:?}", other.is_ok()),
    }
}

#[test]
fn precursor_on_lower_tier_is_an_ordering_error() {
    match parse_dag("A\n----\nB\nC < B") {
        Err(
            CompileError::Ordering {
                task,
                task_elevation,
                other,
                other_elevation,
                other_is_successor,
            },
        ) => {
            assert_eq!(task, "C");
            assert_eq!(task_elevation, -1);
            assert_eq!(other, "B");
            assert_eq!(other_elevation, -1);
            assert!(!other_is_successor);
        }
        other => panic!("expected an ordering error, got {:?}", other.is_ok()),
    }
}

#[test]
fn failed_compilation_yields_no_map() {
    assert!(parse_dag("A > Missing").is_err());
    assert!(parse_dag("A\nB > A").is_err());
    assert!(parse_dag("%%%").is_err());
}
