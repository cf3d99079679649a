use rhl_parser::{PpError, Preprocessor, TextTable};

fn run_input(input: &str) -> Result<String, PpError> {
    let registry = TextTable::with_builtins();
    let files = TextTable::new();
    let mut p = Preprocessor::new(input);
    p.run(&registry, &files)
}

#[test]
fn passthrough_no_directives() {
    assert_eq!(run_input("alpha\nbeta").unwrap(), "alpha\nbeta\n");
}

#[test]
fn empty_input_gives_empty_output() {
    assert_eq!(run_input("").unwrap(), "");
}

#[test]
fn crlf_input_normalizes_to_lf() {
    assert_eq!(run_input("a\r\nb").unwrap(), "a\nb\n");
}

#[test]
fn blank_lines_are_preserved() {
    assert_eq!(run_input("a\n\nb").unwrap(), "a\n\nb\n");
}

#[test]
fn leading_space_makes_a_content_line() {
    assert_eq!(run_input(" #define X v").unwrap(), " #define X v\n");
}

#[test]
fn define_without_payload_keeps_references() {
    assert_eq!(run_input("#define X\nX marks X").unwrap(), "X marks X\n");
}

#[test]
fn define_with_payload_substitutes_every_occurrence() {
    assert_eq!(
        run_input("#define X hello\nsay X and X").unwrap(),
        "say hello and hello\n"
    );
}

#[test]
fn define_payload_is_second_word_only() {
    assert_eq!(run_input("#define X a b\nX").unwrap(), "a\n");
}

#[test]
fn define_substitutes_inside_longer_words() {
    assert_eq!(run_input("#define AB c\nslAB!").unwrap(), "slc!\n");
}

#[test]
fn define_tolerates_extra_spaces() {
    assert_eq!(run_input("#define   X   v\nX").unwrap(), "v\n");
}

#[test]
fn define_missing_identifier_fails() {
    let r = run_input("#define");
    assert!(matches!(r, Err(PpError::MalformedDirective { line: 0 })));
}

#[test]
fn undefine_removes_existence_and_substitution() {
    assert_eq!(run_input("#define X v\n#undefine X\nX").unwrap(), "X\n");
}

#[test]
fn undefine_of_absent_identifier_is_a_no_op() {
    assert_eq!(run_input("#undefine Y\nline").unwrap(), "line\n");
}

#[test]
fn undefine_missing_identifier_fails() {
    let r = run_input("#undefine");
    assert!(matches!(r, Err(PpError::MalformedDirective { line: 0 })));
}

#[test]
fn ifdef_on_defined_identifier_skips_branch() {
    assert_eq!(
        run_input("#define X\n#ifdef X\nhidden\n#endif\nafter").unwrap(),
        "after\n"
    );
}

#[test]
fn ifdef_on_undefined_identifier_keeps_branch() {
    assert_eq!(
        run_input("#ifdef X\nkept\n#else\nalt\n#endif\nafter").unwrap(),
        "kept\nafter\n"
    );
}

#[test]
fn kept_branch_without_else_hits_unexpected_endif() {
    let r = run_input("#ifdef X\nkept\n#endif");
    assert!(matches!(r, Err(PpError::UnexpectedEndif { line: 2 })));
}

#[test]
fn ifundef_on_undefined_identifier_skips_branch() {
    assert_eq!(run_input("#ifundef X\nhidden\n#endif\nafter").unwrap(), "after\n");
}

#[test]
fn ifundef_on_defined_identifier_keeps_branch() {
    assert_eq!(
        run_input("#define X\n#ifundef X\nkept\n#else\nalt\n#endif\nafter").unwrap(),
        "kept\nafter\n"
    );
}

#[test]
fn ifdef_missing_identifier_fails() {
    let r = run_input("#ifdef");
    assert!(matches!(r, Err(PpError::MalformedDirective { line: 0 })));
}

#[test]
fn inner_block_does_not_end_outer_skip() {
    assert_eq!(
        run_input("#define X\n#ifdef X\n#ifdef Y\ninner\n#endif\nouter hidden\n#endif\nafter")
            .unwrap(),
        "after\n"
    );
}

#[test]
fn unterminated_conditional_fails() {
    let r = run_input("#define X\n#ifdef X\nnever closed");
    assert!(matches!(r, Err(PpError::UnterminatedConditional)));
}

#[test]
fn unexpected_endif_at_top_level_fails() {
    let r = run_input("#endif");
    assert!(matches!(r, Err(PpError::UnexpectedEndif { line: 0 })));
}

#[test]
fn unknown_directive_fails() {
    let r = run_input("#bogus thing");
    assert!(matches!(r, Err(PpError::UnknownDirective { line: 0 })));
}

#[test]
fn with_std_splices_registry_text() {
    assert_eq!(
        run_input("#with $std\nend").unwrap(),
        "rhl standard library\nend\n"
    );
}

#[test]
fn with_std_runs_with_isolated_definitions() {
    // The includer's RHL_STD must not reach the included text, and the
    // inclusion's own `#define RHL_STD 1` must not leak back out.
    assert_eq!(
        run_input("#define RHL_STD leak\n#with $std\nRHL_STD").unwrap(),
        "rhl standard library\nleak\n"
    );
}

#[test]
fn with_unknown_library_fails() {
    let r = run_input("#with $nope");
    match r {
        Err(PpError::UnknownLibrary { line, name }) => {
            assert_eq!(line, 0);
            assert_eq!(name, "$nope");
        }
        other => panic!("expected an unknown-library error, got {:?}", other),
    }
}

#[test]
fn with_missing_file_fails() {
    let r = run_input("#with nonexistent_file.ext");
    match r {
        Err(PpError::FileUnavailable { line, path }) => {
            assert_eq!(line, 0);
            assert_eq!(path, "nonexistent_file.ext");
        }
        other => panic!("expected a file-unavailable error, got {:?}", other),
    }
}

#[test]
fn with_missing_argument_fails() {
    let r = run_input("#with");
    assert!(matches!(r, Err(PpError::MalformedDirective { line: 0 })));
}

#[test]
fn with_supplied_file_splices_its_text() {
    let registry = TextTable::with_builtins();
    let mut files = TextTable::new();
    files.add_text("inc.rhl".to_string(), "from file".to_string());
    let mut p = Preprocessor::new("#with inc.rhl\nend");
    assert_eq!(p.run(&registry, &files).unwrap(), "from file\nend\n");
}

#[test]
fn included_file_runs_with_fresh_definitions() {
    let registry = TextTable::with_builtins();
    let mut files = TextTable::new();
    files.add_text("inc.rhl".to_string(), "X".to_string());
    let mut p = Preprocessor::new("#define X y\n#with inc.rhl");
    assert_eq!(p.run(&registry, &files).unwrap(), "X\n");
}

#[test]
fn self_including_library_exceeds_depth() {
    let mut registry = TextTable::new();
    registry.add_text("$loop".to_string(), "#with $loop".to_string());
    let files = TextTable::new();
    let mut p = Preprocessor::new("#with $loop");
    let r = p.run(&registry, &files);
    assert!(matches!(r, Err(PpError::IncludeDepthExceeded { .. })));
}

#[test]
fn newer_table_entry_shadows_older() {
    let mut registry = TextTable::new();
    registry.add_text("$std".to_string(), "old".to_string());
    registry.add_text("$std".to_string(), "new".to_string());
    let files = TextTable::new();
    let mut p = Preprocessor::new("#with $std");
    assert_eq!(p.run(&registry, &files).unwrap(), "new\n");
}

#[test]
fn find_text_returns_registered_text() {
    let registry = TextTable::with_builtins();
    assert_eq!(
        registry.find_text("$std").unwrap(),
        "#define RHL_STD 1\nrhl standard library\n"
    );
    assert!(registry.find_text("$missing").is_none());
}

#[test]
fn predefined_value_substitutes() {
    let registry = TextTable::with_builtins();
    let files = TextTable::new();
    let mut p = Preprocessor::new("NAME");
    p.define("NAME".to_string(), Some("val".to_string()));
    assert_eq!(p.run(&registry, &files).unwrap(), "val\n");
}

#[test]
fn predefined_flag_drives_conditional() {
    let registry = TextTable::with_builtins();
    let files = TextTable::new();
    let mut p = Preprocessor::new("#ifdef FLAG\nhidden\n#endif\nafter");
    p.define("FLAG".to_string(), None);
    assert_eq!(p.run(&registry, &files).unwrap(), "after\n");
}

#[test]
fn read_until_endif_or_else_lands_past_closer() {
    let registry = TextTable::with_builtins();
    let files = TextTable::new();
    let mut p = Preprocessor::new("junk\n#endif\nrest");
    assert!(p.read_until_endif_or_else().is_ok());
    assert_eq!(p.run(&registry, &files).unwrap(), "rest\n");
}

#[test]
fn read_until_endif_or_else_fails_without_closer() {
    let mut p = Preprocessor::new("no closer here");
    let r = p.read_until_endif_or_else();
    assert!(matches!(r, Err(PpError::UnterminatedConditional)));
}

#[test]
fn describe_lists_input_and_output() {
    let registry = TextTable::with_builtins();
    let files = TextTable::new();
    let mut p = Preprocessor::new("a");
    p.run(&registry, &files).unwrap();
    assert_eq!(
        p.describe(),
        "Preprocessor Data:\n  Input:\n    a\n  Output:\na\n\n"
    );
}
