use dumb_lang::lexer::{is_separator, tokenizer};

fn toks(src: &str) -> Vec<String> {
    let mut v: Vec<String> = Vec::new();
    tokenizer(&src.to_string(), &mut v);
    v
}

#[test]
fn tokenize_separator_collapsing() {
    assert_eq!(toks("3  4\t+;"), vec!["3".to_string(), "4".to_string(), "+".to_string()]);
}

#[test]
fn tokenize_trailing_token_dropped() {
    // A trailing token not closed by a separator is never emitted.
    assert_eq!(toks("3 4 +"), vec!["3".to_string(), "4".to_string()]);
}

#[test]
fn tokenize_simple_program() {
    assert_eq!(
        toks("3 4 + print\n"),
        vec!["3".to_string(), "4".to_string(), "+".to_string(), "print".to_string()]
    );
}

#[test]
fn tokenize_empty_source() {
    assert_eq!(toks(""), Vec::<String>::new());
}

#[test]
fn tokenize_only_separators() {
    assert_eq!(toks(" ;\n\t\r"), Vec::<String>::new());
}

#[test]
fn tokenize_every_separator_kind() {
    let src = "a b;c\nd\te\\f\rg\u{7f}h\u{0}";
    let expected: Vec<String> =
        ["a", "b", "c", "d", "e", "f", "g", "h"].iter().map(|s| s.to_string()).collect();
    assert_eq!(toks(src), expected);
}

#[test]
fn tokenize_leading_separator_is_kept_in_first_token() {
    // The scanner starts at index 1, so a separator at index 0 never
    // advances the boundary: it ends up glued to the first token.
    assert_eq!(toks(" 3 "), vec![" 3".to_string()]);
}

#[test]
fn tokenize_appends_to_existing_vector() {
    let mut v: Vec<String> = vec!["seed".to_string()];
    tokenizer(&"a b ".to_string(), &mut v);
    assert_eq!(v, vec!["seed".to_string(), "a".to_string(), "b".to_string()]);
}

#[test]
fn separator_classification() {
    for c in [' ', ';', '\n', '\t', '\\', '\u{7f}', '\r', '\u{0}'] {
        assert!(is_separator(c));
    }
    for c in ['a', '0', '-', '>', '.', '_'] {
        assert!(!is_separator(c));
    }
}
