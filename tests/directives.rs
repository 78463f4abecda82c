use sdi::directive::parse_declaration;
use sdi::{inject, provide, DirectiveError, Registry};

#[test]
fn register_then_resolve() {
    let mut reg = Registry::new();
    provide(&mut reg, "A <- A::new()").unwrap();
    assert_eq!(inject(&reg, "A").unwrap(), "A::new()");
}

#[test]
fn nested_reference_is_returned_verbatim() {
    let mut reg = Registry::new();
    provide(&mut reg, "A <- A").unwrap();
    provide(&mut reg, "B <- B::new(inject!(A))").unwrap();
    let b = inject(&reg, "B").unwrap();
    assert_eq!(b, "B::new(inject!(A))");
    // the host expands the nested site on its own
    let inner = inject(&reg, "A").unwrap();
    assert_eq!(b.replace("inject!(A)", &inner), "B::new(A)");
}

#[test]
fn unknown_key_names_the_key() {
    let reg = Registry::new();
    assert_eq!(inject(&reg, "C"), Err(DirectiveError::UnknownKey("C".to_string())));
}

#[test]
fn missing_delimiter_is_invalid() {
    let mut reg = Registry::new();
    assert_eq!(provide(&mut reg, "A A::new()"), Err(DirectiveError::InvalidSyntax));
    assert_eq!(inject(&reg, "A"), Err(DirectiveError::UnknownKey("A".to_string())));
}

#[test]
fn second_registration_wins() {
    let mut reg = Registry::new();
    provide(&mut reg, "A <- A::new()").unwrap();
    provide(&mut reg, "A <- A::other()").unwrap();
    assert_eq!(inject(&reg, "A").unwrap(), "A::other()");
}

#[test]
fn passes_are_isolated() {
    let mut first = Registry::new();
    provide(&mut first, "A <- A::new()").unwrap();
    let second = Registry::new();
    assert_eq!(inject(&second, "A"), Err(DirectiveError::UnknownKey("A".to_string())));
    assert_eq!(inject(&first, "A").unwrap(), "A::new()");
}

#[test]
fn two_delimiters_are_invalid() {
    let mut reg = Registry::new();
    assert_eq!(provide(&mut reg, "A <- B <- C"), Err(DirectiveError::InvalidSyntax));
}

#[test]
fn delimiter_needs_both_spaces() {
    let mut reg = Registry::new();
    assert_eq!(provide(&mut reg, "A<- A::new()"), Err(DirectiveError::InvalidSyntax));
    assert_eq!(provide(&mut reg, "A <-A::new()"), Err(DirectiveError::InvalidSyntax));
    assert_eq!(provide(&mut reg, ""), Err(DirectiveError::InvalidSyntax));
}

#[test]
fn overlapping_delimiters_split_once() {
    // the second marker overlaps the first, so the text splits in two
    assert_eq!(
        parse_declaration("A <- <- x"),
        Some(("A".to_string(), "<- x".to_string()))
    );
}

#[test]
fn key_and_expression_are_trimmed() {
    let mut reg = Registry::new();
    provide(&mut reg, "  Key   <-   make( 1 )\t\n").unwrap();
    assert_eq!(inject(&reg, "Key").unwrap(), "make( 1 )");
    assert_eq!(inject(&reg, "\u{3000}Key \n").unwrap(), "make( 1 )");
}

#[test]
fn empty_pieces_are_accepted() {
    assert_eq!(parse_declaration(" <- "), Some((String::new(), String::new())));
    let mut reg = Registry::new();
    provide(&mut reg, " <- x").unwrap();
    assert_eq!(inject(&reg, "").unwrap(), "x");
}

#[test]
fn keys_are_matched_exactly() {
    let mut reg = Registry::new();
    provide(&mut reg, "A <- one").unwrap();
    provide(&mut reg, "a <- two").unwrap();
    provide(&mut reg, "AB <- three").unwrap();
    assert_eq!(inject(&reg, "A").unwrap(), "one");
    assert_eq!(inject(&reg, "a").unwrap(), "two");
    assert_eq!(inject(&reg, "AB").unwrap(), "three");
    assert!(inject(&reg, "B").is_err());
}

#[test]
fn malformed_declaration_keeps_registry() {
    let mut reg = Registry::new();
    provide(&mut reg, "A <- first").unwrap();
    assert!(provide(&mut reg, "A <- x <- y").is_err());
    assert_eq!(inject(&reg, "A").unwrap(), "first");
}

#[test]
fn registry_put_and_get() {
    let mut reg = Registry::new();
    assert_eq!(reg.get(&"k".to_string()), None);
    reg.put("k".to_string(), "v1".to_string());
    reg.put("j".to_string(), "w".to_string());
    reg.put("k".to_string(), "v2".to_string());
    assert_eq!(reg.get(&"k".to_string()), Some("v2".to_string()));
    assert_eq!(reg.get(&"j".to_string()), Some("w".to_string()));
}

#[test]
fn non_ascii_text_round_trips() {
    let mut reg = Registry::new();
    provide(&mut reg, "é <- Ünïcode::new(\"ß\")").unwrap();
    assert_eq!(inject(&reg, "é").unwrap(), "Ünïcode::new(\"ß\")");
}
