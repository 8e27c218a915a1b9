use clarify::extract::extract;
use clarify::extract::ExtractError;

#[test]
fn extracts_single_function_byte_for_byte() {
    let src = "fn add(a: i32, b: i32) -> i32 { a + b }";
    let r = extract(src).unwrap();
    assert_eq!(r.len(), 1);
    assert_eq!(r[0].text, "fn add(a: i32, b: i32) -> i32 { a + b }");
    assert!(r[0].docs.is_empty());
}

#[test]
fn extracts_functions_in_source_order() {
    let src = "fn first() {}\n\nstruct S;\n\nfn second(x: u8) -> u8 { x }\n";
    let r = extract(src).unwrap();
    assert_eq!(r.len(), 2);
    assert_eq!(r[0].text, "fn first() {}");
    assert_eq!(r[1].text, "fn second(x: u8) -> u8 { x }");
}

#[test]
fn counts_only_top_level_functions() {
    let src = "fn outer() { fn inner() {} }\nconst K: u32 = 1;\n";
    let r = extract(src).unwrap();
    assert_eq!(r.len(), 1);
}

#[test]
fn empty_file_has_no_functions() {
    let r = extract("").unwrap();
    assert!(r.is_empty());
}

#[test]
fn collects_doc_lines_in_order() {
    let src = "/// First line.\n/// Second line.\nfn documented() {}\n";
    let r = extract(src).unwrap();
    assert_eq!(r.len(), 1);
    assert_eq!(
        r[0].docs,
        vec![" First line.".to_string(), " Second line.".to_string()]
    );
    assert!(r[0].text.ends_with("fn documented() {}"));
}

#[test]
fn non_doc_attributes_are_not_doc_lines() {
    let src = "#[inline]\nfn fast() {}\n";
    let r = extract(src).unwrap();
    assert_eq!(r.len(), 1);
    assert!(r[0].docs.is_empty());
}

#[test]
fn doc_attribute_written_out_is_a_doc_line() {
    let src = "#[doc = \"written out\"]\nfn f() {}\n";
    let r = extract(src).unwrap();
    assert_eq!(r.len(), 1);
    assert_eq!(r[0].docs, vec!["written out".to_string()]);
}

#[test]
fn invalid_source_is_a_parse_error() {
    let r = extract("fn (");
    assert!(matches!(r, Err(ExtractError::Parse { .. })));
}

#[test]
fn parse_error_carries_a_message() {
    match extract("fn (") {
        Err(ExtractError::Parse { message }) => assert!(!message.is_empty()),
        _ => panic!("expected a parse error"),
    }
}
