use clarify::extract::ExtractError;
use clarify::extract::FunctionItem;
use clarify::prompt::build_prompt;
use clarify::prompt::prompts_for_source;
use clarify::prompt::suggest_prompts;

#[test]
fn undocumented_function_gets_the_bare_template() {
    let item = FunctionItem { text: "fn f() {}".to_string(), docs: vec![] };
    let p = build_prompt(&item);
    assert!(p.starts_with("Write a documentation comment for this Rust function:"));
    assert!(p.contains("fn f() {}"));
}

#[test]
fn documented_function_gets_the_rewrite_template() {
    let item = FunctionItem {
        text: "fn f() {}".to_string(),
        docs: vec![" Old line one.".to_string(), " Old line two.".to_string()],
    };
    let p = build_prompt(&item);
    assert!(p.starts_with("Rewrite the documentation for this Rust function."));
    assert!(p.contains(" Old line one.\n Old line two."));
}

#[test]
fn prompt_keeps_exactly_its_own_fences() {
    let item = FunctionItem {
        text: "fn f() { let s = \"```\"; }".to_string(),
        docs: vec![],
    };
    let p = build_prompt(&item);
    assert_eq!(p.matches("```").count(), 2);
    assert!(p.contains("\\`\\`\\`"));
}

#[test]
fn rewrite_template_escapes_newlines_in_source() {
    let item = FunctionItem {
        text: "fn f() {\n}".to_string(),
        docs: vec![" doc".to_string()],
    };
    let p = build_prompt(&item);
    assert!(p.contains("fn f() {\\n}"));
}

#[test]
fn one_prompt_per_function_of_a_source() {
    let src = "fn a() {}\nfn b() {}\nstruct S;\n";
    let ps = prompts_for_source(src).unwrap();
    assert_eq!(ps.len(), 2);
    assert!(ps[0].contains("fn a() {}"));
    assert!(ps[1].contains("fn b() {}"));
}

#[test]
fn suggest_run_over_one_undocumented_function() {
    let texts = vec!["fn add(a: i32, b: i32) -> i32 { a + b }".to_string()];
    let ps = suggest_prompts(&texts).unwrap();
    assert_eq!(ps.len(), 1);
    assert!(ps[0].contains("fn add(a: i32, b: i32) -> i32 { a + b }"));
}

#[test]
fn suggest_run_concatenates_files_in_order() {
    let texts = vec![
        "fn a() {}".to_string(),
        "struct S;".to_string(),
        "fn b() {}\nfn c() {}".to_string(),
    ];
    let ps = suggest_prompts(&texts).unwrap();
    assert_eq!(ps.len(), 3);
    assert!(ps[0].contains("fn a() {}"));
    assert!(ps[1].contains("fn b() {}"));
    assert!(ps[2].contains("fn c() {}"));
}

#[test]
fn suggest_run_fails_on_a_bad_file() {
    let texts = vec!["fn a() {}".to_string(), "fn (".to_string()];
    let r = suggest_prompts(&texts);
    assert!(matches!(r, Err(ExtractError::Parse { .. })));
}
