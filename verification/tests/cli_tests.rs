use clarify::cli::check_message;
use clarify::cli::clean_outcome;
use clarify::cli::default_model_path;
use clarify::cli::init_failure_message;
use clarify::cli::init_success_message;
use clarify::cli::resolve_model_path;
use clarify::cli::resolve_url;
use clarify::cli::suggest_root;

#[test]
fn init_without_url_requests_the_default_address() {
    let url = resolve_url(None);
    assert_eq!(
        url,
        "https://huggingface.co/TheBloke/CodeLlama-13B-Instruct-GGUF/resolve/main/codellama-13b-instruct.Q4_K_M.gguf?download=true"
    );
}

#[test]
fn init_with_url_keeps_it() {
    let url = resolve_url(Some("https://host/model.gguf".to_string()));
    assert_eq!(url, "https://host/model.gguf");
}

#[test]
fn model_path_replaces_final_component_of_data_dir() {
    let p = default_model_path(Some("/home/u/.local/share".to_string()));
    assert_eq!(p, "/home/u/.local/clarify_model.gguf");
}

#[test]
fn model_path_without_separator_is_just_the_file_name() {
    let p = default_model_path(Some("share".to_string()));
    assert_eq!(p, "clarify_model.gguf");
}

#[test]
fn model_path_without_data_dir_falls_back_to_home() {
    let p = default_model_path(None);
    assert_eq!(p, "~/.clarify_model.gguf");
}

#[test]
fn environment_override_wins_over_default_path() {
    let p = resolve_model_path(Some("/tmp/other.gguf".to_string()), "/data/clarify_model.gguf".to_string());
    assert_eq!(p, "/tmp/other.gguf");
    let q = resolve_model_path(None, "/data/clarify_model.gguf".to_string());
    assert_eq!(q, "/data/clarify_model.gguf");
}

#[test]
fn suggest_defaults_to_current_directory() {
    assert_eq!(suggest_root(None), ".");
    assert_eq!(suggest_root(Some("src".to_string())), "src");
}

#[test]
fn clean_of_a_missing_file_is_an_error_not_a_silent_success() {
    let r = clean_outcome(false, "/data/clarify_model.gguf");
    match r {
        Err(m) => assert_eq!(m, "Unable to delete /data/clarify_model.gguf"),
        Ok(()) => panic!("a failed removal must not pass silently"),
    }
}

#[test]
fn clean_of_an_existing_file_succeeds() {
    assert!(clean_outcome(true, "/data/clarify_model.gguf").is_ok());
}

#[test]
fn check_only_announces_the_missing_feature() {
    assert!(check_message().contains("not implemented"));
}

#[test]
fn init_messages_name_url_and_destination() {
    let ok = init_success_message("https://host/m.gguf", "/data/clarify_model.gguf");
    assert_eq!(
        ok,
        "Clarify has been initialized!\n\nhttps://host/m.gguf\nhas been downloaded into\n/data/clarify_model.gguf"
    );
    let bad = init_failure_message("https://host/m.gguf", "connection refused");
    assert_eq!(bad, "Failed to fetch https://host/m.gguf:\n\nconnection refused");
}

#[test]
fn inference_configuration_holds_the_documented_values() {
    let m = clarify::infer::model_config();
    assert_eq!(m.context_size, 1024);
    assert_eq!(m.n_gpu_layers, 43);
    assert!(m.numa);
    let p = clarify::infer::predict_config(8);
    assert_eq!(p.tokens, 0);
    assert_eq!(p.threads, 8);
}
