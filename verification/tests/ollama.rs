use corpo_drone::desktop_config::{load_config, Platform};
use corpo_drone::ollama::{
    check_ollama_status, get_ollama_config, has_model, ollama_service_reply, start_ollama_service,
    tags_url,
};
use serde_json::Value;

fn value(text: &str) -> Value {
    serde_json::from_str(text).unwrap()
}

#[test]
fn the_models_have_an_address() {
    assert_eq!(tags_url("http://localhost:11434"), "http://localhost:11434/api/tags");
    assert_eq!(tags_url("http://h//"), "http://h/api/tags");
    assert_eq!(tags_url(""), "/api/tags");
    assert_eq!(tags_url("/"), "/api/tags");
}

#[test]
fn a_model_is_found_with_or_without_a_tag() {
    let body = value(r#"{"models":[{"name":"llama3.1:8b"},{"x":1},{"name":7},{"name":"mistral:latest"}]}"#);
    assert!(has_model(&body, "mistral"));
    assert!(has_model(&body, "mistral:latest"));
    assert!(has_model(&body, "llama3.1:8b"));
    assert!(!has_model(&body, "llama3.1:8"));
    assert!(!has_model(&body, "mistra"));
}

#[test]
fn another_answer_has_no_model() {
    assert!(!has_model(&value("null"), "m"));
    assert!(!has_model(&value("{}"), "m"));
    assert!(!has_model(&value(r#"{"models":{"name":"m"}}"#), "m"));
    assert!(!has_model(&value(r#"[{"name":"m"}]"#), "m"));
    assert!(!has_model(&value(r#"{"models":[]}"#), "m"));
}

#[test]
fn the_status_is_told() {
    let body = value(r#"{"models":[{"name":"m"}]}"#);
    assert_eq!(check_ollama_status(Some(&body), "m"), value(r#"{"running":true,"has_model":true}"#));
    assert_eq!(check_ollama_status(Some(&body), "n"), value(r#"{"running":true,"has_model":false}"#));
    assert_eq!(check_ollama_status(None, "m"), value(r#"{"running":false,"has_model":false}"#));
}

#[test]
fn the_configuration_is_told() {
    let cfg = load_config(None, Platform::Unix, "c");
    assert_eq!(
        get_ollama_config(&cfg),
        value(r#"{"host":"http://localhost:11434","model":"mistral","summarize":true}"#)
    );
}

#[test]
fn the_service_is_started_apart() {
    let (log, c) = start_ollama_service(Platform::Unix);
    assert_eq!(log.event, "starting_ollama_service");
    assert_eq!(c.program, "sh");
    assert_eq!(c.args, vec!["-c", "ollama serve &"]);
    let (_, c) = start_ollama_service(Platform::Windows);
    assert_eq!(c.program, "cmd");
    assert_eq!(c.args, vec!["/c", "start", "", "ollama", "serve"]);
    assert_eq!(ollama_service_reply(None), value(r#"{"ok":true}"#));
    assert_eq!(ollama_service_reply(Some("gone")), value(r#"{"ok":false,"error":"gone"}"#));
}
