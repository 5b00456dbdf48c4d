use qaqh_workspace::image_query::backend::{
    select_backend, AnyBackend, LmStudioBackend, MiMoBackend, MultimodalBackend, OllamaBackend,
    OpenAiCompatBackend,
};
use qaqh_workspace::image_query::query::{
    consume_image, peek_image, plan_image, read_reply, request_image, store_image, ImageConfig, ImageInput,
    ImageRegistry,
};
use qaqh_workspace::json::Json;

fn from_value(v: serde_json::Value) -> Json {
    match v {
        serde_json::Value::Null => Json::Null,
        serde_json::Value::Bool(b) => Json::Bool(b),
        serde_json::Value::Number(n) => match (n.as_u64(), n.as_i64()) {
            (Some(u), _) => Json::Uint(u),
            (None, Some(i)) => Json::Int(i),
            _ => Json::Float(n.to_string()),
        },
        serde_json::Value::String(s) => Json::Str(s),
        serde_json::Value::Array(a) => Json::Arr(a.into_iter().map(from_value).collect()),
        serde_json::Value::Object(o) => {
            Json::Obj(o.into_iter().map(|(k, v)| (k, from_value(v))).collect())
        }
    }
}

fn json(text: &str) -> Json {
    from_value(serde_json::from_str(text).unwrap())
}

/// The value at the end of a path of keys and indices.
fn at<'a>(v: &'a Json, path: &[&str]) -> &'a Json {
    let mut v = v;
    for step in path {
        v = match v {
            Json::Arr(items) => &items[step.parse::<usize>().unwrap()],
            _ => v.get(step).unwrap(),
        };
    }
    v
}

#[test]
fn mimo_builds_openai_format() {
    let backend = MiMoBackend::default();
    let body = backend.build_request("mimo-v2.5", "image/png", "Zm9v", "describe", 1024);

    assert_eq!(at(&body, &["model"]).as_str(), Some("mimo-v2.5"));
    assert_eq!(at(&body, &["messages", "0", "content", "0", "type"]).as_str(), Some("image_url"));
    assert_eq!(at(&body, &["messages", "0", "content", "1", "type"]).as_str(), Some("text"));
    let url = at(&body, &["messages", "0", "content", "0", "image_url", "url"])
        .as_str()
        .unwrap();
    assert!(url.starts_with("data:image/png;base64,Zm9v"));
    assert_eq!(at(&body, &["max_completion_tokens"]).as_u64(), Some(1024));
}

#[test]
fn mimo_uses_api_key_header() {
    let backend = MiMoBackend::default();
    let headers = backend.auth_headers("test-key");
    assert_eq!(headers.len(), 1);
    assert_eq!(headers[0].0, "api-key");
    assert_eq!(headers[0].1, "test-key");
}

#[test]
fn mimo_endpoint_path() {
    let backend = MiMoBackend::default();
    assert_eq!(backend.endpoint_path(), "/chat/completions");
}

#[test]
fn openai_compat_uses_bearer() {
    let backend = OpenAiCompatBackend::default();
    let headers = backend.auth_headers("sk-123");
    assert_eq!(headers.len(), 1);
    assert_eq!(headers[0].0, "Authorization");
    assert_eq!(headers[0].1, "Bearer sk-123");
}

#[test]
fn openai_compat_no_auth_when_key_empty() {
    let backend = OpenAiCompatBackend::default();
    let headers = backend.auth_headers("");
    assert!(headers.is_empty());
}

#[test]
fn ollama_builds_native_format() {
    let backend = OllamaBackend::default();
    let body = backend.build_request("llava:13b", "image/png", "Zm9v", "describe", 1024);

    assert_eq!(at(&body, &["model"]).as_str(), Some("llava:13b"));
    assert_eq!(at(&body, &["stream"]), &Json::Bool(false));
    assert_eq!(at(&body, &["messages", "0", "images", "0"]).as_str(), Some("Zm9v"));
    assert_eq!(at(&body, &["messages", "0", "content"]).as_str(), Some("describe"));
}

#[test]
fn ollama_no_auth() {
    let backend = OllamaBackend::default();
    assert!(backend.auth_headers("anything").is_empty());
}

#[test]
fn ollama_endpoint_path() {
    let backend = OllamaBackend::default();
    assert_eq!(backend.endpoint_path(), "/api/chat");
}

#[test]
fn ollama_extract_response() {
    let backend = OllamaBackend::default();
    let json = json(r#"{
        "model": "llava:13b",
        "message": { "role": "assistant", "content": "This is a cat." },
        "prompt_eval_count": 120,
        "eval_count": 30
    }"#);
    assert_eq!(backend.extract_content(&json), Some("This is a cat."));
    assert_eq!(backend.extract_usage(&json), Some((120, 30)));
}

#[test]
fn mimo_parses_openai_response() {
    let backend = MiMoBackend::default();
    let json = json(r#"{
        "choices": [{
            "message": { "content": "This image shows a sunset." }
        }],
        "usage": { "prompt_tokens": 50, "completion_tokens": 20 }
    }"#);
    assert_eq!(
        backend.extract_content(&json),
        Some("This image shows a sunset.")
    );
    assert_eq!(backend.extract_usage(&json), Some((50, 20)));
}

#[test]
fn mimo_handles_missing_content() {
    let backend = MiMoBackend::default();
    let json = json(r#"{ "error": "something went wrong" }"#);
    assert_eq!(backend.extract_content(&json), None);
    assert_eq!(backend.extract_usage(&json), None);
}

#[test]
fn ollama_handles_missing_content() {
    let backend = OllamaBackend::default();
    let json = json(r#"{ "error": "model not found" }"#);
    assert_eq!(backend.extract_content(&json), None);
}

#[test]
fn select_backend_mimo() {
    let b = select_backend("mimo");
    assert_eq!(b.endpoint_path(), "/chat/completions");
    let headers = b.auth_headers("k");
    assert_eq!(headers[0].0, "api-key");
}

#[test]
fn select_backend_ollama() {
    let b = select_backend("ollama");
    assert_eq!(b.endpoint_path(), "/api/chat");
    assert!(b.auth_headers("k").is_empty());
}

#[test]
fn select_backend_lmstudio() {
    let b = select_backend("lmstudio");
    assert_eq!(b.endpoint_path(), "/api/v1/chat"); // LM Studio native endpoint
}

#[test]
fn lmstudio_builds_native_format() {
    let backend = LmStudioBackend::default();
    let body = backend.build_request("qwen/qwen3-vl-4b", "image/png", "Zm9v", "describe", 1024);

    assert_eq!(at(&body, &["model"]).as_str(), Some("qwen/qwen3-vl-4b"));
    assert_eq!(at(&body, &["input", "0", "type"]).as_str(), Some("text"));
    assert_eq!(at(&body, &["input", "0", "content"]).as_str(), Some("describe"));
    assert_eq!(at(&body, &["input", "1", "type"]).as_str(), Some("image"));
    let data_url = at(&body, &["input", "1", "data_url"]).as_str().unwrap();
    assert!(data_url.starts_with("data:image/png;base64,Zm9v"));
    assert_eq!(at(&body, &["context_length"]).as_u64(), Some(4096));
    assert_eq!(at(&body, &["temperature"]), &Json::Float("0.0".to_string()));
    assert_eq!(at(&body, &["reasoning", "type"]).as_str(), Some("disabled"));
}

#[test]
fn lmstudio_parses_response() {
    let backend = LmStudioBackend::default();
    let json = json(r#"{
        "output": [
            { "type": "reasoning", "content": "Let me think about this image..." },
            { "type": "message", "content": "A red square" }
        ],
        "stats": { "input_tokens": 17, "total_output_tokens": 30 }
    }"#);
    assert_eq!(backend.extract_content(&json), Some("A red square"));
    assert_eq!(backend.extract_usage(&json), Some((17, 30)));
}

#[test]
fn lmstudio_parses_message_only_response() {
    let backend = LmStudioBackend::default();
    let json = json(r#"{
        "output": [
            { "type": "message", "content": "This is a cat" }
        ],
        "stats": { "input_tokens": 10, "total_output_tokens": 15 }
    }"#);
    assert_eq!(backend.extract_content(&json), Some("This is a cat"));
}

#[test]
fn lmstudio_no_auth_when_key_empty() {
    let backend = LmStudioBackend::default();
    assert!(backend.auth_headers("").is_empty());
}

#[test]
fn lmstudio_uses_bearer_when_key_provided() {
    let backend = LmStudioBackend::default();
    let headers = backend.auth_headers("mytoken");
    assert_eq!(headers[0].0, "Authorization");
    assert_eq!(headers[0].1, "Bearer mytoken");
}

#[test]
fn select_backend_openai_compat() {
    let b = select_backend("openai_compat");
    assert_eq!(b.endpoint_path(), "/chat/completions");
}

#[test]
fn select_backend_default_is_mimo() {
    let b = select_backend("");
    assert_eq!(b.endpoint_path(), "/chat/completions");
}

#[test]
fn local_backends_have_longer_timeout() {
    let ollama = select_backend("ollama");
    let lmstudio = select_backend("lmstudio");
    let mimo = select_backend("mimo");

    assert!(ollama.default_timeout_secs() >= 300);
    assert!(lmstudio.default_timeout_secs() >= 300);
    assert!(mimo.default_timeout_secs() < 300); // cloud is faster
}

#[test]
fn every_backend_takes_fifty_megabytes() {
    for name in ["mimo", "ollama", "lmstudio", "openai_compat"] {
        assert_eq!(select_backend(name).max_image_bytes(), 50 * 1024 * 1024);
    }
}

#[test]
fn images_wait_until_they_are_used() {
    let mut reg = ImageRegistry::new();
    store_image(&mut reg, "s", "image/png", "AAAA");
    store_image(&mut reg, "s", "image/gif", "BBBB");
    assert_eq!(peek_image(&reg, "s", 1), Some(("image/gif".to_string(), "BBBB".to_string())));
    assert_eq!(peek_image(&reg, "s", 2), None);
    consume_image(&mut reg, "s", 0);
    assert_eq!(peek_image(&reg, "s", 0), Some(("image/gif".to_string(), "BBBB".to_string())));
    assert_eq!(peek_image(&reg, "other", 0), None);
}

fn config() -> ImageConfig {
    ImageConfig {
        enabled: true,
        provider_type: "ollama".to_string(),
        api_key: String::new(),
        base_url: "http://localhost:11434/".to_string(),
        model: "llava".to_string(),
        max_tokens: 100,
        main_api_key: String::new(),
        main_base_url: String::new(),
    }
}

#[test]
fn uploaded_images_are_asked_about_and_then_dropped() {
    let mut reg = ImageRegistry::new();
    store_image(&mut reg, "s", "image/png", "Zm9v");
    let input: ImageInput =
        plan_image(&json(r#"{"prompt": "what?", "image_index": 0}"#), &reg, Some("s")).unwrap();
    let request = request_image(&input, &config(), None).unwrap();
    assert_eq!(request.url, "http://localhost:11434/api/chat");
    assert!(request.headers.is_empty());
    assert_eq!(request.timeout_secs, 300);
    let parsed = json(r#"{"message": {"content": "a cat"}}"#);
    let text = read_reply(&mut reg, &input, &request.backend, 200, b"{}", Ok(parsed)).unwrap();
    assert!(text.contains("a cat"), "{text}");
    assert_eq!(peek_image(&reg, "s", 0), None);
}

#[test]
fn failed_requests_keep_the_image() {
    let mut reg = ImageRegistry::new();
    store_image(&mut reg, "s", "image/png", "Zm9v");
    let input =
        plan_image(&json(r#"{"prompt": "what?", "image_index": 0}"#), &reg, Some("s")).unwrap();
    let backend: AnyBackend = select_backend("ollama");
    assert!(read_reply(&mut reg, &input, &backend, 500, b"oops", Err("no JSON".to_string())).is_err());
    assert!(peek_image(&reg, "s", 0).is_some());
    let mut off = config();
    off.enabled = false;
    assert!(request_image(&input, &off, None).is_err());
    assert!(plan_image(&json("{}"), &reg, Some("s")).is_err());
}

#[test]
fn images_that_are_too_large_are_not_sent() {
    let mut input = ImageInput {
        prompt: "what?".to_string(),
        data: "A".repeat(69_905_066),
        mime_type: "image/png".to_string(),
        source: None,
    };
    assert!(request_image(&input, &config(), None).is_ok());
    input.data.push('A');
    match request_image(&input, &config(), None) {
        Err(e) => assert_eq!(
            e.message,
            "image: base64 data too large (69905067 bytes, max ~69905066 bytes for this backend)"
        ),
        Ok(_) => panic!("it was accepted"),
    }
}
