use webarcade::shim::{escape_payload, generate_shim};
use webarcade::routes::extract_handlers;

fn count_occurrences(hay: &str, needle: &str) -> usize {
    let mut count = 0usize;
    let mut at = 0usize;
    while let Some(pos) = hay[at..].find(needle) {
        count += 1;
        at += pos + needle.len();
    }
    count
}

#[test]
fn escaping_embeds_payload_safely() {
    assert_eq!(escape_payload("a\"b\\c\nd\re"), "a\\\"b\\\\c\\nde");
    assert_eq!(escape_payload(""), "");
    assert_eq!(escape_payload("plain"), "plain");
}

#[test]
fn duplicate_routes_export_one_symbol() {
    let doc = "[routes]\n\"GET /a\" = \"handle_hello\"\n\"POST /b\" = \"handle_hello\"\n";
    let handlers = extract_handlers(doc, None);
    let shim = generate_shim("MyPlugin", &handlers, "", "{}", true);
    assert_eq!(count_occurrences(&shim, "fn handle_hello(request_ptr"), 1);
}

#[test]
fn invocation_passes_request_only_when_taken() {
    let with_req = vec![("h".to_string(), true)];
    let without = vec![("h".to_string(), false)];
    let a = generate_shim("P", &with_req, "", "{}", true);
    let b = generate_shim("P", &without, "", "{}", true);
    assert!(a.contains("plugin_mod::router::h(http_request.clone()).await"));
    assert!(!a.contains("plugin_mod::router::h().await"));
    assert!(b.contains("plugin_mod::router::h().await"));
    assert!(!b.contains("plugin_mod::router::h(http_request.clone()).await"));
}

#[test]
fn identical_inputs_give_identical_text() {
    let handlers = vec![("a".to_string(), true), ("b".to_string(), false)];
    let x = generate_shim("P", &handlers, "console.log(1)", "{\"name\":\"p\"}", true);
    let y = generate_shim("P", &handlers, "console.log(1)", "{\"name\":\"p\"}", true);
    assert_eq!(x, y);
}

#[test]
fn minimal_variant_omits_request_machinery() {
    let handlers = vec![("h".to_string(), true)];
    let shim = generate_shim("P", &handlers, "fe", "{}", false);
    assert!(!shim.contains("catch_unwind"));
    assert!(!shim.contains("request_ptr"));
    assert!(shim.contains("plugin_init"));
    assert!(shim.contains("plugin_start"));
    assert!(shim.contains("plugin_stop"));
    assert!(shim.contains("get_plugin_manifest_len"));
    assert!(shim.contains("get_plugin_frontend_len"));
    assert!(shim.contains("has_frontend"));
    assert!(shim.contains("free_plugin_string"));
}

#[test]
fn payloads_and_struct_name_are_embedded() {
    let handlers: Vec<(String, bool)> = Vec::new();
    let shim = generate_shim("MyPlugin", &handlers, "frontend\ntext", "{\"v\":1}", true);
    assert!(shim.contains("const EMBEDDED_FRONTEND: &str = \"frontend\\ntext\";"));
    assert!(shim.contains("const EMBEDDED_MANIFEST: &str = \"{\\\"v\\\":1}\";"));
    assert!(shim.contains("plugin_mod::MyPlugin;"));
}
