use webarcade::routes::{extract_routes, extract_handlers, has_routes, publicise_handlers, publicise_router_mod};

#[test]
fn one_route_yields_one_entry() {
    let doc = "[routes]\n\"GET /hello\" = \"handle_hello\"\n";
    let routes = extract_routes(doc);
    assert_eq!(routes.len(), 1);
    assert_eq!(routes[0].method, "GET");
    assert_eq!(routes[0].path, "/hello");
    assert_eq!(routes[0].handler, "handle_hello");
}

#[test]
fn malformed_keys_and_values_are_skipped() {
    let doc = "[routes]\n\"NOSPACE\" = \"h\"\n\"GET /ok\" = \"h\"\n\"POST /n\" = 3\n";
    let routes = extract_routes(doc);
    assert_eq!(routes.len(), 1);
    assert_eq!(routes[0].method, "GET");
    assert_eq!(routes[0].path, "/ok");
}

#[test]
fn missing_or_malformed_table_degrades_to_no_routes() {
    assert_eq!(extract_routes("[package]\nname = \"x\"\n").len(), 0);
    assert_eq!(extract_routes("not toml [[").len(), 0);
    assert!(!has_routes("[package]\nname = \"x\"\n"));
    assert!(!has_routes("not toml [["));
}

#[test]
fn has_routes_sees_any_entry() {
    assert!(has_routes("[routes]\n\"GET /a\" = \"h\"\n"));
    assert!(has_routes("[routes]\nbad = 3\n"));
    assert!(!has_routes("[routes]\n"));
}

#[test]
fn duplicate_handlers_collapse_to_one() {
    let doc = "[routes]\n\"GET /a\" = \"h\"\n\"POST /b\" = \"h\"\n\"GET /c\" = \"other\"\n";
    let handlers = extract_handlers(doc, None);
    assert_eq!(handlers.len(), 2);
    let names: Vec<&str> = handlers.iter().map(|h| h.0.as_str()).collect();
    assert!(names.contains(&"h"));
    assert!(names.contains(&"other"));
}

#[test]
fn handler_with_parameters_takes_request() {
    let doc = "[routes]\n\"GET /a\" = \"with_req\"\n\"GET /b\" = \"no_req\"\n";
    let router = b"pub async fn with_req(req: HttpRequest) -> HttpResponse {\n}\n\npub async fn no_req() -> HttpResponse {\n}\n".to_vec();
    let handlers = extract_handlers(doc, Some(&router));
    for (name, takes) in handlers.iter() {
        if name == "with_req" {
            assert!(*takes);
        } else {
            assert_eq!(name, "no_req");
            assert!(!*takes);
        }
    }
}

#[test]
fn handler_without_source_takes_nothing() {
    let doc = "[routes]\n\"GET /a\" = \"h\"\n";
    let handlers = extract_handlers(doc, None);
    assert_eq!(handlers.len(), 1);
    assert!(!handlers[0].1);
}

#[test]
fn blank_parameter_list_takes_nothing() {
    let doc = "[routes]\n\"GET /a\" = \"h\"\n";
    let router = b"pub async fn h(  ) -> HttpResponse {}\n".to_vec();
    let handlers = extract_handlers(doc, Some(&router));
    assert!(!handlers[0].1);
}

#[test]
fn handler_declarations_are_made_public() {
    // A declaration on the file's first line counts as line-initial.
    let src = "async fn a(req: HttpRequest) -> HttpResponse {\n}\n\nasync fn b() -> HttpResponse {\n}\n";
    let out = publicise_handlers(src);
    assert_eq!(
        out,
        "pub async fn a(req: HttpRequest) -> HttpResponse {\n}\n\npub async fn b() -> HttpResponse {\n}\n",
    );
}

#[test]
fn only_line_initial_handler_declarations_change() {
    let src = "// async fn c() -> HttpResponse\n    async fn indented() -> HttpResponse {}\nasync fn other() -> String {}\npub async fn already(req: R) -> HttpResponse {}\n";
    assert_eq!(publicise_handlers(src), src);
}

#[test]
fn router_module_gains_pub_once() {
    assert_eq!(publicise_router_mod("mod router;\nmod other;\n"), "pub mod router;\nmod other;\n");
    let already = "pub mod router;\nmod router;\n";
    assert_eq!(publicise_router_mod(already), already);
    assert_eq!(publicise_router_mod("mod other;\n"), "mod other;\n");
}
