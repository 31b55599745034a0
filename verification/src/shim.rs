//! The FFI shim generator: synthesizes the single glue source unit that a
//! plugin's native build compiles, exposing the fixed lifecycle and
//! payload accessors and one exported wrapper per unique handler. The
//! output is a pure function of its inputs, byte for byte, so the
//! fingerprint cache can trust that identical inputs rebuild identically.
use vstd::prelude::*;
use vstd::string::StringExecFns;
use crate::text::{chars_of, push_char};
use crate::routes::handlers_view;

verus! {

/// How one character of an embedded payload is written inside the string
/// literal of the glue source: backslash and quote gain a backslash,
/// a line feed becomes the two characters `\n`, a carriage return is
/// dropped, and every other character stands as itself.
pub open spec fn escape_char(c: char) -> Seq<char> {
    if c == '\\' {
        seq!['\\', '\\']
    } else if c == '"' {
        seq!['\\', '"']
    } else if c == '\n' {
        seq!['\\', 'n']
    } else if c == '\r' {
        Seq::empty()
    } else {
        seq![c]
    }
}

/// The escaped form of an embedded payload.
pub open spec fn escape_text(s: Seq<char>) -> Seq<char>
    decreases s.len(),
{
    if s.len() == 0 {
        Seq::empty()
    } else {
        escape_text(s.drop_last()) + escape_char(s.last())
    }
}

/// Escapes a payload for embedding in the glue source's string literal.
pub fn escape_payload(s: &str) -> (r: String)
    ensures
        r@ == escape_text(s@),
{
    let cs = chars_of(s);
    let mut out: String = String::new();
    let n: usize = cs.len();
    let mut i: usize = 0;
    while i < n
        invariant
            n == cs@.len(),
            cs@ == s@,
            0 <= i <= n,
            out@ == escape_text(s@.take(i as int)),
        decreases n - i,
    {
        let c: char = cs[i];
        if c == '\\' {
            push_char(&mut out, '\\');
            push_char(&mut out, '\\');
        } else if c == '"' {
            push_char(&mut out, '\\');
            push_char(&mut out, '"');
        } else if c == '\n' {
            push_char(&mut out, '\\');
            push_char(&mut out, 'n');
        } else if c == '\r' {
        } else {
            push_char(&mut out, c);
        }
        proof {
            assert(s@.take(i as int + 1).drop_last() =~= s@.take(i as int));
            assert(s@.take(i as int + 1).last() == s@[i as int]);
            assert(out@ =~= escape_text(s@.take(i as int + 1)));
        }
        i += 1;
    }
    proof {
        assert(s@.take(n as int) =~= s@);
    }
    out
}

/// The invocation of the target handler inside its wrapper: the decoded
/// request is passed exactly when the handler's declared parameter list
/// takes it.
pub open spec fn handler_call_text(name: Seq<char>, takes_request: bool) -> Seq<char> {
    if takes_request {
        "plugin_mod::router::"@ + name + "(http_request.clone()).await"@
    } else {
        "plugin_mod::router::"@ + name + "().await"@
    }
}

/// The two invocation forms are never the same text.
pub proof fn lemma_call_text_distinguishes(name: Seq<char>)
    ensures
        handler_call_text(name, true) != handler_call_text(name, false),
{
    reveal_strlit("(http_request.clone()).await");
    reveal_strlit("().await");
    assert(handler_call_text(name, true).len() != handler_call_text(name, false).len());
}

pub open spec fn wrapper_head() -> Seq<char> {
    "\n#[no_mangle]\npub extern \"C\" fn "@
}

pub open spec fn wrapper_mid() -> Seq<char> {
    "(request_ptr: *const u8, request_len: usize, _runtime_ptr: *const ()) -> *const u8 {\n    use std::panic;\n    use std::ffi::CString;\n    use api::ffi_http::Response as FFIResponse;\n    use api::http::HttpRequest;\n\n    let result = panic::catch_unwind(|| {\n        let _http_request = match HttpRequest::from_ffi_json(request_ptr, request_len) {\n            Ok(r) => r,\n            Err(e) => {\n                let error_response = FFIResponse::new(400)\n                    .json(&api::serde_json::json!({\"error\": e}));\n                return error_response.into_ffi_ptr();\n            }\n        };\n        #[allow(unused_variables)]\n        let http_request = _http_request;\n\n        let rt = api::tokio::runtime::Builder::new_current_thread()\n            .enable_all()\n            .build()\n            .expect(\"Failed to create handler runtime\");\n        rt.block_on(async {\n            let handler_result = "@
}

pub open spec fn wrapper_tail() -> Seq<char> {
    ";\n            let response = handler_result;\n\n            let (parts, body) = response.into_parts();\n            let status = parts.status.as_u16();\n\n            let mut headers = std::collections::HashMap::new();\n            for (key, value) in parts.headers.iter() {\n                if let Ok(v) = value.to_str() {\n                    headers.insert(key.to_string(), v.to_string());\n                }\n            }\n\n            let body_bytes = body.to_vec();\n\n            let mut ffi_response = FFIResponse::new(status);\n            ffi_response.headers = headers.clone();\n\n            let content_type = headers.get(\"content-type\")\n                .or_else(|| headers.get(\"Content-Type\"))\n                .cloned()\n                .unwrap_or_default()\n                .to_lowercase();\n\n            let is_binary = content_type.starts_with(\"image/\")\n                || content_type == \"application/octet-stream\";\n\n            if is_binary {\n                use api::base64::Engine;\n                ffi_response.body_base64 = Some(\n                    api::base64::engine::general_purpose::STANDARD.encode(&body_bytes)\n                );\n            } else if let Ok(body_str) = String::from_utf8(body_bytes.clone()) {\n                if let Ok(json_value) = api::serde_json::from_str::<api::serde_json::Value>(&body_str) {\n                    ffi_response.body = Some(json_value);\n                } else {\n                    ffi_response.body = Some(api::serde_json::Value::String(body_str));\n                }\n            } else {\n                use api::base64::Engine;\n                ffi_response.body_base64 = Some(\n                    api::base64::engine::general_purpose::STANDARD.encode(&body_bytes)\n                );\n            }\n\n            ffi_response.into_ffi_ptr()\n        })\n    });\n\n    match result {\n        Ok(ptr) => ptr,\n        Err(_) => {\n            let error = CString::new(r#\"{\"__ffi_response__\":true,\"status\":500,\"headers\":{\"Content-Type\":\"application/json\"},\"body\":{\"error\":\"Handler panicked\"}}\"#).unwrap();\n            Box::leak(Box::new(error)).as_ptr() as *const u8\n        }\n    }\n}\n"@
}

/// The exported wrapper for one handler: a fixed calling convention, the
/// request decoded first, a 400 envelope on a malformed request, the
/// handler invoked per `takes_request`, the response encoded into the
/// envelope, and a panic contained as a fixed 500 payload.
pub open spec fn wrapper_text(name: Seq<char>, takes_request: bool) -> Seq<char> {
    wrapper_head() + name + wrapper_mid() + handler_call_text(name, takes_request) + wrapper_tail()
}

/// The wrapper section of the glue source: one wrapper per handler, in
/// handler-list order.
pub open spec fn wrappers_text(handlers: Seq<(Seq<char>, bool)>) -> Seq<char>
    decreases handlers.len(),
{
    if handlers.len() == 0 {
        Seq::empty()
    } else {
        wrappers_text(handlers.drop_last()) + wrapper_text(
            handlers.last().0,
            handlers.last().1,
        )
    }
}

pub open spec fn head_bridge() -> Seq<char> {
    "// Plugin glue (with bridge support)\npub mod plugin_mod;\npub use plugin_mod::*;\npub use api::ffi_http::free_string;\n\n/// Embedded frontend JavaScript (plugin.js)\nconst EMBEDDED_FRONTEND: &str = \""@
}

pub open spec fn head_minimal() -> Seq<char> {
    "// Plugin glue (minimal - no bridge)\npub mod plugin_mod;\npub use plugin_mod::*;\n\n/// Embedded frontend JavaScript (plugin.js)\nconst EMBEDDED_FRONTEND: &str = \""@
}

pub open spec fn between_payloads() -> Seq<char> {
    "\";\n\n/// Embedded manifest (package.json)\nconst EMBEDDED_MANIFEST: &str = \""@
}

pub open spec fn after_payloads() -> Seq<char> {
    "\";\n\n#[no_mangle]\npub extern \"C\" fn plugin_init(_ffi_ctx: *const ()) -> i32 { 0 }\n\n#[no_mangle]\npub extern \"C\" fn plugin_start(_ffi_ctx: *const ()) -> i32 { 0 }\n\n#[no_mangle]\npub extern \"C\" fn plugin_stop() -> i32 { 0 }\n\n#[no_mangle]\npub extern \"C\" fn plugin_metadata() -> *const u8 {\n    use api::{Plugin, serde_json};\n    let plugin = plugin_mod::"@
}

pub open spec fn accessors_text() -> Seq<char> {
    ";\n    let metadata = plugin.metadata();\n    let json = serde_json::to_string(&metadata).unwrap_or_default();\n    Box::leak(Box::new(json)).as_ptr() as *const u8\n}\n\n/// Returns the embedded manifest (package.json) as a null-terminated string\n#[no_mangle]\npub extern \"C\" fn get_plugin_manifest() -> *const u8 {\n    let manifest = EMBEDDED_MANIFEST.to_string();\n    let leaked = Box::leak(Box::new(manifest));\n    leaked.as_ptr()\n}\n\n/// Returns the length of the embedded manifest\n#[no_mangle]\npub extern \"C\" fn get_plugin_manifest_len() -> usize {\n    EMBEDDED_MANIFEST.len()\n}\n\n/// Returns the embedded frontend (plugin.js) as a null-terminated string\n#[no_mangle]\npub extern \"C\" fn get_plugin_frontend() -> *const u8 {\n    let frontend = EMBEDDED_FRONTEND.to_string();\n    let leaked = Box::leak(Box::new(frontend));\n    leaked.as_ptr()\n}\n\n/// Returns the length of the embedded frontend\n#[no_mangle]\npub extern \"C\" fn get_plugin_frontend_len() -> usize {\n    EMBEDDED_FRONTEND.len()\n}\n\n/// Returns whether this plugin has a frontend\n#[no_mangle]\npub extern \"C\" fn has_frontend() -> bool {\n    !EMBEDDED_FRONTEND.is_empty()\n}\n\n/// Free a string allocated by this plugin\n#[no_mangle]\npub extern \"C\" fn free_plugin_string(ptr: *mut u8) {\n    if !ptr.is_null() {\n        unsafe {\n            let _ = std::ffi::CString::from_raw(ptr as *mut i8);\n        }\n    }\n}\n"@
}

/// The whole glue source for one plugin, as text: a pure function of the
/// plugin's struct name, its handler list, the bundled frontend, the
/// manifest document, and whether the bridge is wanted. Identical inputs
/// give identical text. Without the bridge, the minimal variant carries
/// only the lifecycle, metadata and payload accessors and no request
/// machinery at all.
pub open spec fn shim_text(
    struct_name: Seq<char>,
    handlers: Seq<(Seq<char>, bool)>,
    frontend: Seq<char>,
    manifest: Seq<char>,
    with_bridge: bool,
) -> Seq<char> {
    if with_bridge {
        head_bridge() + escape_text(frontend) + between_payloads() + escape_text(manifest)
            + after_payloads() + struct_name + accessors_text() + wrappers_text(handlers)
    } else {
        head_minimal() + escape_text(frontend) + between_payloads() + escape_text(manifest)
            + after_payloads() + struct_name + accessors_text()
    }
}

/// Renders the glue source for one plugin. The text is a pure function of
/// the arguments; when `with_bridge` is false the handler list is ignored
/// and the minimal variant is produced.
pub fn generate_shim(
    struct_name: &str,
    handlers: &Vec<(String, bool)>,
    frontend: &str,
    manifest: &str,
    with_bridge: bool,
) -> (r: String)
    ensures
        r@ == shim_text(
            struct_name@,
            if with_bridge {
                handlers_view(handlers@)
            } else {
                Seq::empty()
            },
            frontend@,
            manifest@,
            with_bridge,
        ),
{
    let mut out: String = String::new();
    if with_bridge {
        out.append(
            "// Plugin glue (with bridge support)\npub mod plugin_mod;\npub use plugin_mod::*;\npub use api::ffi_http::free_string;\n\n/// Embedded frontend JavaScript (plugin.js)\nconst EMBEDDED_FRONTEND: &str = \"",
        );
    } else {
        out.append(
            "// Plugin glue (minimal - no bridge)\npub mod plugin_mod;\npub use plugin_mod::*;\n\n/// Embedded frontend JavaScript (plugin.js)\nconst EMBEDDED_FRONTEND: &str = \"",
        );
    }
    let ef = escape_payload(frontend);
    out.append(ef.as_str());
    out.append("\";\n\n/// Embedded manifest (package.json)\nconst EMBEDDED_MANIFEST: &str = \"");
    let em = escape_payload(manifest);
    out.append(em.as_str());
    out.append(
        "\";\n\n#[no_mangle]\npub extern \"C\" fn plugin_init(_ffi_ctx: *const ()) -> i32 { 0 }\n\n#[no_mangle]\npub extern \"C\" fn plugin_start(_ffi_ctx: *const ()) -> i32 { 0 }\n\n#[no_mangle]\npub extern \"C\" fn plugin_stop() -> i32 { 0 }\n\n#[no_mangle]\npub extern \"C\" fn plugin_metadata() -> *const u8 {\n    use api::{Plugin, serde_json};\n    let plugin = plugin_mod::",
    );
    out.append(struct_name);
    out.append(
        ";\n    let metadata = plugin.metadata();\n    let json = serde_json::to_string(&metadata).unwrap_or_default();\n    Box::leak(Box::new(json)).as_ptr() as *const u8\n}\n\n/// Returns the embedded manifest (package.json) as a null-terminated string\n#[no_mangle]\npub extern \"C\" fn get_plugin_manifest() -> *const u8 {\n    let manifest = EMBEDDED_MANIFEST.to_string();\n    let leaked = Box::leak(Box::new(manifest));\n    leaked.as_ptr()\n}\n\n/// Returns the length of the embedded manifest\n#[no_mangle]\npub extern \"C\" fn get_plugin_manifest_len() -> usize {\n    EMBEDDED_MANIFEST.len()\n}\n\n/// Returns the embedded frontend (plugin.js) as a null-terminated string\n#[no_mangle]\npub extern \"C\" fn get_plugin_frontend() -> *const u8 {\n    let frontend = EMBEDDED_FRONTEND.to_string();\n    let leaked = Box::leak(Box::new(frontend));\n    leaked.as_ptr()\n}\n\n/// Returns the length of the embedded frontend\n#[no_mangle]\npub extern \"C\" fn get_plugin_frontend_len() -> usize {\n    EMBEDDED_FRONTEND.len()\n}\n\n/// Returns whether this plugin has a frontend\n#[no_mangle]\npub extern \"C\" fn has_frontend() -> bool {\n    !EMBEDDED_FRONTEND.is_empty()\n}\n\n/// Free a string allocated by this plugin\n#[no_mangle]\npub extern \"C\" fn free_plugin_string(ptr: *mut u8) {\n    if !ptr.is_null() {\n        unsafe {\n            let _ = std::ffi::CString::from_raw(ptr as *mut i8);\n        }\n    }\n}\n",
    );
    if !with_bridge {
        proof {
            assert(wrappers_text(Seq::<(Seq<char>, bool)>::empty()) =~= Seq::<char>::empty());
        }
        return out;
    }
    let ghost fixed = out@;
    let n: usize = handlers.len();
    let mut i: usize = 0;
    proof {
        assert(wrappers_text(handlers_view(handlers@).take(0)) =~= Seq::<char>::empty());
        assert(out@ =~= fixed + wrappers_text(handlers_view(handlers@).take(0)));
    }
    while i < n
        invariant
            n == handlers@.len(),
            0 <= i <= n,
            out@ == fixed + wrappers_text(handlers_view(handlers@).take(i as int)),
        decreases n - i,
    {
        out.append("\n#[no_mangle]\npub extern \"C\" fn ");
        out.append(handlers[i].0.as_str());
        out.append(
            "(request_ptr: *const u8, request_len: usize, _runtime_ptr: *const ()) -> *const u8 {\n    use std::panic;\n    use std::ffi::CString;\n    use api::ffi_http::Response as FFIResponse;\n    use api::http::HttpRequest;\n\n    let result = panic::catch_unwind(|| {\n        let _http_request = match HttpRequest::from_ffi_json(request_ptr, request_len) {\n            Ok(r) => r,\n            Err(e) => {\n                let error_response = FFIResponse::new(400)\n                    .json(&api::serde_json::json!({\"error\": e}));\n                return error_response.into_ffi_ptr();\n            }\n        };\n        #[allow(unused_variables)]\n        let http_request = _http_request;\n\n        let rt = api::tokio::runtime::Builder::new_current_thread()\n            .enable_all()\n            .build()\n            .expect(\"Failed to create handler runtime\");\n        rt.block_on(async {\n            let handler_result = ",
        );
        out.append("plugin_mod::router::");
        out.append(handlers[i].0.as_str());
        if handlers[i].1 {
            out.append("(http_request.clone()).await");
        } else {
            out.append("().await");
        }
        out.append(
            ";\n            let response = handler_result;\n\n            let (parts, body) = response.into_parts();\n            let status = parts.status.as_u16();\n\n            let mut headers = std::collections::HashMap::new();\n            for (key, value) in parts.headers.iter() {\n                if let Ok(v) = value.to_str() {\n                    headers.insert(key.to_string(), v.to_string());\n                }\n            }\n\n            let body_bytes = body.to_vec();\n\n            let mut ffi_response = FFIResponse::new(status);\n            ffi_response.headers = headers.clone();\n\n            let content_type = headers.get(\"content-type\")\n                .or_else(|| headers.get(\"Content-Type\"))\n                .cloned()\n                .unwrap_or_default()\n                .to_lowercase();\n\n            let is_binary = content_type.starts_with(\"image/\")\n                || content_type == \"application/octet-stream\";\n\n            if is_binary {\n                use api::base64::Engine;\n                ffi_response.body_base64 = Some(\n                    api::base64::engine::general_purpose::STANDARD.encode(&body_bytes)\n                );\n            } else if let Ok(body_str) = String::from_utf8(body_bytes.clone()) {\n                if let Ok(json_value) = api::serde_json::from_str::<api::serde_json::Value>(&body_str) {\n                    ffi_response.body = Some(json_value);\n                } else {\n                    ffi_response.body = Some(api::serde_json::Value::String(body_str));\n                }\n            } else {\n                use api::base64::Engine;\n                ffi_response.body_base64 = Some(\n                    api::base64::engine::general_purpose::STANDARD.encode(&body_bytes)\n                );\n            }\n\n            ffi_response.into_ffi_ptr()\n        })\n    });\n\n    match result {\n        Ok(ptr) => ptr,\n        Err(_) => {\n            let error = CString::new(r#\"{\"__ffi_response__\":true,\"status\":500,\"headers\":{\"Content-Type\":\"application/json\"},\"body\":{\"error\":\"Handler panicked\"}}\"#).unwrap();\n            Box::leak(Box::new(error)).as_ptr() as *const u8\n        }\n    }\n}\n",
        );
        proof {
            let hv = handlers_view(handlers@);
            assert(hv.take(i as int + 1).drop_last() =~= hv.take(i as int));
            assert(hv.take(i as int + 1).last() == hv[i as int]);
            assert(hv[i as int] == (handlers@[i as int].0@, handlers@[i as int].1));
            assert(out@ =~= fixed + wrappers_text(hv.take(i as int + 1)));
        }
        i += 1;
    }
    proof {
        assert(handlers_view(handlers@).take(n as int) =~= handlers_view(handlers@));
    }
    out
}

} // verus!
