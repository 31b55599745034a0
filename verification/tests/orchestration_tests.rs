use webarcade::cache::BuildCache;
use webarcade::config::{PackageMeta, WebArcadeConfig, default_enabled, default_has_frontend, default_priority, get_config_path, package_meta, create_manifest};
use webarcade::orchestrator::{
    artifact_name, batch_exit_ok, batch_summary, build_manifest, build_plan,
    build_plugin_internal, get_build_dir, get_dist_plugins_dir, get_plugins_dir,
    linker_config_text, plan_batch, run_command, BuildStep, Command, CommandPlan, PluginBuilder,
    RebuildCheck, TargetOs,
};
use webarcade::routes::extract_routes;

#[test]
fn batch_of_five_builds_two_and_skips_three() {
    let plugins = vec![
        ("a".to_string(), RebuildCheck::UpToDate),
        ("b".to_string(), RebuildCheck::Needed),
        ("c".to_string(), RebuildCheck::UpToDate),
        ("d".to_string(), RebuildCheck::Needed),
        ("e".to_string(), RebuildCheck::UpToDate),
    ];
    let (to_build, skipped) = plan_batch(&plugins, false);
    assert_eq!(to_build, vec!["b".to_string(), "d".to_string()]);
    assert_eq!(skipped, vec!["a".to_string(), "c".to_string(), "e".to_string()]);
    let outcomes = vec![true, true];
    let summary = batch_summary(&outcomes, skipped.len());
    assert_eq!(summary.built, 2);
    assert_eq!(summary.failed, 0);
    assert_eq!(summary.skipped, 3);
    assert!(batch_exit_ok(&summary));
}

#[test]
fn force_builds_everything() {
    let plugins = vec![
        ("a".to_string(), RebuildCheck::UpToDate),
        ("b".to_string(), RebuildCheck::UpToDate),
    ];
    let (to_build, skipped) = plan_batch(&plugins, true);
    assert_eq!(to_build.len(), 2);
    assert!(skipped.is_empty());
}

#[test]
fn unchanged_tree_without_force_builds_nothing() {
    let plugins = vec![("a".to_string(), RebuildCheck::UpToDate)];
    let (to_build, skipped) = plan_batch(&plugins, false);
    assert!(to_build.is_empty());
    assert_eq!(skipped.len(), 1);
}

#[test]
fn failed_check_builds_rather_than_skips() {
    let plugins = vec![("a".to_string(), RebuildCheck::CheckFailed)];
    let (to_build, skipped) = plan_batch(&plugins, false);
    assert_eq!(to_build.len(), 1);
    assert!(skipped.is_empty());
}

#[test]
fn failed_outcomes_fail_the_batch() {
    let summary = batch_summary(&vec![true, false, true], 0);
    assert_eq!(summary.built, 2);
    assert_eq!(summary.failed, 1);
    assert!(!batch_exit_ok(&summary));
}

#[test]
fn build_command_resolution() {
    let all = run_command(Command::Build { plugin_id: None, all: true, force: true });
    assert!(matches!(all, CommandPlan::BuildAll { force: true }));
    let one = run_command(Command::Build {
        plugin_id: Some("p".to_string()),
        all: false,
        force: false,
    });
    match one {
        CommandPlan::BuildOne { plugin_id, force } => {
            assert_eq!(plugin_id, "p");
            assert!(!force);
        },
        _ => panic!("expected a single-plugin build"),
    }
    let neither = run_command(Command::Build { plugin_id: None, all: false, force: false });
    assert!(matches!(neither, CommandPlan::UsageError));
    assert!(matches!(run_command(Command::Dev), CommandPlan::RunDev));
    assert!(matches!(run_command(Command::Run), CommandPlan::RunDev));
}

#[test]
fn build_plan_orders_steps() {
    let backend = build_plan(true, true);
    assert_eq!(
        backend,
        vec![
            BuildStep::Prepare,
            BuildStep::BundleFrontend,
            BuildStep::CreateManifest,
            BuildStep::SetupBackend,
            BuildStep::CompileNative,
            BuildStep::InstallLibrary,
            BuildStep::Cleanup,
        ],
    );
    let frontend_only = build_plan(false, true);
    assert_eq!(
        frontend_only,
        vec![
            BuildStep::Prepare,
            BuildStep::BundleFrontend,
            BuildStep::InstallScript,
            BuildStep::Cleanup,
        ],
    );
}

#[test]
fn artifact_names_follow_the_os_convention() {
    assert_eq!(artifact_name("p", TargetOs::Windows, true), "p.dll");
    assert_eq!(artifact_name("p", TargetOs::MacOs, true), "libp.dylib");
    assert_eq!(artifact_name("p", TargetOs::Linux, true), "libp.so");
    assert_eq!(artifact_name("p", TargetOs::Linux, false), "p.js");
}

#[test]
fn struct_name_is_camel_cased() {
    let b = PluginBuilder::new("my-editor", "/repo", "/repo/plugins");
    assert_eq!(b.get_plugin_struct_name(), "MyEditorPlugin");
    let b2 = PluginBuilder::new("a_b-c", "/repo", "/repo/plugins");
    assert_eq!(b2.get_plugin_struct_name(), "ABCPlugin");
    assert_eq!(b.plugin_dir, "/repo/plugins/my-editor");
    assert_eq!(b.build_dir, "/repo/build/my-editor");
    assert_eq!(b.dist_plugins_dir, "/repo/app/plugins");
}

#[test]
fn directories_lie_under_the_repo_root() {
    assert_eq!(get_plugins_dir("/r", true), "/r/plugins_src");
    assert_eq!(get_plugins_dir("/r", false), "/r/plugins");
    assert_eq!(get_build_dir("/r"), "/r/build");
    assert_eq!(get_dist_plugins_dir("/r"), "/r/app/plugins");
    assert_eq!(get_config_path("/r"), "/r/webarcade.config.json");
}

#[test]
fn defaults_match_the_registry_schema() {
    assert!(default_has_frontend());
    assert_eq!(default_priority(), 100);
    assert!(default_enabled());
}

#[test]
fn successful_build_updates_cache_and_registry_together() {
    let mut cache = BuildCache::new();
    let mut config = WebArcadeConfig::default_config();
    let meta = package_meta("{\"name\":\"Nice Name\",\"version\":\"2.0.0\"}");
    let routes = extract_routes("[routes]\n\"GET /hello\" = \"handle_hello\"\n");
    build_plugin_internal(
        &mut cache,
        &mut config,
        "p",
        TargetOs::Linux,
        true,
        true,
        routes,
        meta,
        "ffff".to_string(),
        9,
    );
    let c = cache.get("p").unwrap();
    assert_eq!(c.source_hash, "ffff");
    assert_eq!(c.built_at, 9);
    assert_eq!(config.plugins.len(), 1);
    let entry = &config.plugins[0].1;
    assert_eq!(config.plugins[0].0, "p");
    assert_eq!(entry.name, "Nice Name");
    assert_eq!(entry.version, "2.0.0");
    assert_eq!(entry.description, "");
    assert_eq!(entry.author, "");
    assert_eq!(entry.path, "libp.so");
    assert!(entry.has_backend);
    assert!(entry.has_frontend);
    assert_eq!(entry.priority, 100);
    assert!(entry.enabled);
    assert_eq!(entry.routes.len(), 1);
    assert_eq!(entry.routes[0].handler, "handle_hello");
}

#[test]
fn missing_package_document_falls_back_to_id() {
    let mut cache = BuildCache::new();
    let mut config = WebArcadeConfig::default_config();
    let meta = PackageMeta { name: None, version: None, description: None, author: None };
    build_plugin_internal(
        &mut cache,
        &mut config,
        "p",
        TargetOs::Linux,
        false,
        true,
        Vec::new(),
        meta,
        "ffff".to_string(),
        9,
    );
    let entry = &config.plugins[0].1;
    assert_eq!(entry.name, "p");
    assert_eq!(entry.version, "1.0.0");
    assert_eq!(entry.path, "p.js");
    assert!(!entry.has_backend);
}

#[test]
fn registry_upsert_and_remove() {
    let mut config = WebArcadeConfig::default_config();
    assert_eq!(config.name, "WebArcade");
    assert_eq!(config.version, "0.1.0");
    assert_eq!(config.schema.as_deref(), Some("./webarcade.config.schema.json"));
    assert_eq!(config.default_layout.as_deref(), Some("welcome"));
    let meta = PackageMeta { name: None, version: None, description: None, author: None };
    let mut cache = BuildCache::new();
    build_plugin_internal(
        &mut cache,
        &mut config,
        "p",
        TargetOs::Windows,
        false,
        true,
        Vec::new(),
        meta,
        "h".to_string(),
        1,
    );
    assert_eq!(config.plugins.len(), 1);
    config.remove_plugin("p");
    assert_eq!(config.plugins.len(), 0);
}

#[test]
fn package_meta_reads_string_fields_only() {
    let meta = package_meta("{\"name\":\"n\",\"version\":3,\"author\":\"a\"}");
    assert_eq!(meta.name.as_deref(), Some("n"));
    assert!(meta.version.is_none());
    assert!(meta.description.is_none());
    assert_eq!(meta.author.as_deref(), Some("a"));
    let bad = package_meta("not json");
    assert!(bad.name.is_none());
}

#[test]
fn manifest_carries_package_and_routes() {
    let routes = extract_routes("[routes]\n\"GET /hello\" = \"handle_hello\"\n");
    let m = create_manifest(Some("{\"name\":\"np\",\"version\":\"2.0.0\"}"), "p", &routes);
    assert!(m.contains("\"name\": \"np\""));
    assert!(m.contains("\"webarcade\""));
    assert!(m.contains("\"id\": \"p\""));
    assert!(m.contains("\"handler\": \"handle_hello\""));
    assert!(m.contains("\"method\": \"GET\""));
    let fallback = create_manifest(None, "p", &routes);
    assert!(fallback.contains("\"name\": \"p\""));
    assert!(fallback.contains("\"version\": \"1.0.0\""));
    let unparsable = create_manifest(Some("{{"), "p", &routes);
    assert!(unparsable.contains("\"name\": \"p\""));
}

#[test]
fn build_manifest_keeps_plugin_dependencies_and_injects_the_bridge() {
    let plugin_cargo = "[package]\nname = \"p\"\nversion = \"1.0.0\"\nedition = \"2021\"\n\n[lib]\nname = \"stale\"\n\n[dependencies]\nserde = \"1\"\napi = \"0.0.1\"\n\n[routes]\n\"GET /hello\" = \"handle_hello\"\n";
    let m = build_manifest(Some(plugin_cargo), "p", true);
    // The plugin's own dependency survives, the bridge dependency replaces
    // any stale `api` entry, and the library section is the fixed one.
    assert!(m.contains("serde"));
    assert!(m.contains("webarcade-api"));
    assert!(m.contains("bridge"));
    assert!(m.contains("cdylib"));
    assert!(m.contains("lib.rs"));
    assert!(!m.contains("0.0.1"));
    assert!(!m.contains("stale"));
    let quiet = build_manifest(Some(plugin_cargo), "p", false);
    assert!(!quiet.contains("bridge"));
    assert!(quiet.contains("webarcade-api"));
}

#[test]
fn build_manifest_falls_back_without_a_usable_document() {
    let missing = build_manifest(None, "p", false);
    assert!(missing.contains("name = \"p\""));
    assert!(missing.contains("version = \"1.0.0\""));
    assert!(missing.contains("cdylib"));
    assert!(missing.contains("[profile.release]"));
    let broken = build_manifest(Some("not toml [["), "p", true);
    assert_eq!(broken, build_manifest(None, "p", true));
}

#[test]
fn linker_config_covers_each_target() {
    let text = linker_config_text();
    assert!(text.contains("x86_64-pc-windows-msvc"));
    assert!(text.contains("x86_64-unknown-linux-gnu"));
    assert!(text.contains("x86_64-apple-darwin"));
    assert!(text.contains("aarch64-apple-darwin"));
    assert!(text.contains("allow-shlib-undefined"));
}
