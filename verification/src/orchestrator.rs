//! Build orchestration: the decisions the tool takes — which command to
//! run, which plugins of a batch to build and which to skip, the steps of
//! one plugin's build, the artifact names, and the joint cache and
//! registry update that only a fully successful build performs.
use vstd::prelude::*;
use vstd::string::StringExecFns;
use crate::cache::{BuildCache, CacheEntryModel, lookup, update_build_cache};
use crate::config::{
    WebArcadeConfig, PluginConfigEntry, ConfigEntryModel, PackageMeta, config_lookup,
};
use crate::routes::{RouteEntry, routes_view};

verus! {

/// What the rebuild check said of one plugin: its sources demand a build,
/// they are unchanged, or the check itself failed — and a failed check
/// builds, never silently skips.
#[derive(Clone, Copy, PartialEq, Eq, Debug, Structural)]
pub enum RebuildCheck {
    Needed,
    UpToDate,
    CheckFailed,
}

/// Whether a plugin's compiler is invoked: always under force, else
/// exactly when its sources are not known to be unchanged.
pub open spec fn should_build(force: bool, check: RebuildCheck) -> bool {
    force || check != RebuildCheck::UpToDate
}

/// Forcing a build always invokes the compiler; an unchanged source tree
/// without force never does.
pub proof fn lemma_force_overrides_and_unchanged_skips(check: RebuildCheck)
    ensures
        should_build(true, check),
        !should_build(false, RebuildCheck::UpToDate),
{
}

/// The ids of a batch listing.
pub open spec fn batch_view(s: Seq<(String, RebuildCheck)>) -> Seq<(Seq<char>, RebuildCheck)> {
    s.map_values(|p: (String, RebuildCheck)| (p.0@, p.1))
}

/// The views of a list of ids.
pub open spec fn ids_view(s: Seq<String>) -> Seq<Seq<char>> {
    s.map_values(|n: String| n@)
}

/// Splits a batch into the plugins to build and the plugins to skip,
/// keeping the listing's order in both: under force everything is built;
/// otherwise exactly the plugins whose check said "unchanged" are
/// skipped, so a batch of five with three unchanged builds two and skips
/// three.
pub fn plan_batch(plugins: &Vec<(String, RebuildCheck)>, force: bool) -> (r: (
    Vec<String>,
    Vec<String>,
))
    ensures
        ids_view(r.0@) == batch_view(plugins@).filter_map(
            |p: (Seq<char>, RebuildCheck)|
                if should_build(force, p.1) {
                    Some(p.0)
                } else {
                    None
                },
        ),
        ids_view(r.1@) == batch_view(plugins@).filter_map(
            |p: (Seq<char>, RebuildCheck)|
                if !should_build(force, p.1) {
                    Some(p.0)
                } else {
                    None
                },
        ),
        r.0@.len() + r.1@.len() == plugins@.len(),
{
    let mut to_build: Vec<String> = Vec::new();
    let mut skipped: Vec<String> = Vec::new();
    let n: usize = plugins.len();
    let mut i: usize = 0;
    proof {
        assert(batch_view(plugins@).take(0) =~= Seq::<(Seq<char>, RebuildCheck)>::empty());
        assert(Seq::<(Seq<char>, RebuildCheck)>::empty().filter_map(
            |p: (Seq<char>, RebuildCheck)|
                if should_build(force, p.1) {
                    Some(p.0)
                } else {
                    None
                },
        ) =~= Seq::<Seq<char>>::empty());
        assert(Seq::<(Seq<char>, RebuildCheck)>::empty().filter_map(
            |p: (Seq<char>, RebuildCheck)|
                if !should_build(force, p.1) {
                    Some(p.0)
                } else {
                    None
                },
        ) =~= Seq::<Seq<char>>::empty());
    }
    while i < n
        invariant
            n == plugins@.len(),
            0 <= i <= n,
            ids_view(to_build@) == batch_view(plugins@).take(i as int).filter_map(
                |p: (Seq<char>, RebuildCheck)|
                    if should_build(force, p.1) {
                        Some(p.0)
                    } else {
                        None
                    },
            ),
            ids_view(skipped@) == batch_view(plugins@).take(i as int).filter_map(
                |p: (Seq<char>, RebuildCheck)|
                    if !should_build(force, p.1) {
                        Some(p.0)
                    } else {
                        None
                    },
            ),
            to_build@.len() + skipped@.len() == i,
        decreases n - i,
    {
        let build_it: bool = force || !matches!(plugins[i].1, RebuildCheck::UpToDate);
        if build_it {
            to_build.push(plugins[i].0.clone());
        } else {
            skipped.push(plugins[i].0.clone());
        }
        proof {
            batch_view(plugins@).lemma_filter_map_take_succ(
                |p: (Seq<char>, RebuildCheck)|
                    if should_build(force, p.1) {
                        Some(p.0)
                    } else {
                        None
                    },
                i as int,
            );
            batch_view(plugins@).lemma_filter_map_take_succ(
                |p: (Seq<char>, RebuildCheck)|
                    if !should_build(force, p.1) {
                        Some(p.0)
                    } else {
                        None
                    },
                i as int,
            );
            assert(batch_view(plugins@)[i as int] == (plugins@[i as int].0@, plugins@[i as int].1));
            assert(ids_view(to_build@) =~= batch_view(plugins@).take(i as int + 1).filter_map(
                |p: (Seq<char>, RebuildCheck)|
                    if should_build(force, p.1) {
                        Some(p.0)
                    } else {
                        None
                    },
            ));
            assert(ids_view(skipped@) =~= batch_view(plugins@).take(i as int + 1).filter_map(
                |p: (Seq<char>, RebuildCheck)|
                    if !should_build(force, p.1) {
                        Some(p.0)
                    } else {
                        None
                    },
            ));
        }
        i += 1;
    }
    proof {
        assert(batch_view(plugins@).take(n as int) =~= batch_view(plugins@));
    }
    (to_build, skipped)
}

/// How many of the outcomes succeeded.
pub open spec fn count_true(s: Seq<bool>) -> int
    decreases s.len(),
{
    if s.len() == 0 {
        0
    } else {
        count_true(s.drop_last()) + if s.last() {
            1int
        } else {
            0int
        }
    }
}

/// The aggregate of a batch: how many built, how many failed, how many
/// were skipped.
pub struct BatchSummary {
    pub built: usize,
    pub failed: usize,
    pub skipped: usize,
}

/// Aggregates a batch's per-plugin outcomes. The batch runs every plugin
/// regardless of earlier failures; only this aggregate decides the exit.
pub fn batch_summary(outcomes: &Vec<bool>, skipped: usize) -> (r: BatchSummary)
    ensures
        r.built == count_true(outcomes@),
        r.failed == outcomes@.len() - count_true(outcomes@),
        r.skipped == skipped,
{
    let n: usize = outcomes.len();
    let mut built: usize = 0;
    let mut i: usize = 0;
    proof {
        assert(outcomes@.take(0) =~= Seq::<bool>::empty());
    }
    while i < n
        invariant
            n == outcomes@.len(),
            0 <= i <= n,
            built == count_true(outcomes@.take(i as int)),
            0 <= count_true(outcomes@.take(i as int)) <= i,
        decreases n - i,
    {
        proof {
            assert(outcomes@.take(i as int + 1).drop_last() =~= outcomes@.take(i as int));
            assert(outcomes@.take(i as int + 1).last() == outcomes@[i as int]);
            lemma_count_true_bounds(outcomes@.take(i as int + 1));
        }
        if outcomes[i] {
            built += 1;
        }
        i += 1;
    }
    proof {
        assert(outcomes@.take(n as int) =~= outcomes@);
        lemma_count_true_bounds(outcomes@);
    }
    BatchSummary { built, failed: n - built, skipped }
}

/// The success count never passes the outcome count.
proof fn lemma_count_true_bounds(s: Seq<bool>)
    ensures
        0 <= count_true(s) <= s.len(),
    decreases s.len(),
{
    if s.len() > 0 {
        lemma_count_true_bounds(s.drop_last());
    }
}

/// Whether the batch as a whole succeeded: the exit status is zero
/// exactly when no plugin failed.
pub fn batch_exit_ok(summary: &BatchSummary) -> (r: bool)
    ensures
        r == (summary.failed == 0),
{
    summary.failed == 0
}

/// A command given to the tool.
pub enum Command {
    Init { project_name: String, branch: String },
    New { plugin_id: String, name: Option<String>, author: Option<String>, frontend_only: bool },
    Build { plugin_id: Option<String>, all: bool, force: bool },
    List,
    Dev,
    Run,
    App { locked: bool },
    Package { skip_prompts: bool, locked: bool, no_rebuild: bool, skip_binary: bool },
    Install { repo: String, force: bool },
    Update,
    Uninstall,
}

/// What a command resolves to: the action the tool performs, with a build
/// request resolved to one plugin, the whole batch, or a usage error when
/// neither a plugin id nor the batch flag was given.
pub enum CommandPlan {
    InitProject { project_name: String, branch: String },
    CreatePlugin { plugin_id: String, name: Option<String>, author: Option<String>, frontend_only: bool },
    BuildAll { force: bool },
    BuildOne { plugin_id: String, force: bool },
    UsageError,
    ListPlugins,
    RunDev,
    BuildApp { locked: bool },
    PackageApp { skip_prompts: bool, locked: bool, no_rebuild: bool, skip_binary: bool },
    InstallPlugin { repo: String, force: bool },
    UpdateTool,
    UninstallTool,
}

/// Resolves a command to its action: a build command with the batch flag
/// builds everything, one with a plugin id builds that plugin, one with
/// neither is a usage error; the development alias runs the same action
/// as the development command; every other command maps to its own
/// action.
pub fn run_command(cmd: Command) -> (r: CommandPlan)
    ensures
        match cmd {
            Command::Init { project_name, branch } => r matches CommandPlan::InitProject {
                project_name: p,
                branch: b,
            } && p == project_name && b == branch,
            Command::New { plugin_id, name, author, frontend_only } => r
                matches CommandPlan::CreatePlugin {
                plugin_id: p,
                name: n,
                author: a,
                frontend_only: f,
            } && p == plugin_id && n == name && a == author && f == frontend_only,
            Command::Build { plugin_id, all, force } => {
                if all {
                    r matches CommandPlan::BuildAll { force: f } && f == force
                } else {
                    match plugin_id {
                        Some(id) => r matches CommandPlan::BuildOne { plugin_id: p, force: f } && p
                            == id && f == force,
                        None => r is UsageError,
                    }
                }
            },
            Command::List => r is ListPlugins,
            Command::Dev => r is RunDev,
            Command::Run => r is RunDev,
            Command::App { locked } => r matches CommandPlan::BuildApp { locked: l } && l == locked,
            Command::Package { skip_prompts, locked, no_rebuild, skip_binary } => r
                matches CommandPlan::PackageApp {
                skip_prompts: s,
                locked: l,
                no_rebuild: n,
                skip_binary: b,
            } && s == skip_prompts && l == locked && n == no_rebuild && b == skip_binary,
            Command::Install { repo, force } => r matches CommandPlan::InstallPlugin {
                repo: rp,
                force: f,
            } && rp == repo && f == force,
            Command::Update => r is UpdateTool,
            Command::Uninstall => r is UninstallTool,
        },
{
    match cmd {
        Command::Init { project_name, branch } => CommandPlan::InitProject { project_name, branch },
        Command::New { plugin_id, name, author, frontend_only } => CommandPlan::CreatePlugin {
            plugin_id,
            name,
            author,
            frontend_only,
        },
        Command::Build { plugin_id, all, force } => {
            if all {
                CommandPlan::BuildAll { force }
            } else {
                match plugin_id {
                    Some(id) => CommandPlan::BuildOne { plugin_id: id, force },
                    None => CommandPlan::UsageError,
                }
            }
        },
        Command::List => CommandPlan::ListPlugins,
        Command::Dev => CommandPlan::RunDev,
        Command::Run => CommandPlan::RunDev,
        Command::App { locked } => CommandPlan::BuildApp { locked },
        Command::Package { skip_prompts, locked, no_rebuild, skip_binary } => {
            CommandPlan::PackageApp { skip_prompts, locked, no_rebuild, skip_binary }
        },
        Command::Install { repo, force } => CommandPlan::InstallPlugin { repo, force },
        Command::Update => CommandPlan::UpdateTool,
        Command::Uninstall => CommandPlan::UninstallTool,
    }
}

/// The target operating system, which fixes the artifact naming
/// convention.
#[derive(Clone, Copy, PartialEq, Eq, Debug, Structural)]
pub enum TargetOs {
    Windows,
    MacOs,
    Linux,
}

/// The artifact file name of a plugin: a native library named by the OS
/// convention for a backend plugin, a script file otherwise. The name is
/// a function of the plugin id and the OS alone.
pub open spec fn artifact_name_spec(id: Seq<char>, os: TargetOs, has_backend: bool) -> Seq<char> {
    if !has_backend {
        id + ".js"@
    } else {
        match os {
            TargetOs::Windows => id + ".dll"@,
            TargetOs::MacOs => "lib"@ + id + ".dylib"@,
            TargetOs::Linux => "lib"@ + id + ".so"@,
        }
    }
}

/// The deterministic artifact file name for a plugin on one OS.
pub fn artifact_name(plugin_id: &str, os: TargetOs, has_backend: bool) -> (r: String)
    ensures
        r@ == artifact_name_spec(plugin_id@, os, has_backend),
{
    if !has_backend {
        let mut out = plugin_id.to_owned();
        out.append(".js");
        out
    } else {
        match os {
            TargetOs::Windows => {
                let mut out = plugin_id.to_owned();
                out.append(".dll");
                out
            },
            TargetOs::MacOs => {
                let mut out = "lib".to_owned();
                out.append(plugin_id);
                out.append(".dylib");
                out
            },
            TargetOs::Linux => {
                let mut out = "lib".to_owned();
                out.append(plugin_id);
                out.append(".so");
                out
            },
        }
    }
}

/// Where plugin sources live under the repository root; the older layout
/// name is kept when it exists.
pub fn get_plugins_dir(repo_root: &str, plugins_src_exists: bool) -> (r: String)
    ensures
        plugins_src_exists ==> r@ == repo_root@ + "/plugins_src"@,
        !plugins_src_exists ==> r@ == repo_root@ + "/plugins"@,
{
    let mut out = repo_root.to_owned();
    if plugins_src_exists {
        out.append("/plugins_src");
    } else {
        out.append("/plugins");
    }
    out
}

/// Where builds work under the repository root.
pub fn get_build_dir(repo_root: &str) -> (r: String)
    ensures
        r@ == repo_root@ + "/build"@,
{
    let mut out = repo_root.to_owned();
    out.append("/build");
    out
}

/// Where built plugins are installed for the host application.
pub fn get_dist_plugins_dir(repo_root: &str) -> (r: String)
    ensures
        r@ == repo_root@ + "/app/plugins"@,
{
    let mut out = repo_root.to_owned();
    out.append("/app/plugins");
    out
}

/// One plugin's builder: the identity and directories a build works with.
pub struct PluginBuilder {
    pub plugin_id: String,
    pub plugin_dir: String,
    pub build_dir: String,
    pub dist_plugins_dir: String,
    pub repo_root: String,
}

/// The first character of an identifier part, upper-cased in the ASCII
/// range.
pub open spec fn ascii_upper(c: char) -> char {
    if 'a' <= c <= 'z' {
        ((c as u8) - 32) as char
    } else {
        c
    }
}

/// The characters of the struct name derived from a plugin id: parts are
/// separated by `-` or `_`, each part's first character is upper-cased,
/// and the separators are dropped.
pub open spec fn struct_name_scan(s: Seq<char>, at_start: bool) -> Seq<char>
    decreases s.len(),
{
    if s.len() == 0 {
        Seq::empty()
    } else if s[0] == '-' || s[0] == '_' {
        struct_name_scan(s.drop_first(), true)
    } else {
        seq![
            if at_start {
                ascii_upper(s[0])
            } else {
                s[0]
            },
        ] + struct_name_scan(s.drop_first(), false)
    }
}

/// The plugin's struct name: its id in camel case with `Plugin` appended.
pub open spec fn struct_name_of(id: Seq<char>) -> Seq<char> {
    struct_name_scan(id, true) + "Plugin"@
}

impl PluginBuilder {
    /// A builder for one plugin: its source directory under the plugins
    /// directory, its working directory under the build directory, and
    /// the host's runtime plugin directory.
    pub fn new(plugin_id: &str, repo_root: &str, plugins_dir: &str) -> (r: Self)
        ensures
            r.plugin_id@ == plugin_id@,
            r.plugin_dir@ == plugins_dir@ + "/"@ + plugin_id@,
            r.build_dir@ == repo_root@ + "/build/"@ + plugin_id@,
            r.dist_plugins_dir@ == repo_root@ + "/app/plugins"@,
            r.repo_root@ == repo_root@,
    {
        let mut plugin_dir = plugins_dir.to_owned();
        plugin_dir.append("/");
        plugin_dir.append(plugin_id);
        let mut build_dir = repo_root.to_owned();
        build_dir.append("/build/");
        build_dir.append(plugin_id);
        let dist_plugins_dir = get_dist_plugins_dir(repo_root);
        PluginBuilder {
            plugin_id: plugin_id.to_owned(),
            plugin_dir,
            build_dir,
            dist_plugins_dir,
            repo_root: repo_root.to_owned(),
        }
    }

    /// The name of the plugin's struct in its handler source, derived
    /// from the plugin id: `my-plugin` names `MyPlugin`, upper-casing in
    /// the ASCII range that plugin ids are drawn from.
    pub fn get_plugin_struct_name(&self) -> (r: String)
        ensures
            r@ == struct_name_of(self.plugin_id@),
    {
        let cs = crate::text::chars_of(self.plugin_id.as_str());
        let mut out: String = String::new();
        let n: usize = cs.len();
        let mut i: usize = 0;
        let mut at_start: bool = true;
        proof {
            assert(self.plugin_id@.skip(0) =~= self.plugin_id@);
        }
        while i < n
            invariant
                n == cs@.len(),
                cs@ == self.plugin_id@,
                0 <= i <= n,
                struct_name_scan(self.plugin_id@, true) == out@ + struct_name_scan(
                    self.plugin_id@.skip(i as int),
                    at_start,
                ),
            decreases n - i,
        {
            let c: char = cs[i];
            proof {
                assert(self.plugin_id@.skip(i as int)[0] == c);
                assert(self.plugin_id@.skip(i as int).drop_first() =~= self.plugin_id@.skip(
                    i as int + 1,
                ));
            }
            if c == '-' || c == '_' {
                at_start = true;
            } else {
                if at_start {
                    let u: char = if 'a' <= c && c <= 'z' {
                        ((c as u8) - 32) as char
                    } else {
                        c
                    };
                    crate::text::push_char(&mut out, u);
                } else {
                    crate::text::push_char(&mut out, c);
                }
                at_start = false;
            }
            i += 1;
        }
        proof {
            assert(self.plugin_id@.skip(n as int) =~= Seq::<char>::empty());
        }
        out.append("Plugin");
        out
    }
}

/// One step of a plugin's build, in the order the orchestrator performs
/// them.
#[derive(Clone, Copy, PartialEq, Eq, Debug, Structural)]
pub enum BuildStep {
    Prepare,
    BundleFrontend,
    InstallScript,
    CreateManifest,
    SetupBackend,
    CompileNative,
    InstallLibrary,
    Cleanup,
}

/// The steps a plugin's build performs, in order: the working directory
/// is prepared; a frontend is bundled when there is one; a plugin
/// without a backend installs its script and cleans up; a backend plugin
/// creates its manifest, sets up the native build, compiles, installs
/// the library, and cleans up.
pub open spec fn build_plan_spec(has_backend: bool, has_frontend: bool) -> Seq<BuildStep> {
    let head: Seq<BuildStep> = if has_frontend {
        seq![BuildStep::Prepare, BuildStep::BundleFrontend]
    } else {
        seq![BuildStep::Prepare]
    };
    if has_backend {
        head + seq![
            BuildStep::CreateManifest,
            BuildStep::SetupBackend,
            BuildStep::CompileNative,
            BuildStep::InstallLibrary,
            BuildStep::Cleanup,
        ]
    } else {
        head + seq![BuildStep::InstallScript, BuildStep::Cleanup]
    }
}

/// Plans the steps of one plugin's build.
pub fn build_plan(has_backend: bool, has_frontend: bool) -> (r: Vec<BuildStep>)
    ensures
        r@ == build_plan_spec(has_backend, has_frontend),
{
    let mut out: Vec<BuildStep> = Vec::new();
    out.push(BuildStep::Prepare);
    if has_frontend {
        out.push(BuildStep::BundleFrontend);
    }
    if has_backend {
        out.push(BuildStep::CreateManifest);
        out.push(BuildStep::SetupBackend);
        out.push(BuildStep::CompileNative);
        out.push(BuildStep::InstallLibrary);
        out.push(BuildStep::Cleanup);
    } else {
        out.push(BuildStep::InstallScript);
        out.push(BuildStep::Cleanup);
    }
    proof {
        assert(out@ =~= build_plan_spec(has_backend, has_frontend));
    }
    out
}

/// Writes the registry entry a successful build earns: the plugin's
/// metadata — falling back to the plugin id and version 1.0.0 where the
/// package document gives none — the installed artifact's name by the
/// OS convention, the default priority, enabled, and the build's route
/// list. No other plugin's entry changes.
pub fn update_config_for_plugin(
    config: &mut WebArcadeConfig,
    plugin_id: &str,
    os: TargetOs,
    has_backend: bool,
    has_frontend: bool,
    routes: Vec<RouteEntry>,
    meta: PackageMeta,
)
    ensures
        config_lookup(final(config).plugins@, plugin_id@) matches Some(e) && e.name == (match meta.name {
            Some(n) => n@,
            None => plugin_id@,
        }) && e.version == (match meta.version {
            Some(v) => v@,
            None => "1.0.0"@,
        }) && e.description == (match meta.description {
            Some(d) => d@,
            None => Seq::<char>::empty(),
        }) && e.author == (match meta.author {
            Some(a) => a@,
            None => Seq::<char>::empty(),
        }) && e.path == artifact_name_spec(plugin_id@, os, has_backend) && e.has_backend == has_backend && e.has_frontend == has_frontend && e.priority == 100
            && e.enabled == true && e.routes == routes_view(routes@),
        forall|other: Seq<char>|
            other != plugin_id@ ==> #[trigger] config_lookup(final(config).plugins@, other)
                == config_lookup(old(config).plugins@, other),
{
    let name: String = match meta.name {
        Some(n) => n,
        None => plugin_id.to_owned(),
    };
    let version: String = match meta.version {
        Some(v) => v,
        None => "1.0.0".to_owned(),
    };
    let description: String = match meta.description {
        Some(d) => d,
        None => String::new(),
    };
    let author: String = match meta.author {
        Some(a) => a,
        None => String::new(),
    };
    let path = artifact_name(plugin_id, os, has_backend);
    let entry = PluginConfigEntry {
        name,
        version,
        description,
        author,
        path,
        has_backend,
        has_frontend,
        priority: crate::config::default_priority(),
        enabled: true,
        routes,
    };
    config.upsert_plugin(plugin_id, entry);
}

/// The dependency-and-library fragment merged into a plugin's package
/// document for the native build: the fixed library section, and the
/// bridge dependency carrying the request feature exactly when the
/// plugin declares routes.
pub open spec fn build_fragment_text(with_bridge: bool) -> Seq<char> {
    if with_bridge {
        "[lib]\ncrate-type = [\"cdylib\"]\npath = \"lib.rs\"\n\n[dependencies]\napi = { package = \"webarcade-api\", version = \"0.1\", features = [\"bridge\"] }\n"@
    } else {
        "[lib]\ncrate-type = [\"cdylib\"]\npath = \"lib.rs\"\n\n[dependencies]\napi = { package = \"webarcade-api\", version = \"0.1\" }\n"@
    }
}

/// The fragment for one build.
fn build_fragment(with_bridge: bool) -> (r: String)
    ensures
        r@ == build_fragment_text(with_bridge),
{
    if with_bridge {
        "[lib]\ncrate-type = [\"cdylib\"]\npath = \"lib.rs\"\n\n[dependencies]\napi = { package = \"webarcade-api\", version = \"0.1\", features = [\"bridge\"] }\n".to_owned()
    } else {
        "[lib]\ncrate-type = [\"cdylib\"]\npath = \"lib.rs\"\n\n[dependencies]\napi = { package = \"webarcade-api\", version = \"0.1\" }\n".to_owned()
    }
}

/// The package document assumed for a plugin that carries none: the
/// plugin id at version 1.0.0, the fragment, and the release profile.
pub open spec fn fallback_build_manifest_text(id: Seq<char>, with_bridge: bool) -> Seq<char> {
    "[package]\nname = \""@ + id + "\"\nversion = \"1.0.0\"\nedition = \"2021\"\n\n"@
        + build_fragment_text(with_bridge)
        + "\n[profile.release]\nopt-level = \"z\"\nlto = true\ncodegen-units = 1\nstrip = true\n"@
}

/// A plugin's own package document reshaped for the native build, or
/// nothing when either text does not parse as a TOML table.
pub uninterp spec fn build_manifest_of(plugin_cargo: Seq<char>, fragment: Seq<char>) -> Option<
    Seq<char>,
>;

/// Relies on the toml crate: parses both texts as tables, merges the
/// fragment's dependency entries into the document's dependency table —
/// keeping the plugin's own dependencies — puts the fragment's other
/// sections (the library section) in place of the document's own, and
/// serializes the result. A function of the two texts alone.
#[verifier::external_body]
fn rewrite_build_manifest(plugin_cargo: &str, fragment: &str) -> (r: Option<String>)
    ensures
        match r {
            Some(m) => build_manifest_of(plugin_cargo@, fragment@) == Some(m@),
            None => build_manifest_of(plugin_cargo@, fragment@) is None,
        },
{
    let mut table: toml::Table = match toml::from_str(plugin_cargo) { Ok(t) => t, Err(_) => return None };
    let mut frag: toml::Table = match toml::from_str(fragment) { Ok(t) => t, Err(_) => return None };
    if let Some(toml::Value::Table(new_deps)) = frag.remove("dependencies") {
        match table.get_mut("dependencies").and_then(|v| v.as_table_mut()) {
            Some(deps) => deps.extend(new_deps),
            None => { table.insert("dependencies".to_string(), toml::Value::Table(new_deps)); },
        }
    }
    table.extend(frag);
    toml::to_string(&table).ok()
}

/// The package document a plugin's native build compiles under: the
/// plugin's own document reshaped with the library section and the
/// bridge dependency; a plugin that carries no document, or one that
/// does not parse, builds under the fixed fallback document instead.
pub fn build_manifest(plugin_cargo: Option<&str>, plugin_id: &str, with_bridge: bool) -> (r:
    String)
    ensures
        r@ == (match plugin_cargo {
            Some(doc) => match build_manifest_of(doc@, build_fragment_text(with_bridge)) {
                Some(m) => m,
                None => fallback_build_manifest_text(plugin_id@, with_bridge),
            },
            None => fallback_build_manifest_text(plugin_id@, with_bridge),
        }),
{
    let fragment = build_fragment(with_bridge);
    let rewritten: Option<String> = match plugin_cargo {
        Some(doc) => rewrite_build_manifest(doc, fragment.as_str()),
        None => None,
    };
    match rewritten {
        Some(m) => m,
        None => {
            let mut out: String = "[package]\nname = \"".to_owned();
            out.append(plugin_id);
            out.append("\"\nversion = \"1.0.0\"\nedition = \"2021\"\n\n");
            out.append(fragment.as_str());
            out.append(
                "\n[profile.release]\nopt-level = \"z\"\nlto = true\ncodegen-units = 1\nstrip = true\n",
            );
            proof {
                assert(out@ =~= fallback_build_manifest_text(plugin_id@, with_bridge));
            }
            out
        },
    }
}

/// The per-target linker configuration written beside the native build's
/// manifest, letting the artifact leave host symbols unresolved until it
/// is loaded.
pub fn linker_config_text() -> (r: String)
    ensures
        r@ == "[target.x86_64-pc-windows-msvc]\nrustflags = [\"-C\", \"link-args=/FORCE:UNRESOLVED\"]\n\n[target.x86_64-unknown-linux-gnu]\nrustflags = [\"-C\", \"link-args=-Wl,--allow-shlib-undefined\"]\n\n[target.x86_64-apple-darwin]\nrustflags = [\"-C\", \"link-args=-undefined dynamic_lookup\"]\n\n[target.aarch64-apple-darwin]\nrustflags = [\"-C\", \"link-args=-undefined dynamic_lookup\"]\n"@,
{
    "[target.x86_64-pc-windows-msvc]\nrustflags = [\"-C\", \"link-args=/FORCE:UNRESOLVED\"]\n\n[target.x86_64-unknown-linux-gnu]\nrustflags = [\"-C\", \"link-args=-Wl,--allow-shlib-undefined\"]\n\n[target.x86_64-apple-darwin]\nrustflags = [\"-C\", \"link-args=-undefined dynamic_lookup\"]\n\n[target.aarch64-apple-darwin]\nrustflags = [\"-C\", \"link-args=-undefined dynamic_lookup\"]\n".to_owned()
}

/// Records one plugin's fully successful build: the fingerprint cache
/// entry and the registry entry are written together, the cache with the
/// digest just built and the registry with the plugin's metadata —
/// falling back to the plugin id and version 1.0.0 where the package
/// document gives none — the installed artifact's name by the OS
/// convention, the default priority, and the build's route list. No
/// other plugin's entries change.
pub fn build_plugin_internal(
    cache: &mut BuildCache,
    config: &mut WebArcadeConfig,
    plugin_id: &str,
    os: TargetOs,
    has_backend: bool,
    has_frontend: bool,
    routes: Vec<RouteEntry>,
    meta: PackageMeta,
    source_hash: String,
    now: u64,
)
    ensures
        lookup(final(cache).entries@, plugin_id@) == Some(
            CacheEntryModel { source_hash: source_hash@, built_at: now },
        ),
        forall|other: Seq<char>|
            other != plugin_id@ ==> #[trigger] lookup(final(cache).entries@, other) == lookup(
                old(cache).entries@,
                other,
            ),
        config_lookup(final(config).plugins@, plugin_id@) matches Some(e) && e.name == (match meta.name {
            Some(n) => n@,
            None => plugin_id@,
        }) && e.version == (match meta.version {
            Some(v) => v@,
            None => "1.0.0"@,
        }) && e.description == (match meta.description {
            Some(d) => d@,
            None => Seq::<char>::empty(),
        }) && e.author == (match meta.author {
            Some(a) => a@,
            None => Seq::<char>::empty(),
        }) && e.path == artifact_name_spec(plugin_id@, os, has_backend) && e.has_backend == has_backend && e.has_frontend == has_frontend && e.priority == 100
            && e.enabled == true && e.routes == routes_view(routes@),
        forall|other: Seq<char>|
            other != plugin_id@ ==> #[trigger] config_lookup(final(config).plugins@, other)
                == config_lookup(old(config).plugins@, other),
{
    update_build_cache(cache, plugin_id, source_hash, now);
    update_config_for_plugin(config, plugin_id, os, has_backend, has_frontend, routes, meta);
}

} // verus!
