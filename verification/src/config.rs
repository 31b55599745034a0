//! The persisted configuration registry: one entry per plugin id,
//! reflecting the plugin's last successful build, together with the
//! package metadata read for it. An entry is written only by a successful
//! build, never by a failed or skipped one.
use vstd::prelude::*;
use vstd::string::StringExecFns;
use crate::text::str_eq;
use crate::routes::{RouteEntry, RouteModel, routes_view};

verus! {

/// Plugins carry a frontend unless stated otherwise.
pub fn default_has_frontend() -> (r: bool)
    ensures
        r == true,
{
    true
}

/// Default priority of a registry entry.
pub fn default_priority() -> (r: i32)
    ensures
        r == 100,
{
    100
}

/// Entries are enabled unless stated otherwise.
pub fn default_enabled() -> (r: bool)
    ensures
        r == true,
{
    true
}

/// Model of one registry entry.
#[verifier::ext_equal]
pub ghost struct ConfigEntryModel {
    pub name: Seq<char>,
    pub version: Seq<char>,
    pub description: Seq<char>,
    pub author: Seq<char>,
    pub path: Seq<char>,
    pub has_backend: bool,
    pub has_frontend: bool,
    pub priority: i32,
    pub enabled: bool,
    pub routes: Seq<RouteModel>,
}

/// One plugin's registry entry.
pub struct PluginConfigEntry {
    pub name: String,
    pub version: String,
    pub description: String,
    pub author: String,
    pub path: String,
    pub has_backend: bool,
    pub has_frontend: bool,
    pub priority: i32,
    pub enabled: bool,
    pub routes: Vec<RouteEntry>,
}

impl View for PluginConfigEntry {
    type V = ConfigEntryModel;

    open spec fn view(&self) -> ConfigEntryModel {
        ConfigEntryModel {
            name: self.name@,
            version: self.version@,
            description: self.description@,
            author: self.author@,
            path: self.path@,
            has_backend: self.has_backend,
            has_frontend: self.has_frontend,
            priority: self.priority,
            enabled: self.enabled,
            routes: routes_view(self.routes@),
        }
    }
}

/// The configuration registry.
pub struct WebArcadeConfig {
    pub schema: Option<String>,
    pub name: String,
    pub version: String,
    pub default_layout: Option<String>,
    pub plugins: Vec<(String, PluginConfigEntry)>,
}

/// The entry recorded for `id`, if any; the first entry wins.
pub open spec fn config_lookup(
    plugins: Seq<(String, PluginConfigEntry)>,
    id: Seq<char>,
) -> Option<ConfigEntryModel>
    decreases plugins.len(),
{
    if plugins.len() == 0 {
        None
    } else if plugins[0].0@ == id {
        Some(plugins[0].1@)
    } else {
        config_lookup(plugins.drop_first(), id)
    }
}

/// A lookup passes over a prefix without the id.
proof fn lemma_config_lookup_skip(
    plugins: Seq<(String, PluginConfigEntry)>,
    id: Seq<char>,
    m: int,
)
    requires
        0 <= m <= plugins.len(),
        forall|k: int| 0 <= k < m ==> (#[trigger] plugins[k]).0@ != id,
    ensures
        config_lookup(plugins, id) == config_lookup(plugins.skip(m), id),
    decreases m,
{
    if m > 0 {
        assert(plugins.drop_first() =~= plugins.skip(1));
        lemma_config_lookup_skip(plugins.skip(1), id, m - 1);
        assert(plugins.skip(1).skip(m - 1) =~= plugins.skip(m));
    } else {
        assert(plugins.skip(0) =~= plugins);
    }
}

/// A lookup in a concatenation takes the left answer when there is one.
proof fn lemma_config_lookup_append(
    a: Seq<(String, PluginConfigEntry)>,
    b: Seq<(String, PluginConfigEntry)>,
    id: Seq<char>,
)
    ensures
        config_lookup(a + b, id) == if config_lookup(a, id) is Some {
            config_lookup(a, id)
        } else {
            config_lookup(b, id)
        },
    decreases a.len(),
{
    if a.len() == 0 {
        assert(a + b =~= b);
    } else {
        assert((a + b)[0] == a[0]);
        assert((a + b).drop_first() =~= a.drop_first() + b);
        lemma_config_lookup_append(a.drop_first(), b, id);
    }
}

impl WebArcadeConfig {
    /// The registry a project starts with, before any entry is written.
    pub fn default_config() -> (r: Self)
        ensures
            r.schema matches Some(s) && s@ == "./webarcade.config.schema.json"@,
            r.name@ == "WebArcade"@,
            r.version@ == "0.1.0"@,
            r.default_layout matches Some(l) && l@ == "welcome"@,
            r.plugins@ =~= Seq::<(String, PluginConfigEntry)>::empty(),
    {
        WebArcadeConfig {
            schema: Some("./webarcade.config.schema.json".to_owned()),
            name: "WebArcade".to_owned(),
            version: "0.1.0".to_owned(),
            default_layout: Some("welcome".to_owned()),
            plugins: Vec::new(),
        }
    }

    /// Index of the first entry for the id, if any.
    fn find_index(&self, plugin_id: &str) -> (r: Option<usize>)
        ensures
            match r {
                Some(i) => i < self.plugins@.len() && self.plugins@[i as int].0@ == plugin_id@
                    && forall|k: int|
                    0 <= k < i ==> (#[trigger] self.plugins@[k]).0@ != plugin_id@,
                None => forall|k: int|
                    0 <= k < self.plugins@.len() ==> (#[trigger] self.plugins@[k]).0@
                        != plugin_id@,
            },
    {
        let n: usize = self.plugins.len();
        let mut i: usize = 0;
        while i < n
            invariant
                n == self.plugins@.len(),
                0 <= i <= n,
                forall|k: int| 0 <= k < i ==> (#[trigger] self.plugins@[k]).0@ != plugin_id@,
            decreases n - i,
        {
            if str_eq(self.plugins[i].0.as_str(), plugin_id) {
                return Some(i);
            }
            i += 1;
        }
        None
    }

    /// Adds or replaces the entry for a plugin id; every other id's entry
    /// is untouched.
    pub fn upsert_plugin(&mut self, plugin_id: &str, entry: PluginConfigEntry)
        ensures
            config_lookup(final(self).plugins@, plugin_id@) == Some(entry@),
            forall|other: Seq<char>|
                other != plugin_id@ ==> #[trigger] config_lookup(final(self).plugins@, other)
                    == config_lookup(old(self).plugins@, other),
            final(self).schema == old(self).schema,
            final(self).name == old(self).name,
            final(self).version == old(self).version,
            final(self).default_layout == old(self).default_layout,
    {
        let key = plugin_id.to_owned();
        let found = self.find_index(plugin_id);
        let ghost before = self.plugins@;
        let ghost entry_model = entry@;
        match found {
            Some(i) => {
                let ghost pos = i as int;
                let _replaced = self.plugins.remove(i);
                self.plugins.insert(i, (key, entry));
                proof {
                    let a = before.subrange(0, pos);
                    let tail = before.subrange(pos + 1, before.len() as int);
                    let e = self.plugins@[pos];
                    assert(before.remove(pos) =~= a + tail);
                    assert(self.plugins@ =~= a + (seq![e] + tail)) by {
                        before.remove_ensures(pos);
                        (before.remove(pos)).insert_ensures(pos, e);
                    }
                    assert(before =~= a + (seq![before[pos]] + tail));
                    lemma_config_lookup_append(a, seq![e] + tail, plugin_id@);
                    lemma_config_lookup_skip(a, plugin_id@, a.len() as int);
                    assert(a.skip(a.len() as int) =~= Seq::<(String, PluginConfigEntry)>::empty());
                    assert((seq![e] + tail)[0] == e);
                    assert(e.0@ == plugin_id@);
                    assert(e.1@ == entry_model);
                    assert(config_lookup(self.plugins@, plugin_id@) == Some(entry_model));
                    assert forall|other: Seq<char>| other != plugin_id@ implies #[trigger] config_lookup(
                        self.plugins@,
                        other,
                    ) == config_lookup(old(self).plugins@, other) by {
                        lemma_config_lookup_append(a, seq![e] + tail, other);
                        lemma_config_lookup_append(a, seq![before[pos]] + tail, other);
                        assert((seq![e] + tail).drop_first() =~= tail);
                        assert((seq![before[pos]] + tail).drop_first() =~= tail);
                        assert((seq![e] + tail)[0] == e);
                        assert((seq![before[pos]] + tail)[0] == before[pos]);
                        assert(before[pos].0@ == plugin_id@);
                        assert(old(self).plugins@ == before);
                    }
                }
            },
            None => {
                self.plugins.push((key, entry));
                proof {
                    let e = self.plugins@[before.len() as int];
                    assert(self.plugins@ =~= before + seq![e]);
                    assert(e.0@ == plugin_id@);
                    assert(e.1@ == entry_model);
                    lemma_config_lookup_append(before, seq![e], plugin_id@);
                    lemma_config_lookup_skip(before, plugin_id@, before.len() as int);
                    assert(before.skip(before.len() as int) =~= Seq::<
                        (String, PluginConfigEntry),
                    >::empty());
                    assert(config_lookup(self.plugins@, plugin_id@) == Some(e.1@));
                    assert forall|other: Seq<char>| other != plugin_id@ implies #[trigger] config_lookup(
                        self.plugins@,
                        other,
                    ) == config_lookup(old(self).plugins@, other) by {
                        lemma_config_lookup_append(before, seq![e], other);
                        assert(seq![e][0] == e);
                        assert(e.0@ == plugin_id@);
                        assert(seq![e].drop_first() =~= Seq::<
                            (String, PluginConfigEntry),
                        >::empty());
                        assert(config_lookup(
                            Seq::<(String, PluginConfigEntry)>::empty(),
                            other,
                        ) is None);
                    }
                }
            },
        }
    }

    /// Removes the entries for a plugin id; every other id's entry is
    /// untouched.
    pub fn remove_plugin(&mut self, plugin_id: &str)
        ensures
            config_lookup(final(self).plugins@, plugin_id@) is None,
            forall|other: Seq<char>|
                other != plugin_id@ ==> #[trigger] config_lookup(final(self).plugins@, other)
                    == config_lookup(old(self).plugins@, other),
            final(self).schema == old(self).schema,
            final(self).name == old(self).name,
            final(self).version == old(self).version,
            final(self).default_layout == old(self).default_layout,
    {
        let n: usize = self.plugins.len();
        let mut i: usize = 0;
        let mut out: Vec<(String, PluginConfigEntry)> = Vec::new();
        while i < n
            invariant
                n == self.plugins@.len(),
                self == old(self),
                0 <= i <= n,
                forall|other: Seq<char>|
                    other != plugin_id@ ==> #[trigger] config_lookup(out@, other) == config_lookup(
                        self.plugins@.take(i as int),
                        other,
                    ),
                config_lookup(out@, plugin_id@) is None,
            decreases n - i,
        {
            let ghost prev = out@;
            let ghost cur = self.plugins@[i as int];
            let ghost taken = self.plugins@.take(i as int);
            let ghost taken1 = self.plugins@.take(i as int + 1);
            if !str_eq(self.plugins[i].0.as_str(), plugin_id) {
                let item = (self.plugins[i].0.clone(), clone_entry(&self.plugins[i].1));
                out.push(item);
                proof {
                    let e = out@[prev.len() as int];
                    assert(out@ =~= prev + seq![e]);
                    assert(e.0@ == cur.0@);
                    assert(e.1@ == cur.1@);
                    assert(taken1 =~= taken + seq![cur]);
                    assert(seq![e][0] == e);
                    assert(seq![cur][0] == cur);
                    assert(seq![e].drop_first() =~= Seq::<(String, PluginConfigEntry)>::empty());
                    assert(seq![cur].drop_first() =~= Seq::<(String, PluginConfigEntry)>::empty());
                    assert forall|other: Seq<char>|
                        other != plugin_id@ implies #[trigger] config_lookup(out@, other)
                        == config_lookup(taken1, other) by {
                        lemma_config_lookup_append(prev, seq![e], other);
                        lemma_config_lookup_append(taken, seq![cur], other);
                        assert(config_lookup(
                            Seq::<(String, PluginConfigEntry)>::empty(),
                            other,
                        ) is None);
                    }
                    assert(config_lookup(out@, plugin_id@) is None) by {
                        lemma_config_lookup_append(prev, seq![e], plugin_id@);
                        assert(e.0@ != plugin_id@);
                        assert(config_lookup(
                            Seq::<(String, PluginConfigEntry)>::empty(),
                            plugin_id@,
                        ) is None);
                    }
                }
            } else {
                proof {
                    assert(cur.0@ == plugin_id@);
                    assert(taken1 =~= taken + seq![cur]);
                    assert(seq![cur][0] == cur);
                    assert(seq![cur].drop_first() =~= Seq::<(String, PluginConfigEntry)>::empty());
                    assert forall|other: Seq<char>|
                        other != plugin_id@ implies #[trigger] config_lookup(out@, other)
                        == config_lookup(taken1, other) by {
                        lemma_config_lookup_append(taken, seq![cur], other);
                        assert(config_lookup(
                            Seq::<(String, PluginConfigEntry)>::empty(),
                            other,
                        ) is None);
                    }
                }
            }
            i += 1;
        }
        proof {
            assert(self.plugins@.take(n as int) =~= self.plugins@);
        }
        self.plugins = out;
    }
}

/// Copies a registry entry.
fn clone_entry(e: &PluginConfigEntry) -> (r: PluginConfigEntry)
    ensures
        r@ == e@,
{
    let mut routes: Vec<RouteEntry> = Vec::new();
    let n: usize = e.routes.len();
    let mut i: usize = 0;
    while i < n
        invariant
            n == e.routes@.len(),
            0 <= i <= n,
            routes_view(routes@) =~= routes_view(e.routes@.take(i as int)),
        decreases n - i,
    {
        routes.push(e.routes[i].clone());
        proof {
            assert(e.routes@.take(i as int + 1).drop_last() =~= e.routes@.take(i as int));
            assert(routes_view(routes@) =~= routes_view(e.routes@.take(i as int)).push(
                e.routes@[i as int]@,
            ));
            assert(routes_view(e.routes@.take(i as int + 1)) =~= routes_view(
                e.routes@.take(i as int),
            ).push(e.routes@[i as int]@));
        }
        i += 1;
    }
    proof {
        assert(e.routes@.take(n as int) =~= e.routes@);
    }
    PluginConfigEntry {
        name: e.name.clone(),
        version: e.version.clone(),
        description: e.description.clone(),
        author: e.author.clone(),
        path: e.path.clone(),
        has_backend: e.has_backend,
        has_frontend: e.has_frontend,
        priority: e.priority,
        enabled: e.enabled,
        routes,
    }
}

/// Where the registry file lives under the repository root.
pub fn get_config_path(repo_root: &str) -> (r: String)
    ensures
        r@ == repo_root@ + "/webarcade.config.json"@,
{
    let mut out = repo_root.to_owned();
    out.append("/webarcade.config.json");
    out
}

/// What a JSON document's top-level field holds for the document text:
/// `Some` exactly when the document parses and the field is a string.
pub uninterp spec fn json_str_field_of(doc: Seq<char>, key: Seq<char>) -> Option<Seq<char>>;

/// Relies on serde_json's parser: the named top-level string field of the
/// document, a function of the document and key alone.
#[verifier::external_body]
fn json_string_field(doc: &str, key: &str) -> (r: Option<String>)
    ensures
        match r {
            Some(v) => json_str_field_of(doc@, key@) == Some(v@),
            None => json_str_field_of(doc@, key@) is None,
        },
{
    let value: serde_json::Value = match serde_json::from_str(doc) {
        Ok(v) => v,
        Err(_) => return None,
    };
    value.get(key).and_then(|v| v.as_str()).map(|s| s.to_string())
}

/// How one character is written inside a JSON string literal: backslash
/// and quote gain a backslash; line feed, carriage return and tab become
/// their two-character escapes; every other character stands as itself.
pub open spec fn json_escape_char(c: char) -> Seq<char> {
    if c == '\\' {
        seq!['\\', '\\']
    } else if c == '"' {
        seq!['\\', '"']
    } else if c == '\n' {
        seq!['\\', 'n']
    } else if c == '\r' {
        seq!['\\', 'r']
    } else if c == '\t' {
        seq!['\\', 't']
    } else {
        seq![c]
    }
}

/// The text escaped for a JSON string literal.
pub open spec fn json_escape(s: Seq<char>) -> Seq<char>
    decreases s.len(),
{
    if s.len() == 0 {
        Seq::empty()
    } else {
        json_escape(s.drop_last()) + json_escape_char(s.last())
    }
}

/// Escapes text for a JSON string literal.
pub fn json_escape_exec(s: &str) -> (r: String)
    ensures
        r@ == json_escape(s@),
{
    let cs = crate::text::chars_of(s);
    let mut out: String = String::new();
    let n: usize = cs.len();
    let mut i: usize = 0;
    while i < n
        invariant
            n == cs@.len(),
            cs@ == s@,
            0 <= i <= n,
            out@ == json_escape(s@.take(i as int)),
        decreases n - i,
    {
        let c: char = cs[i];
        if c == '\\' {
            crate::text::push_char(&mut out, '\\');
            crate::text::push_char(&mut out, '\\');
        } else if c == '"' {
            crate::text::push_char(&mut out, '\\');
            crate::text::push_char(&mut out, '"');
        } else if c == '\n' {
            crate::text::push_char(&mut out, '\\');
            crate::text::push_char(&mut out, 'n');
        } else if c == '\r' {
            crate::text::push_char(&mut out, '\\');
            crate::text::push_char(&mut out, 'r');
        } else if c == '\t' {
            crate::text::push_char(&mut out, '\\');
            crate::text::push_char(&mut out, 't');
        } else {
            crate::text::push_char(&mut out, c);
        }
        proof {
            assert(s@.take(i as int + 1).drop_last() =~= s@.take(i as int));
            assert(s@.take(i as int + 1).last() == s@[i as int]);
            assert(out@ =~= json_escape(s@.take(i as int + 1)));
        }
        i += 1;
    }
    proof {
        assert(s@.take(n as int) =~= s@);
    }
    out
}

/// The JSON object text of one route entry.
pub open spec fn route_obj_text(r: RouteModel) -> Seq<char> {
    "{\"method\":\""@ + json_escape(r.method) + "\",\"path\":\""@ + json_escape(r.path)
        + "\",\"handler\":\""@ + json_escape(r.handler) + "\"}"@
}

/// The JSON array text of a route list, entries in order.
pub open spec fn routes_array_text(rs: Seq<RouteModel>) -> Seq<char>
    decreases rs.len(),
{
    if rs.len() == 0 {
        Seq::empty()
    } else if rs.len() == 1 {
        route_obj_text(rs[0])
    } else {
        routes_array_text(rs.drop_last()) + ","@ + route_obj_text(rs.last())
    }
}

/// The tool's manifest section: the plugin id and its route list.
pub open spec fn section_text(id: Seq<char>, rs: Seq<RouteModel>) -> Seq<char> {
    "{\"id\":\""@ + json_escape(id) + "\",\"routes\":["@ + routes_array_text(rs) + "]}"@
}

/// The package document assumed for a plugin without one.
pub open spec fn fallback_pkg_text(id: Seq<char>) -> Seq<char> {
    "{\"name\":\""@ + json_escape(id) + "\",\"version\":\"1.0.0\"}"@
}

/// Whether the text parses as a JSON document whose top level is an
/// object.
pub uninterp spec fn json_object(s: Seq<char>) -> bool;

/// Relies on serde_json's parser: whether the text is a JSON document
/// whose top level is an object, a function of the text alone.
#[verifier::external_body]
fn json_is_object(s: &str) -> (r: bool)
    ensures
        r == json_object(s@),
{
    serde_json::from_str::<serde_json::Value>(s).map(|v| v.is_object()).unwrap_or(false)
}

/// The embedded manifest text: the package document with the tool's
/// section set under its fixed key, pretty-printed with sorted keys.
pub uninterp spec fn merged_manifest_of(doc: Seq<char>, section: Seq<char>) -> Seq<char>;

/// Relies on serde_json: parses the document (an empty object standing in
/// where it is not a JSON object, a path the library never takes), sets
/// the parsed section under the tool's key, and pretty-prints. A function
/// of the two texts alone, since document maps print in sorted key order.
#[verifier::external_body]
fn merge_manifest(pkg: &str, section: &str) -> (r: String)
    ensures
        r@ == merged_manifest_of(pkg@, section@),
{
    let mut doc = serde_json::from_str::<serde_json::Value>(pkg).ok().filter(
        serde_json::Value::is_object,
    ).unwrap_or_else(|| serde_json::Value::Object(serde_json::Map::new()));
    let section_value = serde_json::from_str::<serde_json::Value>(section).unwrap_or(
        serde_json::Value::Null,
    );
    if let Some(obj) = doc.as_object_mut() {
        obj.insert("webarcade".to_string(), section_value);
    }
    serde_json::to_string_pretty(&doc).unwrap_or_default()
}

/// The serialized manifest embedded in a plugin's artifact: the package
/// document merged with the tool's section naming the plugin id and the
/// route list. A package document that is absent or not a JSON object is
/// replaced by the fallback object naming the plugin with version 1.0.0;
/// an absent or malformed one never fails the build.
pub fn create_manifest(pkg: Option<&str>, plugin_id: &str, routes: &Vec<RouteEntry>) -> (r: String)
    ensures
        r@ == (match pkg {
            Some(p) => if json_object(p@) {
                merged_manifest_of(p@, section_text(plugin_id@, routes_view(routes@)))
            } else {
                merged_manifest_of(
                    fallback_pkg_text(plugin_id@),
                    section_text(plugin_id@, routes_view(routes@)),
                )
            },
            None => merged_manifest_of(
                fallback_pkg_text(plugin_id@),
                section_text(plugin_id@, routes_view(routes@)),
            ),
        }),
{
    let esc_id = json_escape_exec(plugin_id);
    let mut fallback: String = "{\"name\":\"".to_owned();
    fallback.append(esc_id.as_str());
    fallback.append("\",\"version\":\"1.0.0\"}");
    let mut section: String = "{\"id\":\"".to_owned();
    section.append(esc_id.as_str());
    section.append("\",\"routes\":[");
    let n: usize = routes.len();
    let mut i: usize = 0;
    proof {
        assert(routes_view(routes@).take(0) =~= Seq::<RouteModel>::empty());
        assert(section@ =~= "{\"id\":\""@ + json_escape(plugin_id@) + "\",\"routes\":["@
            + routes_array_text(routes_view(routes@).take(0)));
    }
    while i < n
        invariant
            n == routes@.len(),
            0 <= i <= n,
            section@ == "{\"id\":\""@ + json_escape(plugin_id@) + "\",\"routes\":["@
                + routes_array_text(routes_view(routes@).take(i as int)),
        decreases n - i,
    {
        if i > 0 {
            section.append(",");
        }
        section.append("{\"method\":\"");
        let m = json_escape_exec(routes[i].method.as_str());
        section.append(m.as_str());
        section.append("\",\"path\":\"");
        let p = json_escape_exec(routes[i].path.as_str());
        section.append(p.as_str());
        section.append("\",\"handler\":\"");
        let h = json_escape_exec(routes[i].handler.as_str());
        section.append(h.as_str());
        section.append("\"}");
        proof {
            let rv = routes_view(routes@);
            assert(rv.take(i as int + 1).drop_last() =~= rv.take(i as int));
            assert(rv.take(i as int + 1).last() == rv[i as int]);
            assert(rv[i as int] == routes@[i as int]@);
            assert(section@ =~= "{\"id\":\""@ + json_escape(plugin_id@) + "\",\"routes\":["@
                + routes_array_text(rv.take(i as int + 1)));
        }
        i += 1;
    }
    section.append("]}");
    proof {
        assert(routes_view(routes@).take(n as int) =~= routes_view(routes@));
        assert(section@ =~= section_text(plugin_id@, routes_view(routes@)));
        assert(fallback@ =~= fallback_pkg_text(plugin_id@));
    }
    match pkg {
        Some(p) => {
            if json_is_object(p) {
                merge_manifest(p, section.as_str())
            } else {
                merge_manifest(fallback.as_str(), section.as_str())
            }
        },
        None => merge_manifest(fallback.as_str(), section.as_str()),
    }
}

/// The package metadata taken from  a plugin's package document for the
/// registry: each field when the document declares it as a string.
pub struct PackageMeta {
    pub name: Option<String>,
    pub version: Option<String>,
    pub description: Option<String>,
    pub author: Option<String>,
}

/// Reads the four metadata fields of a package document.
pub fn package_meta(doc: &str) -> (r: PackageMeta)
    ensures
        (match r.name {
            Some(v) => json_str_field_of(doc@, "name"@) == Some(v@),
            None => json_str_field_of(doc@, "name"@) is None,
        }),
        (match r.version {
            Some(v) => json_str_field_of(doc@, "version"@) == Some(v@),
            None => json_str_field_of(doc@, "version"@) is None,
        }),
        (match r.description {
            Some(v) => json_str_field_of(doc@, "description"@) == Some(v@),
            None => json_str_field_of(doc@, "description"@) is None,
        }),
        (match r.author {
            Some(v) => json_str_field_of(doc@, "author"@) == Some(v@),
            None => json_str_field_of(doc@, "author"@) is None,
        }),
{
    PackageMeta {
        name: json_string_field(doc, "name"),
        version: json_string_field(doc, "version"),
        description: json_string_field(doc, "description"),
        author: json_string_field(doc, "author"),
    }
}

} // verus!
