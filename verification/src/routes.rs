//! Route extraction: reads the declarative route table of a plugin's
//! package manifest — keys `"METHOD /path"`, values handler-function
//! names — into structured entries, deduplicates handler names in
//! first-seen order, and inspects the handler source to decide whether a
//! handler's declared parameter list takes the request.
use vstd::prelude::*;
use vstd::string::StrSliceExecFns;
use vstd::string::StringExecFns;
use crate::text::{contains_seq, match_at, contains_bytes, bytes_eq, str_eq};
use crate::versions::first_at;

verus! {

/// What the `[routes]` table of a plugin manifest document holds: each
/// entry's key, and its handler name when the value is a string; `None`
/// when the document does not parse or has no routes table.
pub uninterp spec fn toml_routes_of(doc: Seq<char>) -> Option<
    Seq<(Seq<char>, Option<Seq<char>>)>,
>;

/// Deep view of route-table pairs.
pub open spec fn pairs_view(s: Seq<(String, Option<String>)>) -> Seq<
    (Seq<char>, Option<Seq<char>>),
> {
    s.map_values(
        |p: (String, Option<String>)|
            (
                p.0@,
                match p.1 {
                    Some(v) => Some(v@),
                    None => None,
                },
            ),
    )
}

/// Relies on the toml crate's parser: hands out the `[routes]` table of
/// the document, one pair per entry in the table's key order, the value
/// given as `Some` handler name exactly when it is a TOML string.
#[verifier::external_body]
fn toml_routes_table(doc: &str) -> (r: Option<Vec<(String, Option<String>)>>)
    ensures
        match r {
            Some(v) => toml_routes_of(doc@) == Some(pairs_view(v@)),
            None => toml_routes_of(doc@) is None,
        },
{
    let table: toml::Table = match toml::from_str(doc) {
        Ok(t) => t,
        Err(_) => return None,
    };
    let routes = match table.get("routes").and_then(|r| r.as_table()) {
        Some(t) => t,
        None => return None,
    };
    Some(routes.iter().map(|(k, v)| (k.clone(), v.as_str().map(|s| s.to_string()))).collect())
}

/// Model of one route entry.
#[verifier::ext_equal]
pub ghost struct RouteModel {
    pub method: Seq<char>,
    pub path: Seq<char>,
    pub handler: Seq<char>,
}

/// One entry of the route table: an HTTP method, a path, and the name of
/// the handler function serving it.
pub struct RouteEntry {
    pub method: String,
    pub path: String,
    pub handler: String,
}

impl View for RouteEntry {
    type V = RouteModel;

    open spec fn view(&self) -> RouteModel {
        RouteModel { method: self.method@, path: self.path@, handler: self.handler@ }
    }
}

impl Clone for RouteEntry {
    fn clone(&self) -> (r: Self)
        ensures
            r@ == self@,
    {
        RouteEntry {
            method: self.method.clone(),
            path: self.path.clone(),
            handler: self.handler.clone(),
        }
    }
}

/// The views of a list of route entries.
pub open spec fn routes_view(s: Seq<RouteEntry>) -> Seq<RouteModel> {
    s.map_values(|r: RouteEntry| r@)
}

/// Position of the first space of a key, or its length when there is none.
pub open spec fn first_space(s: Seq<char>) -> nat
    decreases s.len(),
{
    if s.len() == 0 {
        0
    } else if s[0] == ' ' {
        0
    } else {
        (1 + first_space(s.drop_first())) as nat
    }
}

/// A route key splits on its first space into a method and a path;
/// a key without a space is malformed and yields nothing.
pub open spec fn route_key_parts(key: Seq<char>) -> Option<(Seq<char>, Seq<char>)> {
    let i = first_space(key) as int;
    if i >= key.len() {
        None
    } else {
        Some((key.take(i), key.skip(i + 1)))
    }
}

/// The route entry denoted by one table pair, if it is well formed.
pub open spec fn route_of_pair(p: (Seq<char>, Option<Seq<char>>)) -> Option<RouteModel> {
    match p.1 {
        None => None,
        Some(h) => match route_key_parts(p.0) {
            None => None,
            Some((m, pa)) => Some(RouteModel { method: m, path: pa, handler: h }),
        },
    }
}

/// The route entries of a table, malformed keys and non-string values
/// skipped, table order kept.
pub open spec fn routes_of_pairs(pairs: Seq<(Seq<char>, Option<Seq<char>>)>) -> Seq<RouteModel> {
    pairs.filter_map(|p: (Seq<char>, Option<Seq<char>>)| route_of_pair(p))
}

/// The route entries declared by a plugin manifest document; an absent or
/// malformed route table degrades to no routes.
pub open spec fn routes_of_doc(doc: Seq<char>) -> Seq<RouteModel> {
    match toml_routes_of(doc) {
        None => Seq::empty(),
        Some(pairs) => routes_of_pairs(pairs),
    }
}

/// Splits a route key on its first space.
fn split_route_key(key: &str) -> (r: Option<(String, String)>)
    ensures
        match r {
            Some(mp) => route_key_parts(key@) == Some((mp.0@, mp.1@)),
            None => route_key_parts(key@) is None,
        },
{
    let n: usize = key.unicode_len();
    let mut i: usize = 0;
    proof {
        assert(key@.skip(0) =~= key@);
    }
    loop
        invariant
            n == key@.len(),
            0 <= i <= n,
            first_space(key@) == i + first_space(key@.skip(i as int)),
        ensures
            0 <= i <= n,
            first_space(key@) == i,
            i == n || key@[i as int] == ' ',
        decreases n - i,
    {
        if i == n {
            proof {
                assert(key@.skip(i as int) =~= Seq::<char>::empty());
            }
            break ;
        }
        let c: char = key.get_char(i);
        proof {
            assert(key@.skip(i as int)[0] == key@[i as int]);
        }
        if c == ' ' {
            break ;
        }
        proof {
            assert(key@.skip(i as int).drop_first() =~= key@.skip(i as int + 1));
        }
        i += 1;
    }
    if i == n {
        None
    } else {
        let method = key.substring_char(0, i).to_owned();
        let path = key.substring_char(i + 1, n).to_owned();
        proof {
            assert(method@ =~= key@.take(i as int));
            assert(path@ =~= key@.skip(i as int + 1));
        }
        Some((method, path))
    }
}

/// Reads the route table of a plugin manifest document into structured
/// entries: one entry per table pair whose key holds a space and whose
/// value is a string, in table order; a missing or malformed table gives
/// the empty list.
pub fn extract_routes(cargo_toml: &str) -> (r: Vec<RouteEntry>)
    ensures
        routes_view(r@) == routes_of_doc(cargo_toml@),
{
    let pairs = match toml_routes_table(cargo_toml) {
        None => {
            let out: Vec<RouteEntry> = Vec::new();
            proof {
                assert(routes_view(out@) =~= Seq::<RouteModel>::empty());
            }
            return out;
        },
        Some(pairs) => pairs,
    };
    let mut out: Vec<RouteEntry> = Vec::new();
    let n: usize = pairs.len();
    let mut i: usize = 0;
    proof {
        assert(pairs_view(pairs@).take(0) =~= Seq::<(Seq<char>, Option<Seq<char>>)>::empty());
        assert(Seq::<(Seq<char>, Option<Seq<char>>)>::empty().filter_map(
            |p: (Seq<char>, Option<Seq<char>>)| route_of_pair(p),
        ) =~= Seq::<RouteModel>::empty());
    }
    while i < n
        invariant
            n == pairs@.len(),
            0 <= i <= n,
            toml_routes_of(cargo_toml@) == Some(pairs_view(pairs@)),
            routes_view(out@) == pairs_view(pairs@).take(i as int).filter_map(
                |p: (Seq<char>, Option<Seq<char>>)| route_of_pair(p),
            ),
        decreases n - i,
    {
        let ghost before = routes_view(out@);
        match &pairs[i].1 {
            Some(handler) => {
                match split_route_key(pairs[i].0.as_str()) {
                    Some((method, path)) => {
                        out.push(RouteEntry { method, path, handler: handler.clone() });
                    },
                    None => {},
                }
            },
            None => {},
        }
        proof {
            pairs_view(pairs@).lemma_filter_map_take_succ(
                |p: (Seq<char>, Option<Seq<char>>)| route_of_pair(p),
                i as int,
            );
            assert(pairs_view(pairs@)[i as int] == (
                pairs@[i as int].0@,
                match pairs@[i as int].1 {
                    Some(v) => Some(v@),
                    None => None::<Seq<char>>,
                },
            ));
            assert(routes_view(out@) =~= pairs_view(pairs@).take(i as int + 1).filter_map(
                |p: (Seq<char>, Option<Seq<char>>)| route_of_pair(p),
            ));
        }
        i += 1;
    }
    proof {
        assert(pairs_view(pairs@).take(n as int) =~= pairs_view(pairs@));
    }
    out
}

/// Whether the manifest document declares a non-empty route table.
pub open spec fn has_routes_spec(doc: Seq<char>) -> bool {
    match toml_routes_of(doc) {
        Some(pairs) => pairs.len() > 0,
        None => false,
    }
}

/// Whether a plugin declares any route at all, well formed or not: this
/// decides whether the generated shim carries the request bridge.
pub fn has_routes(cargo_toml: &str) -> (r: bool)
    ensures
        r == has_routes_spec(cargo_toml@),
{
    match toml_routes_table(cargo_toml) {
        Some(pairs) => pairs.len() > 0,
        None => false,
    }
}

/// A whitespace byte, as the declaration grammar counts it.
pub open spec fn is_ws(b: u8) -> bool {
    b == ' ' as u8 || b == '\t' as u8 || b == '\n' as u8 || b == '\r' as u8
}

/// First position at or after `i` holding a non-whitespace byte, or the end.
pub open spec fn skip_ws(s: Seq<u8>, i: int) -> int
    decreases s.len() - i,
{
    if 0 <= i < s.len() && is_ws(s[i]) {
        skip_ws(s, i + 1)
    } else {
        i
    }
}

pub open spec fn tok_pub() -> Seq<u8> {
    seq!['p' as u8, 'u' as u8, 'b' as u8]
}

pub open spec fn tok_async() -> Seq<u8> {
    seq!['a' as u8, 's' as u8, 'y' as u8, 'n' as u8, 'c' as u8]
}

pub open spec fn tok_fn() -> Seq<u8> {
    seq!['f' as u8, 'n' as u8]
}

pub open spec fn tok_request() -> Seq<u8> {
    seq!['R' as u8, 'e' as u8, 'q' as u8, 'u' as u8, 'e' as u8, 's' as u8, 't' as u8]
}

/// Position just after the opening parenthesis of a declaration
/// `pub async fn <name> (` standing at position `t` of the source, when
/// the text there reads so: each keyword followed by whitespace, the name
/// followed by optional whitespace and the parenthesis.
pub open spec fn decl_params_start(s: Seq<u8>, name: Seq<u8>, t: int) -> Option<int> {
    if !match_at(s, tok_pub(), t) {
        None
    } else if !(t + 3 < s.len() && is_ws(s[t + 3])) {
        None
    } else {
        let b = skip_ws(s, t + 3);
        if !match_at(s, tok_async(), b) {
            None
        } else if !(b + 5 < s.len() && is_ws(s[b + 5])) {
            None
        } else {
            let d = skip_ws(s, b + 5);
            if !match_at(s, tok_fn(), d) {
                None
            } else if !(d + 2 < s.len() && is_ws(s[d + 2])) {
                None
            } else {
                let f = skip_ws(s, d + 2);
                if !match_at(s, name, f) {
                    None
                } else {
                    let g = skip_ws(s, f + name.len());
                    if g < s.len() && s[g] == '(' as u8 {
                        Some(g + 1)
                    } else {
                        None
                    }
                }
            }
        }
    }
}

/// The parameter text of the declaration at `t`: the bytes between the
/// opening parenthesis and the next closing one, if the text closes it.
pub open spec fn decl_params_at(s: Seq<u8>, name: Seq<u8>, t: int) -> Option<Seq<u8>> {
    match decl_params_start(s, name, t) {
        None => None,
        Some(ps) => {
            let rel = first_at(s.skip(ps), ')' as u8) as int;
            if rel >= s.len() - ps {
                None
            } else {
                Some(s.subrange(ps, ps + rel))
            }
        },
    }
}

/// Whether `t` begins a line of the source.
pub open spec fn line_start(s: Seq<u8>, t: int) -> bool {
    t == 0 || (0 < t <= s.len() && s[t - 1] == '\n' as u8)
}

/// The parameter text of the first line-initial declaration of the named
/// handler at or after position `t`, if there is one.
pub open spec fn first_decl_params(s: Seq<u8>, name: Seq<u8>, t: int) -> Option<Seq<u8>>
    decreases s.len() - t,
{
    if line_start(s, t) && decl_params_at(s, name, t) is Some {
        decl_params_at(s, name, t)
    } else if t < s.len() {
        first_decl_params(s, name, t + 1)
    } else {
        None
    }
}

/// Whether the parameter text is blank: nothing but whitespace.
pub open spec fn all_ws(p: Seq<u8>) -> bool {
    forall|i: int| 0 <= i < p.len() ==> is_ws(#[trigger] p[i])
}

/// Whether the named handler's declared parameter list takes the request:
/// its first declaration has a non-blank parameter list holding a
/// request-like token — the word `Request` or a type ascription colon.
pub open spec fn takes_request_spec(src: Seq<u8>, name: Seq<u8>) -> bool {
    match first_decl_params(src, name, 0) {
        None => false,
        Some(p) => !all_ws(p) && (contains_seq(p, tok_request()) || contains_seq(
            p,
            seq![':' as u8],
        )),
    }
}

/// First non-whitespace position at or after `i`.
fn skip_ws_exec(s: &[u8], i: usize) -> (r: usize)
    requires
        i <= s@.len(),
    ensures
        r == skip_ws(s@, i as int),
        i <= r <= s@.len(),
{
    let n: usize = s.len();
    let mut j: usize = i;
    while j < n
        invariant
            n == s@.len(),
            i <= j <= n,
            skip_ws(s@, i as int) == skip_ws(s@, j as int),
        decreases n - j,
    {
        let b: u8 = s[j];
        if !(b == ' ' as u8 || b == '\t' as u8 || b == '\n' as u8 || b == '\r' as u8) {
            return j;
        }
        j += 1;
    }
    j
}

/// Whether `tok` stands at position `t` of the source.
fn match_tok(s: &[u8], tok: &[u8], t: usize) -> (r: bool)
    ensures
        r == match_at(s@, tok@, t as int),
{
    if t > s.len() || tok.len() > s.len() - t {
        return false;
    }
    let piece: &[u8] = &s[t..t + tok.len()];
    let r = bytes_eq(piece, tok);
    proof {
        assert(piece@ =~= s@.subrange(t as int, t + tok@.len()));
    }
    r
}

/// Position after the opening parenthesis of a declaration of `name` at
/// `t`, if the text reads `pub async fn <name> (` there.
fn decl_params_start_exec(s: &[u8], name: &[u8], t: usize) -> (r: Option<usize>)
    ensures
        match r {
            Some(ps) => decl_params_start(s@, name@, t as int) == Some(ps as int) && ps <= s@.len(),
            None => decl_params_start(s@, name@, t as int) is None,
        },
{
    let t_pub: [u8; 3] = ['p' as u8, 'u' as u8, 'b' as u8];
    let t_async: [u8; 5] = ['a' as u8, 's' as u8, 'y' as u8, 'n' as u8, 'c' as u8];
    let t_fn: [u8; 2] = ['f' as u8, 'n' as u8];
    proof {
        assert(t_pub@ =~= tok_pub());
        assert(t_async@ =~= tok_async());
        assert(t_fn@ =~= tok_fn());
    }
    let n: usize = s.len();
    if !match_tok(s, t_pub.as_slice(), t) {
        return None;
    }
    assert(t + 3 <= n);
    let a: usize = t + 3;
    if !(a < s.len() && (s[a] == ' ' as u8 || s[a] == '\t' as u8 || s[a] == '\n' as u8 || s[a]
        == '\r' as u8)) {
        return None;
    }
    let b: usize = skip_ws_exec(s, a);
    if !match_tok(s, t_async.as_slice(), b) {
        return None;
    }
    let c: usize = b + 5;
    if !(c < s.len() && (s[c] == ' ' as u8 || s[c] == '\t' as u8 || s[c] == '\n' as u8 || s[c]
        == '\r' as u8)) {
        return None;
    }
    let d: usize = skip_ws_exec(s, c);
    if !match_tok(s, t_fn.as_slice(), d) {
        return None;
    }
    let e: usize = d + 2;
    if !(e < s.len() && (s[e] == ' ' as u8 || s[e] == '\t' as u8 || s[e] == '\n' as u8 || s[e]
        == '\r' as u8)) {
        return None;
    }
    let f: usize = skip_ws_exec(s, e);
    if !match_tok(s, name, f) {
        return None;
    }
    let g: usize = skip_ws_exec(s, f + name.len());
    if g < s.len() && s[g] == '(' as u8 {
        Some(g + 1)
    } else {
        None
    }
}

/// The parameter text of the first line-initial declaration of the named
/// handler, if there is one.
fn first_decl_params_exec(s: &[u8], name: &[u8]) -> (r: Option<Vec<u8>>)
    ensures
        match r {
            Some(p) => first_decl_params(s@, name@, 0) == Some(p@),
            None => first_decl_params(s@, name@, 0) is None,
        },
{
    let n: usize = s.len();
    let mut t: usize = 0;
    loop
        invariant
            n == s@.len(),
            0 <= t <= n,
            first_decl_params(s@, name@, 0) == first_decl_params(s@, name@, t as int),
        decreases n - t,
    {
        let at_line_start: bool = t == 0 || s[t - 1] == '\n' as u8;
        if at_line_start {
            match decl_params_start_exec(s, name, t) {
                Some(ps) => {
                    let after: &[u8] = &s[ps..n];
                    proof {
                        assert(after@ =~= s@.skip(ps as int));
                    }
                    let rel: usize = crate::versions::first_at_exec(after, ')' as u8);
                    if rel < n - ps {
                        let p: Vec<u8> = vstd::slice::slice_to_vec(&s[ps..ps + rel]);
                        proof {
                            assert(p@ =~= s@.subrange(ps as int, ps + rel));
                        }
                        return Some(p);
                    }
                },
                None => {},
            }
        }
        if t == n {
            return None;
        }
        t += 1;
    }
}

/// Whether the named handler's first declaration takes the request.
fn takes_request_exec(src: &[u8], name: &[u8]) -> (r: bool)
    ensures
        r == takes_request_spec(src@, name@),
{
    let colon: [u8; 1] = [':' as u8];
    let req: [u8; 7] = ['R' as u8, 'e' as u8, 'q' as u8, 'u' as u8, 'e' as u8, 's' as u8,
        't' as u8];
    proof {
        assert(colon@ =~= seq![':' as u8]);
        assert(req@ =~= tok_request());
    }
    match first_decl_params_exec(src, name) {
        None => false,
        Some(p) => {
            let n: usize = p.len();
            let mut blank: bool = true;
            let mut i: usize = 0;
            while i < n
                invariant
                    n == p@.len(),
                    0 <= i <= n,
                    blank == all_ws(p@.take(i as int)),
                decreases n - i,
            {
                let b: u8 = p[i];
                if !(b == ' ' as u8 || b == '\t' as u8 || b == '\n' as u8 || b == '\r' as u8) {
                    blank = false;
                }
                proof {
                    if all_ws(p@.take(i as int)) && is_ws(p@[i as int]) {
                        assert forall|k: int| 0 <= k < i + 1 implies is_ws(
                            #[trigger] p@.take(i as int + 1)[k],
                        ) by {
                            if k < i {
                                assert(is_ws(p@.take(i as int)[k]));
                            } else {
                                assert(p@.take(i as int + 1)[k] == p@[i as int]);
                            }
                        }
                    }
                    if !is_ws(p@[i as int]) {
                        assert(p@.take(i as int + 1)[i as int] == p@[i as int]);
                        assert(!all_ws(p@.take(i as int + 1)));
                    }
                    if !all_ws(p@.take(i as int)) {
                        let k = choose|k: int|
                            0 <= k < i && !is_ws(#[trigger] p@.take(i as int)[k]);
                        assert(p@.take(i as int + 1)[k] == p@.take(i as int)[k]);
                        assert(!all_ws(p@.take(i as int + 1)));
                    }
                }
                i += 1;
            }
            proof {
                assert(p@.take(n as int) =~= p@);
            }
            if blank {
                false
            } else {
                contains_bytes(p.as_slice(), req.as_slice()) || contains_bytes(
                    p.as_slice(),
                    colon.as_slice(),
                )
            }
        },
    }
}

/// The handler names of a table's values, first seen first, each kept once.
pub open spec fn dedup_names(items: Seq<Seq<char>>, seen: Seq<Seq<char>>) -> Seq<Seq<char>>
    decreases items.len(),
{
    if items.len() == 0 {
        seen
    } else if seen.contains(items[0]) {
        dedup_names(items.drop_first(), seen)
    } else {
        dedup_names(items.drop_first(), seen.push(items[0]))
    }
}

/// The deduplicated handler names declared by a manifest document.
pub open spec fn handler_names_of(doc: Seq<char>) -> Seq<Seq<char>> {
    match toml_routes_of(doc) {
        None => Seq::empty(),
        Some(pairs) => dedup_names(
            pairs.filter_map(|p: (Seq<char>, Option<Seq<char>>)| p.1),
            Seq::empty(),
        ),
    }
}

/// The handler list of a plugin: its deduplicated handler names, each
/// with whether its declaration takes the request; without handler source
/// no handler does.
pub open spec fn handler_list(doc: Seq<char>, router: Option<Seq<u8>>) -> Seq<(Seq<char>, bool)> {
    handler_names_of(doc).map_values(
        |n: Seq<char>|
            (
                n,
                match router {
                    Some(src) => takes_request_spec(src, vstd::utf8::encode_utf8(n)),
                    None => false,
                },
            ),
    )
}

/// The views of a handler list.
pub open spec fn handlers_view(s: Seq<(String, bool)>) -> Seq<(Seq<char>, bool)> {
    s.map_values(|h: (String, bool)| (h.0@, h.1))
}

/// The views of a list of names.
pub open spec fn names_view(s: Seq<String>) -> Seq<Seq<char>> {
    s.map_values(|n: String| n@)
}

/// Whether the list holds the name.
fn contains_name(v: &Vec<String>, name: &str) -> (r: bool)
    ensures
        r == names_view(v@).contains(name@),
{
    let n: usize = v.len();
    let mut i: usize = 0;
    while i < n
        invariant
            n == v@.len(),
            0 <= i <= n,
            forall|k: int| 0 <= k < i ==> names_view(v@)[k] != name@,
        decreases n - i,
    {
        if str_eq(v[i].as_str(), name) {
            assert(names_view(v@)[i as int] == name@);
            return true;
        }
        i += 1;
    }
    assert(!names_view(v@).contains(name@));
    false
}

/// Deduplication never repeats a name.
proof fn lemma_dedup_names_distinct(items: Seq<Seq<char>>, seen: Seq<Seq<char>>)
    requires
        forall|i: int, j: int| 0 <= i < j < seen.len() ==> seen[i] != seen[j],
    ensures
        forall|i: int, j: int|
            0 <= i < j < dedup_names(items, seen).len() ==> dedup_names(items, seen)[i]
                != dedup_names(items, seen)[j],
    decreases items.len(),
{
    if items.len() == 0 {
        assert(dedup_names(items, seen) == seen);
    } else {
        if seen.contains(items[0]) {
            assert(dedup_names(items, seen) == dedup_names(items.drop_first(), seen));
            lemma_dedup_names_distinct(items.drop_first(), seen);
        } else {
            let seen2 = seen.push(items[0]);
            assert forall|i: int, j: int| 0 <= i < j < seen2.len() implies seen2[i] != seen2[j] by {
                if j == seen2.len() - 1 {
                    assert(seen2[j] == items[0]);
                    assert(seen2[i] == seen[i]);
                    if seen[i] == items[0] {
                        assert(seen.contains(items[0]));
                    }
                }
            }
            assert(dedup_names(items, seen) == dedup_names(items.drop_first(), seen2));
            lemma_dedup_names_distinct(items.drop_first(), seen2);
        }
    }
}

/// Duplicate route entries pointing at the same handler collapse: a
/// plugin's handler list never holds a name twice.
pub proof fn lemma_handler_list_distinct(doc: Seq<char>, router: Option<Seq<u8>>)
    ensures
        forall|i: int, j: int|
            0 <= i < j < handler_list(doc, router).len() ==> handler_list(doc, router)[i].0
                != handler_list(doc, router)[j].0,
{
    match toml_routes_of(doc) {
        None => {},
        Some(pairs) => {
            lemma_dedup_names_distinct(
                pairs.filter_map(|p: (Seq<char>, Option<Seq<char>>)| p.1),
                Seq::empty(),
            );
        },
    }
}

/// The handler list of a plugin: the route table's handler names, first
/// seen first and each kept once, and for each whether its declaration in
/// the handler source takes the request.
pub fn extract_handlers(cargo_toml: &str, router_src: Option<&Vec<u8>>) -> (r: Vec<(String, bool)>)
    ensures
        handlers_view(r@) == handler_list(
            cargo_toml@,
            match router_src {
                Some(v) => Some(v@),
                None => None,
            },
        ),
{
    let ghost router_model: Option<Seq<u8>> = match router_src {
        Some(v) => Some(v@),
        None => None,
    };
    let mut names: Vec<String> = Vec::new();
    match toml_routes_table(cargo_toml) {
        None => {
            proof {
                assert(handler_list(cargo_toml@, router_model) =~= Seq::<(Seq<char>, bool)>::empty());
            }
        },
        Some(pairs) => {
            let ghost values = pairs_view(pairs@).filter_map(
                |p: (Seq<char>, Option<Seq<char>>)| p.1,
            );
            let mut vals: Vec<String> = Vec::new();
            let n: usize = pairs.len();
            let mut i: usize = 0;
            proof {
                assert(pairs_view(pairs@).take(0) =~= Seq::<
                    (Seq<char>, Option<Seq<char>>),
                >::empty());
                assert(Seq::<(Seq<char>, Option<Seq<char>>)>::empty().filter_map(
                    |p: (Seq<char>, Option<Seq<char>>)| p.1,
                ) =~= Seq::<Seq<char>>::empty());
            }
            while i < n
                invariant
                    n == pairs@.len(),
                    0 <= i <= n,
                    names_view(vals@) == pairs_view(pairs@).take(i as int).filter_map(
                        |p: (Seq<char>, Option<Seq<char>>)| p.1,
                    ),
                decreases n - i,
            {
                match &pairs[i].1 {
                    Some(h) => {
                        vals.push(h.clone());
                    },
                    None => {},
                }
                proof {
                    pairs_view(pairs@).lemma_filter_map_take_succ(
                        |p: (Seq<char>, Option<Seq<char>>)| p.1,
                        i as int,
                    );
                    assert(pairs_view(pairs@)[i as int] == (
                        pairs@[i as int].0@,
                        match pairs@[i as int].1 {
                            Some(v) => Some(v@),
                            None => None::<Seq<char>>,
                        },
                    ));
                    assert(names_view(vals@) =~= pairs_view(pairs@).take(i as int + 1).filter_map(
                        |p: (Seq<char>, Option<Seq<char>>)| p.1,
                    ));
                }
                i += 1;
            }
            proof {
                assert(pairs_view(pairs@).take(n as int) =~= pairs_view(pairs@));
            }
            let m: usize = vals.len();
            let mut j: usize = 0;
            proof {
                assert(values.skip(0) =~= values);
                assert(names_view(names@) =~= Seq::<Seq<char>>::empty());
            }
            while j < m
                invariant
                    m == vals@.len(),
                    0 <= j <= m,
                    names_view(vals@) == values,
                    dedup_names(values, Seq::empty()) == dedup_names(
                        values.skip(j as int),
                        names_view(names@),
                    ),
                decreases m - j,
            {
                let ghost seen = names_view(names@);
                proof {
                    assert(values.skip(j as int)[0] == names_view(vals@)[j as int]);
                    assert(values.skip(j as int).drop_first() =~= values.skip(j as int + 1));
                }
                if !contains_name(&names, vals[j].as_str()) {
                    names.push(vals[j].clone());
                    proof {
                        assert(names_view(names@) =~= seen.push(vals@[j as int]@));
                    }
                }
                j += 1;
            }
            proof {
                assert(values.skip(m as int) =~= Seq::<Seq<char>>::empty());
                assert(names_view(names@) == handler_names_of(cargo_toml@));
            }
        },
    }
    let ghost expected = handler_list(cargo_toml@, router_model);
    let mut out: Vec<(String, bool)> = Vec::new();
    let hn: usize = names.len();
    let mut k: usize = 0;
    proof {
        assert(names_view(names@) == handler_names_of(cargo_toml@));
        assert(handlers_view(out@) =~= expected.take(0));
    }
    while k < hn
        invariant
            hn == names@.len(),
            0 <= k <= hn,
            names_view(names@) == handler_names_of(cargo_toml@),
            router_model == (match router_src {
                Some(v) => Some(v@),
                None => None,
            }),
            expected == handler_list(cargo_toml@, router_model),
            handlers_view(out@) == expected.take(k as int),
        decreases hn - k,
    {
        let takes: bool = match router_src {
            Some(src) => takes_request_exec(src.as_slice(), names[k].as_str().as_bytes()),
            None => false,
        };
        out.push((names[k].clone(), takes));
        proof {
            assert(handlers_view(out@) =~= expected.take(k as int + 1)) by {
                assert(expected[k as int] == (
                    names@[k as int]@,
                    match router_model {
                        Some(src) => takes_request_spec(
                            src,
                            vstd::utf8::encode_utf8(names@[k as int]@),
                        ),
                        None => false,
                    },
                ));
                assert(expected.take(k as int + 1).drop_last() =~= expected.take(k as int));
            }
        }
        k += 1;
    }
    proof {
        assert(expected.take(hn as int) =~= expected);
    }
    out
}

/// An identifier's first character in the handler grammar.
pub open spec fn is_ident_start_c(c: char) -> bool {
    ('a' <= c <= 'z') || ('A' <= c <= 'Z') || c == '_'
}

/// An identifier character in the handler grammar.
pub open spec fn is_ident_c(c: char) -> bool {
    is_ident_start_c(c) || ('0' <= c <= '9')
}

/// First position at or after `t` past the identifier run.
pub open spec fn ident_end(s: Seq<char>, t: int) -> int
    decreases s.len() - t,
{
    if 0 <= t < s.len() && is_ident_c(s[t]) {
        ident_end(s, t + 1)
    } else {
        t
    }
}

/// Position just after a private handler declaration heading `t`:
/// `async fn <name>(<params>) -> HttpResponse`, the name an identifier,
/// the parameter text running to the first closing parenthesis.
pub open spec fn private_decl_end(s: Seq<char>, t: int) -> Option<int> {
    if !crate::progress::match_at_c(s, "async fn "@, t) {
        None
    } else {
        let a = t + 9;
        if !(a < s.len() && is_ident_start_c(s[a])) {
            None
        } else {
            let e = ident_end(s, a);
            if !(e < s.len() && s[e] == '(') {
                None
            } else {
                let p = crate::progress::first_from(s, ')', e + 1);
                if !(p < s.len() && crate::progress::match_at_c(s, " -> HttpResponse"@, p + 1)) {
                    None
                } else {
                    Some(p + 1 + " -> HttpResponse"@.len() as int)
                }
            }
        }
    }
}

/// The handler source with `pub ` put before every line-initial private
/// handler declaration, scanned left to right, each rewritten declaration
/// passed over whole.
pub open spec fn publicise_scan(s: Seq<char>, t: int) -> Seq<char>
    decreases s.len() - t,
{
    if !(0 <= t < s.len()) {
        Seq::empty()
    } else {
        let d = if t == 0 || s[t - 1] == '\n' {
            private_decl_end(s, t)
        } else {
            None
        };
        match d {
            Some(end) => {
                let stop = if t < end <= s.len() {
                    end
                } else {
                    t + 1
                };
                "pub "@ + s.subrange(t, stop) + publicise_scan(s, stop)
            },
            None => seq![s[t]] + publicise_scan(s, t + 1),
        }
    }
}

/// The handler source as the native build compiles it: every line-initial
/// private handler declaration made public.
pub open spec fn publicised(s: Seq<char>) -> Seq<char> {
    publicise_scan(s, 0)
}

/// First position at or after `t` past the identifier run.
fn ident_end_exec(cs: &Vec<char>, t: usize) -> (r: usize)
    requires
        t <= cs@.len(),
    ensures
        r == ident_end(cs@, t as int),
        t <= r <= cs@.len(),
{
    let n: usize = cs.len();
    let mut j: usize = t;
    while j < n
        invariant
            n == cs@.len(),
            t <= j <= n,
            ident_end(cs@, t as int) == ident_end(cs@, j as int),
        decreases n - j,
    {
        let c: char = cs[j];
        if !(('a' <= c && c <= 'z') || ('A' <= c && c <= 'Z') || c == '_' || ('0' <= c && c
            <= '9')) {
            return j;
        }
        j += 1;
    }
    j
}

/// Position just after a private handler declaration heading `t`, if one
/// does.
fn private_decl_end_exec(cs: &Vec<char>, t: usize) -> (r: Option<usize>)
    ensures
        match r {
            Some(end) => private_decl_end(cs@, t as int) == Some(end as int) && t < end
                <= cs@.len(),
            None => private_decl_end(cs@, t as int) is None,
        },
{
    proof {
        reveal_strlit("async fn ");
        reveal_strlit(" -> HttpResponse");
    }
    if !crate::progress::match_at_exec(cs, "async fn ", t) {
        return None;
    }
    let n: usize = cs.len();
    assert(t + 9 <= n);
    let a: usize = t + 9;
    if a >= n {
        return None;
    }
    let c: char = cs[a];
    if !(('a' <= c && c <= 'z') || ('A' <= c && c <= 'Z') || c == '_') {
        return None;
    }
    let e: usize = ident_end_exec(cs, a);
    if e >= n {
        return None;
    }
    if cs[e] != '(' {
        return None;
    }
    let p: usize = crate::progress::first_from_exec(cs, ')', e + 1);
    if p >= n {
        return None;
    }
    if !crate::progress::match_at_exec(cs, " -> HttpResponse", p + 1) {
        return None;
    }
    assert(p + 1 + 16 <= n);
    Some(p + 17)
}

/// Rewrites a handler source for the native build: every line-initial
/// `async fn <name>(<params>) -> HttpResponse` declaration gains `pub `,
/// and nothing else changes.
pub fn publicise_handlers(src_text: &str) -> (r: String)
    ensures
        r@ == publicised(src_text@),
{
    let cs = crate::text::chars_of(src_text);
    let mut out: String = String::new();
    let n: usize = cs.len();
    let mut t: usize = 0;
    while t < n
        invariant
            n == cs@.len(),
            cs@ == src_text@,
            0 <= t <= n,
            publicised(src_text@) == out@ + publicise_scan(src_text@, t as int),
        decreases n - t,
    {
        let at_line_start: bool = t == 0 || cs[t - 1] == '\n';
        let step: Option<usize> = if at_line_start {
            private_decl_end_exec(&cs, t)
        } else {
            None
        };
        match step {
            Some(end) => {
                out.append("pub ");
                let piece = crate::progress::string_of_range(&cs, t, end);
                out.append(piece.as_str());
                proof {
                    assert(publicised(src_text@) =~= out@ + publicise_scan(
                        src_text@,
                        end as int,
                    ));
                }
                t = end;
            },
            None => {
                crate::text::push_char(&mut out, cs[t]);
                proof {
                    assert(publicised(src_text@) =~= out@ + publicise_scan(
                        src_text@,
                        t as int + 1,
                    ));
                }
                t += 1;
            },
        }
    }
    proof {
        assert(publicise_scan(src_text@, n as int) =~= Seq::<char>::empty());
        assert(out@ =~= publicised(src_text@));
    }
    out
}

/// The module source with every private `mod router;` item made public,
/// scanned left to right; a source that already declares the module
/// public is left as it stands.
pub open spec fn mod_scan(s: Seq<char>, t: int) -> Seq<char>
    decreases s.len() - t,
{
    if !(0 <= t < s.len()) {
        Seq::empty()
    } else if crate::progress::match_at_c(s, "mod router;"@, t) {
        let l = "mod router;"@.len() as int;
        let stop = if l > 0 {
            t + l
        } else {
            t + 1
        };
        "pub mod router;"@ + mod_scan(s, stop)
    } else {
        seq![s[t]] + mod_scan(s, t + 1)
    }
}

/// The module source as the native build compiles it.
pub open spec fn router_mod_public(s: Seq<char>) -> Seq<char> {
    if crate::progress::contains_c(s, "pub mod router;"@) {
        s
    } else {
        mod_scan(s, 0)
    }
}

/// Rewrites a plugin's module source for the native build: unless the
/// router module is already declared public, every `mod router;` item
/// gains `pub `.
pub fn publicise_router_mod(src_text: &str) -> (r: String)
    ensures
        r@ == router_mod_public(src_text@),
{
    let cs = crate::text::chars_of(src_text);
    if crate::progress::contains_exec(&cs, "pub mod router;") {
        return src_text.to_owned();
    }
    proof {
        reveal_strlit("mod router;");
    }
    let mut out: String = String::new();
    let n: usize = cs.len();
    let mut t: usize = 0;
    while t < n
        invariant
            n == cs@.len(),
            cs@ == src_text@,
            0 <= t <= n,
            mod_scan(src_text@, 0) == out@ + mod_scan(src_text@, t as int),
        decreases n - t,
    {
        proof {
            reveal_strlit("mod router;");
        }
        if crate::progress::match_at_exec(&cs, "mod router;", t) {
            out.append("pub mod router;");
            proof {
                assert("mod router;"@.len() == 11);
                assert(t + 11 <= n);
                assert(mod_scan(src_text@, 0) =~= out@ + mod_scan(src_text@, t as int + 11));
            }
            t += 11;
        } else {
            crate::text::push_char(&mut out, cs[t]);
            proof {
                assert(mod_scan(src_text@, 0) =~= out@ + mod_scan(src_text@, t as int + 1));
            }
            t += 1;
        }
    }
    proof {
        assert(mod_scan(src_text@, n as int) =~= Seq::<char>::empty());
        assert(out@ =~= mod_scan(src_text@, 0));
    }
    out
}

} // verus!
