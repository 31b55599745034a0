//! The process lifecycle guard's termination rule: which of the running
//! processes must be terminated before an artifact is overwritten. A
//! process qualifies when its executable name equals the host binary's
//! name, with or without the platform suffix, case-insensitively in the
//! ASCII range; or when its executable path names the binary and lies
//! under a known build-output directory or ends in the binary's name.
use vstd::prelude::*;
use vstd::string::StringExecFns;
use crate::text::{str_eq, chars_of, push_char};
use crate::progress::contains_c;
use crate::envelope::lower_chars;

verus! {

/// Model of one running process: its reported name, and its executable
/// path as components when the path is known.
#[verifier::ext_equal]
pub ghost struct ProcessModel {
    pub name: Seq<char>,
    pub exe_components: Option<Seq<Seq<char>>>,
}

/// One running process, as the enumeration reports it.
pub struct ProcessFacts {
    pub name: String,
    pub exe_components: Option<Vec<String>>,
}

impl View for ProcessFacts {
    type V = ProcessModel;

    open spec fn view(&self) -> ProcessModel {
        ProcessModel {
            name: self.name@,
            exe_components: match self.exe_components {
                Some(cs) => Some(cs@.map_values(|c: String| c@)),
                None => None,
            },
        }
    }
}

/// The components joined into one path text with `/` between them.
pub open spec fn joined_path(comps: Seq<Seq<char>>) -> Seq<char>
    decreases comps.len(),
{
    if comps.len() == 0 {
        Seq::empty()
    } else if comps.len() == 1 {
        comps[0]
    } else {
        comps[0] + seq!['/'] + joined_path(comps.drop_first())
    }
}

/// Whether `dir` is a component-wise prefix of `path`.
pub open spec fn under_dir(path: Seq<Seq<char>>, dir: Seq<Seq<char>>) -> bool {
    dir.len() <= path.len() && path.take(dir.len() as int) == dir
}

/// Whether one process is a termination candidate for the named host
/// binary: its name equals the binary's name with or without the `.exe`
/// suffix, lower-cased; or its executable path mentions the binary's name
/// and either lies under one of the build-output directories or its file
/// name equals the binary's name with or without the suffix.
pub open spec fn is_candidate(
    p: ProcessModel,
    app_name: Seq<char>,
    release_dir: Seq<Seq<char>>,
    debug_dir: Seq<Seq<char>>,
) -> bool {
    let app_l = lower_chars(app_name);
    let exe = app_l + ".exe"@;
    let name_l = lower_chars(p.name);
    ||| name_l == exe
    ||| name_l == app_l
    ||| (match p.exe_components {
        None => false,
        Some(cs) => contains_c(lower_chars(joined_path(cs)), app_l) && {
            ||| under_dir(cs, release_dir)
            ||| under_dir(cs, debug_dir)
            ||| (cs.len() > 0 && (lower_chars(cs.last()) == exe || lower_chars(cs.last())
                == app_l))
        },
    })
}

/// Lower-cases text in the ASCII range.
fn lower_string(s: &str) -> (r: String)
    ensures
        r@ == lower_chars(s@),
{
    let cs = chars_of(s);
    let mut out: String = String::new();
    let n: usize = cs.len();
    let mut i: usize = 0;
    while i < n
        invariant
            n == cs@.len(),
            cs@ == s@,
            0 <= i <= n,
            out@ =~= lower_chars(s@.take(i as int)),
        decreases n - i,
    {
        let c: char = cs[i];
        if 'A' <= c && c <= 'Z' {
            push_char(&mut out, ((c as u8) + 32) as char);
        } else {
            push_char(&mut out, c);
        }
        proof {
            assert forall|k: int| 0 <= k < i + 1 implies lower_chars(s@.take(i as int + 1))[k]
                == out@[k] by {
                if k < i {
                    assert(lower_chars(s@.take(i as int))[k] == out@[k]);
                }
            }
            assert(out@ =~= lower_chars(s@.take(i as int + 1)));
        }
        i += 1;
    }
    proof {
        assert(s@.take(n as int) =~= s@);
    }
    out
}

/// The components joined with `/`.
fn join_components(cs: &Vec<String>) -> (r: String)
    ensures
        r@ == joined_path(cs@.map_values(|c: String| c@)),
{
    let mut out: String = String::new();
    let n: usize = cs.len();
    if n == 0 {
        proof {
            assert(cs@.map_values(|c: String| c@) =~= Seq::<Seq<char>>::empty());
        }
        return out;
    }
    let ghost model = cs@.map_values(|c: String| c@);
    out.append(cs[0].as_str());
    let mut i: usize = 1;
    proof {
        assert(out@ =~= joined_path(model.take(1))) by {
            assert(model.take(1).len() == 1);
            assert(model.take(1)[0] == cs@[0]@);
        }
    }
    while i < n
        invariant
            n == cs@.len(),
            n >= 1,
            model == cs@.map_values(|c: String| c@),
            1 <= i <= n,
            out@ == joined_path(model.take(i as int)),
        decreases n - i,
    {
        out.append("/");
        out.append(cs[i].as_str());
        proof {
            reveal_strlit("/");
            lemma_joined_push(model.take(i as int), model[i as int]);
            assert(model.take(i as int).push(model[i as int]) =~= model.take(i as int + 1));
            assert("/"@ =~= seq!['/']);
            assert(out@ =~= joined_path(model.take(i as int + 1)));
        }
        i += 1;
    }
    proof {
        assert(model.take(n as int) =~= model);
    }
    out
}

/// Joining one more component appends a separator and the component.
proof fn lemma_joined_push(comps: Seq<Seq<char>>, c: Seq<char>)
    requires
        comps.len() >= 1,
    ensures
        joined_path(comps.push(c)) == joined_path(comps) + seq!['/'] + c,
    decreases comps.len(),
{
    if comps.len() == 1 {
        assert(comps.push(c)[0] == comps[0]);
        assert(comps.push(c).drop_first() =~= seq![c]);
        assert(joined_path(seq![c]) == c);
        assert(joined_path(comps.push(c)) =~= comps[0] + seq!['/'] + c);
    } else {
        assert(comps.push(c).drop_first() =~= comps.drop_first().push(c));
        lemma_joined_push(comps.drop_first(), c);
        assert(joined_path(comps.push(c)) =~= joined_path(comps) + seq!['/'] + c);
    }
}

/// Whether `dir` is a component-wise prefix of `path`.
fn under_dir_exec(path: &Vec<String>, dir: &Vec<String>) -> (r: bool)
    ensures
        r == under_dir(
            path@.map_values(|c: String| c@),
            dir@.map_values(|c: String| c@),
        ),
{
    let m: usize = dir.len();
    let n: usize = path.len();
    let ghost pm = path@.map_values(|c: String| c@);
    let ghost dm = dir@.map_values(|c: String| c@);
    if m > n {
        return false;
    }
    let mut i: usize = 0;
    while i < m
        invariant
            m == dir@.len(),
            n == path@.len(),
            m <= n,
            pm == path@.map_values(|c: String| c@),
            dm == dir@.map_values(|c: String| c@),
            0 <= i <= m,
            forall|k: int| 0 <= k < i ==> pm[k] == dm[k],
        decreases m - i,
    {
        if !str_eq(path[i].as_str(), dir[i].as_str()) {
            assert(pm.take(m as int)[i as int] != dm[i as int]);
            return false;
        }
        i += 1;
    }
    assert(pm.take(m as int) =~= dm);
    true
}

/// Whether `needle` occurs anywhere in `hay`.
fn contains_str(hay: &str, needle: &str) -> (r: bool)
    ensures
        r == contains_c(hay@, needle@),
{
    let cs = chars_of(hay);
    crate::progress::contains_exec(&cs, needle)
}

/// Whether one running process must be terminated before the host
/// binary's artifact is overwritten.
pub fn is_termination_candidate(
    p: &ProcessFacts,
    app_name: &str,
    release_dir: &Vec<String>,
    debug_dir: &Vec<String>,
) -> (r: bool)
    ensures
        r == is_candidate(
            p@,
            app_name@,
            release_dir@.map_values(|c: String| c@),
            debug_dir@.map_values(|c: String| c@),
        ),
{
    let app_l = lower_string(app_name);
    let mut exe = app_l.clone();
    exe.append(".exe");
    let name_l = lower_string(p.name.as_str());
    if str_eq(name_l.as_str(), exe.as_str()) || str_eq(name_l.as_str(), app_l.as_str()) {
        return true;
    }
    match &p.exe_components {
        None => false,
        Some(cs) => {
            let joined = join_components(cs);
            let joined_l = lower_string(joined.as_str());
            if !contains_str(joined_l.as_str(), app_l.as_str()) {
                return false;
            }
            if under_dir_exec(cs, release_dir) || under_dir_exec(cs, debug_dir) {
                return true;
            }
            if cs.len() > 0 {
                let last_l = lower_string(cs[cs.len() - 1].as_str());
                proof {
                    assert(cs@.map_values(|c: String| c@).last() == cs@[cs@.len() - 1]@);
                }
                str_eq(last_l.as_str(), exe.as_str()) || str_eq(last_l.as_str(), app_l.as_str())
            } else {
                false
            }
        },
    }
}

} // verus!
