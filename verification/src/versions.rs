//! Version comparison: the dotted decimal versions used by the tool's
//! self-update check and by plugin installation.
use vstd::prelude::*;
use vstd::string::StringSliceAdditionalSpecFns;
use crate::text::{parse_u32_spec, parse_u32};

verus! {

/// How one version stands to another.
#[derive(Clone, Copy, PartialEq, Eq, Debug, Structural)]
pub enum VersionOrder {
    Older,
    Same,
    Newer,
}

/// Position of the first `sep` byte, or the length when there is none.
pub open spec fn first_at(s: Seq<u8>, sep: u8) -> nat
    decreases s.len(),
{
    if s.len() == 0 {
        0
    } else if s[0] == sep {
        0
    } else {
        (1 + first_at(s.drop_first(), sep)) as nat
    }
}

/// The pieces of `s` between occurrences of `sep`; always at least one.
pub open spec fn split_bytes(s: Seq<u8>, sep: u8) -> Seq<Seq<u8>>
    decreases s.len(),
{
    let i = first_at(s, sep) as int;
    if i >= s.len() {
        seq![s]
    } else {
        seq![s.take(i)] + split_bytes(s.skip(i + 1), sep)
    }
}

/// The views of a list of byte vectors.
pub open spec fn vecs_view(s: Seq<Vec<u8>>) -> Seq<Seq<u8>> {
    s.map_values(|v: Vec<u8>| v@)
}

/// Position of the first `sep` byte of a byte string.
pub(crate) fn first_at_exec(s: &[u8], sep: u8) -> (r: usize)
    ensures
        r == first_at(s@, sep),
        r <= s@.len(),
{
    let n: usize = s.len();
    let mut i: usize = 0;
    proof {
        assert(s@.skip(0) =~= s@);
    }
    while i < n
        invariant
            n == s@.len(),
            0 <= i <= n,
            first_at(s@, sep) == i + first_at(s@.skip(i as int), sep),
            forall|k: int| 0 <= k < i ==> s@[k] != sep,
        decreases n - i,
    {
        if s[i] == sep {
            assert(s@.skip(i as int)[0] == sep);
            return i;
        }
        proof {
            assert(s@.skip(i as int)[0] == s@[i as int]);
            assert(s@.skip(i as int).drop_first() =~= s@.skip(i as int + 1));
        }
        i += 1;
    }
    proof {
        assert(s@.skip(n as int) =~= Seq::<u8>::empty());
    }
    n
}

/// Splits a byte string at every occurrence of `sep`.
fn split_bytes_exec(s: &[u8], sep: u8) -> (r: Vec<Vec<u8>>)
    ensures
        vecs_view(r@) == split_bytes(s@, sep),
    decreases s@.len(),
{
    let i: usize = first_at_exec(s, sep);
    if i >= s.len() {
        let mut out: Vec<Vec<u8>> = Vec::new();
        out.push(vstd::slice::slice_to_vec(s));
        proof {
            assert(vecs_view(out@) =~= seq![s@]);
        }
        out
    } else {
        let head: Vec<u8> = vstd::slice::slice_to_vec(&s[0..i]);
        let tail: &[u8] = &s[i + 1..s.len()];
        proof {
            assert(tail@ =~= s@.skip(i as int + 1));
        }
        let mut rest = split_bytes_exec(tail, sep);
        let mut out: Vec<Vec<u8>> = Vec::new();
        out.push(head);
        out.append(&mut rest);
        proof {
            assert(head@ =~= s@.take(i as int));
            assert(vecs_view(out@) =~= seq![s@.take(i as int)] + split_bytes(
                s@.skip(i as int + 1),
                sep,
            ));
        }
        out
    }
}

/// The numeric components of a dotted version, parse failures skipped.
pub open spec fn parsed_parts(s: Seq<u8>) -> Seq<u32> {
    split_bytes(s, '.' as u8).filter_map(|p: Seq<u8>| parse_u32_spec(p))
}

/// A component, counting absent positions as zero.
pub open spec fn part_at(parts: Seq<u32>, i: int) -> u32 {
    if 0 <= i < parts.len() {
        parts[i]
    } else {
        0
    }
}

/// Order of two versions on their first three numeric components.
pub open spec fn cli_version_order(a: Seq<u32>, b: Seq<u32>) -> VersionOrder {
    if part_at(a, 0) != part_at(b, 0) {
        if part_at(a, 0) < part_at(b, 0) {
            VersionOrder::Older
        } else {
            VersionOrder::Newer
        }
    } else if part_at(a, 1) != part_at(b, 1) {
        if part_at(a, 1) < part_at(b, 1) {
            VersionOrder::Older
        } else {
            VersionOrder::Newer
        }
    } else if part_at(a, 2) != part_at(b, 2) {
        if part_at(a, 2) < part_at(b, 2) {
            VersionOrder::Older
        } else {
            VersionOrder::Newer
        }
    } else {
        VersionOrder::Same
    }
}

/// The numeric components of a dotted version, parse failures skipped.
fn parsed_parts_exec(s: &[u8]) -> (r: Vec<u32>)
    ensures
        r@ == parsed_parts(s@),
{
    let pieces = split_bytes_exec(s, '.' as u8);
    let mut out: Vec<u32> = Vec::new();
    let n: usize = pieces.len();
    let mut i: usize = 0;
    proof {
        assert(vecs_view(pieces@).take(0) =~= Seq::<Seq<u8>>::empty());
        assert(Seq::<Seq<u8>>::empty().filter_map(|p: Seq<u8>| parse_u32_spec(p)) =~= Seq::<
            u32,
        >::empty());
    }
    while i < n
        invariant
            n == pieces@.len(),
            0 <= i <= n,
            vecs_view(pieces@) == split_bytes(s@, '.' as u8),
            out@ == vecs_view(pieces@).take(i as int).filter_map(
                |p: Seq<u8>| parse_u32_spec(p),
            ),
        decreases n - i,
    {
        if let Some(v) = parse_u32(pieces[i].as_slice()) {
            out.push(v);
        }
        proof {
            vecs_view(pieces@).lemma_filter_map_take_succ(|p: Seq<u8>| parse_u32_spec(p), i as int);
            assert(vecs_view(pieces@)[i as int] == pieces@[i as int]@);
            assert(out@ =~= vecs_view(pieces@).take(i as int + 1).filter_map(
                |p: Seq<u8>| parse_u32_spec(p),
            ));
        }
        i += 1;
    }
    proof {
        assert(vecs_view(pieces@).take(n as int) =~= vecs_view(pieces@));
    }
    out
}

/// Orders the tool's own version against a published one, comparing the
/// first three dot-separated numeric components and treating missing or
/// unparsable components as zero.
pub fn compare_cli_versions(current: &str, latest: &str) -> (r: VersionOrder)
    ensures
        r == cli_version_order(
            parsed_parts(current.spec_bytes()),
            parsed_parts(latest.spec_bytes()),
        ),
{
    let a = parsed_parts_exec(current.as_bytes());
    let b = parsed_parts_exec(latest.as_bytes());
    let a0: u32 = if 0 < a.len() {
        a[0]
    } else {
        0
    };
    let b0: u32 = if 0 < b.len() {
        b[0]
    } else {
        0
    };
    let a1: u32 = if 1 < a.len() {
        a[1]
    } else {
        0
    };
    let b1: u32 = if 1 < b.len() {
        b[1]
    } else {
        0
    };
    let a2: u32 = if 2 < a.len() {
        a[2]
    } else {
        0
    };
    let b2: u32 = if 2 < b.len() {
        b[2]
    } else {
        0
    };
    if a0 != b0 {
        if a0 < b0 {
            VersionOrder::Older
        } else {
            VersionOrder::Newer
        }
    } else if a1 != b1 {
        if a1 < b1 {
            VersionOrder::Older
        } else {
            VersionOrder::Newer
        }
    } else if a2 != b2 {
        if a2 < b2 {
            VersionOrder::Older
        } else {
            VersionOrder::Newer
        }
    } else {
        VersionOrder::Same
    }
}

/// The version with every leading `v` marker removed.
pub open spec fn strip_v(s: Seq<u8>) -> Seq<u8>
    decreases s.len(),
{
    if s.len() > 0 && s[0] == 'v' as u8 {
        strip_v(s.drop_first())
    } else {
        s
    }
}

/// The `major.minor.patch` triple denoted by a version, reading a missing
/// minor or patch as zero and cutting the patch at a pre-release dash;
/// `None` when a used component does not parse.
pub open spec fn semver_triple(s: Seq<u8>) -> Option<(u32, u32, u32)> {
    let parts = split_bytes(strip_v(s), '.' as u8);
    if parts.len() >= 3 {
        let patch = split_bytes(parts[2], '-' as u8)[0];
        match (parse_u32_spec(parts[0]), parse_u32_spec(parts[1]), parse_u32_spec(patch)) {
            (Some(a), Some(b), Some(c)) => Some((a, b, c)),
            _ => None,
        }
    } else if parts.len() == 2 {
        match (parse_u32_spec(parts[0]), parse_u32_spec(parts[1])) {
            (Some(a), Some(b)) => Some((a, b, 0)),
            _ => None,
        }
    } else {
        match parse_u32_spec(parts[0]) {
            Some(a) => Some((a, 0, 0)),
            None => None,
        }
    }
}

/// Lexicographic order of two version triples.
pub open spec fn triple_order(a: (u32, u32, u32), b: (u32, u32, u32)) -> VersionOrder {
    if a.0 != b.0 {
        if a.0 < b.0 {
            VersionOrder::Older
        } else {
            VersionOrder::Newer
        }
    } else if a.1 != b.1 {
        if a.1 < b.1 {
            VersionOrder::Older
        } else {
            VersionOrder::Newer
        }
    } else if a.2 != b.2 {
        if a.2 < b.2 {
            VersionOrder::Older
        } else {
            VersionOrder::Newer
        }
    } else {
        VersionOrder::Same
    }
}

/// How two versions compare: `None` when either fails to parse.
pub open spec fn compare_versions_spec(s1: Seq<u8>, s2: Seq<u8>) -> Option<VersionOrder> {
    match (semver_triple(s1), semver_triple(s2)) {
        (Some(a), Some(b)) => Some(triple_order(a, b)),
        _ => None,
    }
}

/// Reads one version as a `major.minor.patch` triple.
fn semver_triple_exec(s: &[u8]) -> (r: Option<(u32, u32, u32)>)
    ensures
        r == semver_triple(s@),
{
    let n: usize = s.len();
    let mut start: usize = 0;
    proof {
        assert(s@.skip(0) =~= s@);
    }
    loop
        invariant
            n == s@.len(),
            0 <= start <= n,
            strip_v(s@) == strip_v(s@.skip(start as int)),
        ensures
            0 <= start <= n,
            n == s@.len(),
            strip_v(s@) == strip_v(s@.skip(start as int)),
            start == n || s@[start as int] != 'v' as u8,
        decreases n - start,
    {
        if start == n {
            break ;
        }
        if s[start] != 'v' as u8 {
            break ;
        }
        proof {
            assert(s@.skip(start as int)[0] == 'v' as u8);
            assert(s@.skip(start as int).drop_first() =~= s@.skip(start as int + 1));
        }
        start += 1;
    }
    proof {
        if start == n {
            assert(s@.skip(start as int) =~= Seq::<u8>::empty());
        } else {
            assert(s@.skip(start as int)[0] == s@[start as int]);
        }
        assert(strip_v(s@.skip(start as int)) == s@.skip(start as int));
    }
    let core: &[u8] = &s[start..n];
    proof {
        assert(core@ =~= s@.skip(start as int));
    }
    let parts = split_bytes_exec(core, '.' as u8);
    proof {
        assert(split_bytes(strip_v(s@), '.' as u8).len() >= 1);
    }
    if parts.len() >= 3 {
        let patch_pieces = split_bytes_exec(parts[2].as_slice(), '-' as u8);
        proof {
            assert(split_bytes(parts@[2]@, '-' as u8).len() >= 1);
            assert(vecs_view(patch_pieces@)[0] == patch_pieces@[0]@);
        }
        let pa = parse_u32(parts[0].as_slice());
        let pb = parse_u32(parts[1].as_slice());
        let pc = parse_u32(patch_pieces[0].as_slice());
        match (pa, pb, pc) {
            (Some(a), Some(b), Some(c)) => Some((a, b, c)),
            _ => None,
        }
    } else if parts.len() == 2 {
        let pa = parse_u32(parts[0].as_slice());
        let pb = parse_u32(parts[1].as_slice());
        match (pa, pb) {
            (Some(a), Some(b)) => Some((a, b, 0)),
            _ => None,
        }
    } else {
        assert(parts@.len() == 1);
        let pa = parse_u32(parts[0].as_slice());
        match pa {
            Some(a) => Some((a, 0, 0)),
            None => None,
        }
    }
}

/// Orders two plugin versions: `Newer` when the first is the more recent,
/// `None` when either cannot be read as a version.
pub fn compare_versions(v1: &str, v2: &str) -> (r: Option<VersionOrder>)
    ensures
        r == compare_versions_spec(v1.spec_bytes(), v2.spec_bytes()),
{
    let a = semver_triple_exec(v1.as_bytes());
    let b = semver_triple_exec(v2.as_bytes());
    match (a, b) {
        (Some(x), Some(y)) => {
            if x.0 != y.0 {
                if x.0 < y.0 {
                    Some(VersionOrder::Older)
                } else {
                    Some(VersionOrder::Newer)
                }
            } else if x.1 != y.1 {
                if x.1 < y.1 {
                    Some(VersionOrder::Older)
                } else {
                    Some(VersionOrder::Newer)
                }
            } else if x.2 != y.2 {
                if x.2 < y.2 {
                    Some(VersionOrder::Older)
                } else {
                    Some(VersionOrder::Newer)
                }
            } else {
                Some(VersionOrder::Same)
            }
        },
        _ => None,
    }
}

} // verus!
