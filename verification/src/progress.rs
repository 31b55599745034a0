//! Compiler progress parsing: classifies each line of the external
//! compiler's streamed output and folds it into a progress estimate. The
//! estimate is a UI-only heuristic — a compiling line advances a counter,
//! an explicit progress bar line sets counter and total outright, a
//! default total is assumed until one is observed and grows whenever the
//! count passes it — while lines holding an error marker are accumulated
//! verbatim into the error buffer that a failed build reports.
use vstd::prelude::*;
use vstd::string::StringExecFns;
use vstd::string::StrSliceExecFns;
use crate::text::chars_of;

verus! {

/// ASCII whitespace, as the trimming here counts it.
pub open spec fn is_ws_c(c: char) -> bool {
    c == ' ' || c == '\t' || c == '\r' || c == '\n'
}

/// First position at or after `i` holding a non-whitespace character.
pub open spec fn skip_ws_c(s: Seq<char>, i: int) -> int
    decreases s.len() - i,
{
    if 0 <= i < s.len() && is_ws_c(s[i]) {
        skip_ws_c(s, i + 1)
    } else {
        i
    }
}

/// Last position at or before `j` bounding trailing whitespace.
pub open spec fn rskip_ws_c(s: Seq<char>, j: int) -> int
    decreases j,
{
    if 0 < j <= s.len() && is_ws_c(s[j - 1]) {
        rskip_ws_c(s, j - 1)
    } else {
        j
    }
}

/// Whether `needle` occurs in `hay` starting at `i`.
pub open spec fn match_at_c(hay: Seq<char>, needle: Seq<char>, i: int) -> bool {
    &&& 0 <= i
    &&& i + needle.len() <= hay.len()
    &&& hay.subrange(i, i + needle.len()) == needle
}

/// Whether `needle` occurs anywhere in `hay`.
pub open spec fn contains_c(hay: Seq<char>, needle: Seq<char>) -> bool {
    exists|i: int| match_at_c(hay, needle, i)
}

/// First position at or after `from` holding `ch`, or the length.
pub open spec fn first_from(s: Seq<char>, ch: char, from: int) -> int
    decreases s.len() - from,
{
    if 0 <= from < s.len() {
        if s[from] == ch {
            from
        } else {
            first_from(s, ch, from + 1)
        }
    } else {
        s.len() as int
    }
}

/// The value of a decimal numeral written in characters, with one
/// optional leading plus sign; `None` when empty, malformed or above
/// `u32::MAX` — exactly what the standard parser accepts.
pub open spec fn parse_u32_chars(s: Seq<char>) -> Option<u32> {
    crate::text::parse_u32_spec(s.map_values(|c: char| c as u8))
}

/// One line of compiler output, classified. A compiling line names the
/// unit it starts; a bar line carries an explicit count and total and
/// possibly a unit name; an error line is kept for the failure report.
pub ghost enum LineClass {
    Unit(Seq<char>),
    Bar(u32, u32, Option<Seq<char>>),
    ErrorLine,
    Other,
}

/// The unit name of a compiling line: the token after `Compiling `.
pub open spec fn unit_name(line: Seq<char>, t: int) -> Seq<char> {
    line.subrange(t + 10, first_from(line, ' ', t + 10))
}

/// The text with leading and trailing whitespace removed.
pub open spec fn trim_c(s: Seq<char>) -> Seq<char> {
    let lo = skip_ws_c(s, 0);
    let hi = rskip_ws_c(s, s.len() as int);
    if lo >= hi {
        Seq::empty()
    } else {
        s.subrange(lo, hi)
    }
}

/// The fields of an explicit progress bar line `.. ] C/T: name`: between
/// the first `]` and the next one or the end, the text before the first
/// `:` must read `C/T` once trimmed, and the trimmed text after the `:`
/// names the unit.
pub open spec fn bar_fields(line: Seq<char>) -> Option<(u32, u32, Option<Seq<char>>)> {
    let rb = first_from(line, ']', 0);
    if rb >= line.len() {
        None
    } else {
        let seg = line.subrange(rb + 1, first_from(line, ']', rb + 1));
        let colon = first_from(seg, ':', 0);
        let head = trim_c(seg.take(colon));
        let slash = first_from(head, '/', 0);
        if slash >= head.len() {
            None
        } else if first_from(head, '/', slash + 1) < head.len() {
            None
        } else {
            match (parse_u32_chars(head.take(slash)), parse_u32_chars(head.skip(slash + 1))) {
                (Some(c), Some(t)) => Some(
                    (
                        c,
                        t,
                        if colon < seg.len() {
                            Some(trim_c(seg.subrange(colon + 1, first_from(seg, ':', colon + 1))))
                        } else {
                            None
                        },
                    ),
                ),
                _ => None,
            }
        }
    }
}

/// How one line of compiler output is read, checked in order: a line
/// whose trimmed start reads `Compiling ` starts a unit; else a line
/// holding `Building` and `/` is an explicit progress bar when its
/// count and total parse; else a line holding an error marker is kept;
/// anything else is passed over.
pub open spec fn classify_line(line: Seq<char>) -> LineClass {
    let t = skip_ws_c(line, 0);
    if match_at_c(line, "Compiling "@, t) {
        LineClass::Unit(unit_name(line, t))
    } else if contains_c(line, "Building"@) && contains_c(line, "/"@) {
        match bar_fields(line) {
            Some((c, tot, nm)) => LineClass::Bar(c, tot, nm),
            None => LineClass::Other,
        }
    } else if contains_c(line, "error"@) || contains_c(line, "Error"@) {
        LineClass::ErrorLine
    } else {
        LineClass::Other
    }
}

/// First non-whitespace position of the characters at or after `i`.
fn skip_ws_exec(cs: &Vec<char>, i: usize) -> (r: usize)
    requires
        i <= cs@.len(),
    ensures
        r == skip_ws_c(cs@, i as int),
        i <= r <= cs@.len(),
{
    let n: usize = cs.len();
    let mut j: usize = i;
    while j < n
        invariant
            n == cs@.len(),
            i <= j <= n,
            skip_ws_c(cs@, i as int) == skip_ws_c(cs@, j as int),
        decreases n - j,
    {
        let c: char = cs[j];
        if !(c == ' ' || c == '\t' || c == '\r' || c == '\n') {
            return j;
        }
        j += 1;
    }
    j
}

/// Position bounding trailing whitespace before `j`.
fn rskip_ws_exec(cs: &Vec<char>, j: usize) -> (r: usize)
    requires
        j <= cs@.len(),
    ensures
        r == rskip_ws_c(cs@, j as int),
        r <= j,
{
    let mut k: usize = j;
    while k > 0
        invariant
            0 <= k <= j <= cs@.len(),
            rskip_ws_c(cs@, j as int) == rskip_ws_c(cs@, k as int),
        decreases k,
    {
        let c: char = cs[k - 1];
        if !(c == ' ' || c == '\t' || c == '\r' || c == '\n') {
            return k;
        }
        k -= 1;
    }
    0
}

/// Whether `needle` stands at position `t`.
pub(crate) fn match_at_exec(cs: &Vec<char>, needle: &str, t: usize) -> (r: bool)
    ensures
        r == match_at_c(cs@, needle@, t as int),
{
    let nd = chars_of(needle);
    let m: usize = nd.len();
    let n: usize = cs.len();
    if t > n || m > n - t {
        return false;
    }
    let mut k: usize = 0;
    while k < m
        invariant
            m == nd@.len() == needle@.len(),
            nd@ == needle@,
            n == cs@.len(),
            t + m <= n,
            0 <= k <= m,
            forall|q: int| 0 <= q < k ==> cs@[t + q] == needle@[q],
        decreases m - k,
    {
        if cs[t + k] != nd[k] {
            assert(cs@.subrange(t as int, t + m) != needle@) by {
                assert(cs@.subrange(t as int, t + m)[k as int] == cs@[t + k]);
            }
            return false;
        }
        k += 1;
    }
    assert(cs@.subrange(t as int, t + m) =~= needle@);
    true
}

/// Whether `needle` occurs anywhere in the characters.
pub(crate) fn contains_exec(cs: &Vec<char>, needle: &str) -> (r: bool)
    ensures
        r == contains_c(cs@, needle@),
{
    let n: usize = cs.len();
    let mut t: usize = 0;
    loop
        invariant
            n == cs@.len(),
            0 <= t <= n,
            forall|q: int| 0 <= q < t ==> !match_at_c(cs@, needle@, q),
        ensures
            forall|q: int| 0 <= q <= n ==> !match_at_c(cs@, needle@, q),
        decreases n - t,
    {
        if match_at_exec(cs, needle, t) {
            return true;
        }
        if t == n {
            break ;
        }
        t += 1;
    }
    assert(forall|q: int| !match_at_c(cs@, needle@, q));
    false
}

/// First position at or after `from` holding `ch`.
pub(crate) fn first_from_exec(cs: &Vec<char>, ch: char, from: usize) -> (r: usize)
    requires
        from <= cs@.len(),
    ensures
        r == first_from(cs@, ch, from as int),
        from <= r <= cs@.len(),
{
    let n: usize = cs.len();
    let mut j: usize = from;
    while j < n
        invariant
            n == cs@.len(),
            from <= j <= n,
            first_from(cs@, ch, from as int) == first_from(cs@, ch, j as int),
        decreases n - j,
    {
        if cs[j] == ch {
            return j;
        }
        j += 1;
    }
    j
}

/// Reads a `u32` from a character range.
fn parse_u32_chars_exec(cs: &Vec<char>, lo: usize, hi: usize) -> (r: Option<u32>)
    requires
        lo <= hi <= cs@.len(),
    ensures
        r == parse_u32_chars(cs@.subrange(lo as int, hi as int)),
{
    let mut bytes: Vec<u8> = Vec::new();
    let mut i: usize = lo;
    while i < hi
        invariant
            lo <= i <= hi <= cs@.len(),
            bytes@ =~= cs@.subrange(lo as int, i as int).map_values(|c: char| c as u8),
        decreases hi - i,
    {
        bytes.push(cs[i] as u8);
        proof {
            assert(bytes@ =~= cs@.subrange(lo as int, i as int + 1).map_values(
                |c: char| c as u8,
            ));
        }
        i += 1;
    }
    crate::text::parse_u32(bytes.as_slice())
}

/// A string of a character range.
pub(crate) fn string_of_range(cs: &Vec<char>, lo: usize, hi: usize) -> (r: String)
    requires
        lo <= hi <= cs@.len(),
    ensures
        r@ == cs@.subrange(lo as int, hi as int),
{
    let mut out: String = String::new();
    let mut i: usize = lo;
    while i < hi
        invariant
            lo <= i <= hi <= cs@.len(),
            out@ =~= cs@.subrange(lo as int, i as int),
        decreases hi - i,
    {
        crate::text::push_char(&mut out, cs[i]);
        proof {
            assert(out@ =~= cs@.subrange(lo as int, i as int + 1));
        }
        i += 1;
    }
    out
}

/// A copy of a character range.
fn sub_chars(cs: &Vec<char>, lo: usize, hi: usize) -> (r: Vec<char>)
    requires
        lo <= hi <= cs@.len(),
    ensures
        r@ == cs@.subrange(lo as int, hi as int),
{
    let mut out: Vec<char> = Vec::new();
    let mut i: usize = lo;
    while i < hi
        invariant
            lo <= i <= hi <= cs@.len(),
            out@ =~= cs@.subrange(lo as int, i as int),
        decreases hi - i,
    {
        out.push(cs[i]);
        proof {
            assert(out@ =~= cs@.subrange(lo as int, i as int + 1));
        }
        i += 1;
    }
    out
}

/// The characters with leading and trailing whitespace removed.
fn trim_exec(cs: &Vec<char>) -> (r: Vec<char>)
    ensures
        r@ == trim_c(cs@),
{
    let lo: usize = skip_ws_exec(cs, 0);
    let hi: usize = rskip_ws_exec(cs, cs.len());
    if lo >= hi {
        let out: Vec<char> = Vec::new();
        proof {
            assert(out@ =~= Seq::<char>::empty());
        }
        out
    } else {
        sub_chars(cs, lo, hi)
    }
}

/// The running progress estimate over one compile, and the accumulated
/// error text that a failing compile reports.
pub struct CargoProgress {
    pub compiled: u32,
    pub total: u32,
    pub last_unit: Option<String>,
    pub errors: String,
}

/// The total after a compiling line: a default of 150 is assumed until a
/// total is known, and the total grows to ten past the count whenever the
/// count passes it.
pub open spec fn grown_total(compiled: u32, total: u32) -> u32 {
    let base: u32 = if total == 0 {
        150
    } else {
        total
    };
    if compiled > base {
        (compiled + 10) as u32
    } else {
        base
    }
}

impl CargoProgress {
    /// Progress before any output: nothing compiled, no total known, no
    /// unit seen, no errors.
    pub fn new() -> (r: Self)
        ensures
            r.compiled == 0,
            r.total == 0,
            r.last_unit is None,
            r.errors@ == Seq::<char>::empty(),
    {
        CargoProgress { compiled: 0, total: 0, last_unit: None, errors: String::new() }
    }

    /// Folds one line of compiler output into the estimate: a compiling
    /// line advances the count, names the unit, and grows the total; a
    /// bar line sets count and total outright and names the unit when it
    /// carries one; an error line is appended to the error text; any
    /// other line changes nothing.
    pub fn apply_line(&mut self, line: &str)
        requires
            old(self).compiled < 0xffff_fff0u32,
        ensures
            match classify_line(line@) {
                LineClass::Unit(name) => {
                    &&& final(self).compiled == old(self).compiled + 1
                    &&& final(self).total == grown_total(
                        (old(self).compiled + 1) as u32,
                        old(self).total,
                    )
                    &&& match final(self).last_unit {
                        Some(u) => u@ == name,
                        None => false,
                    }
                    &&& final(self).errors == old(self).errors
                },
                LineClass::Bar(c, t, nm) => {
                    &&& final(self).compiled == c
                    &&& final(self).total == t
                    &&& match nm {
                        Some(u) => final(self).last_unit matches Some(s) && s@ == u,
                        None => final(self).last_unit == old(self).last_unit,
                    }
                    &&& final(self).errors == old(self).errors
                },
                LineClass::ErrorLine => {
                    &&& final(self).errors@ == old(self).errors@ + line@ + "\n"@
                    &&& final(self).compiled == old(self).compiled
                    &&& final(self).total == old(self).total
                    &&& final(self).last_unit == old(self).last_unit
                },
                LineClass::Other => *final(self) == *old(self),
            },
    {
        let cs = chars_of(line);
        let t: usize = skip_ws_exec(&cs, 0);
        if match_at_exec(&cs, "Compiling ", t) {
            proof {
                reveal_strlit("Compiling ");
            }
            self.compiled = self.compiled + 1;
            let nn: usize = cs.len();
            assert(t + 10 <= nn);
            let name_end: usize = first_from_exec(&cs, ' ', t + 10);
            let name = string_of_range(&cs, t + 10, name_end);
            self.last_unit = Some(name);
            if self.total == 0 {
                self.total = 150;
            }
            if self.compiled > self.total {
                self.total = self.compiled + 10;
            }
        } else if contains_exec(&cs, "Building") && contains_exec(&cs, "/") {
            let rb: usize = first_from_exec(&cs, ']', 0);
            if rb >= cs.len() {
                return ;
            }
            let seg_end: usize = first_from_exec(&cs, ']', rb + 1);
            let seg = sub_chars(&cs, rb + 1, seg_end);
            let colon: usize = first_from_exec(&seg, ':', 0);
            let head0 = sub_chars(&seg, 0, colon);
            proof {
                assert(head0@ =~= seg@.take(colon as int));
            }
            let head = trim_exec(&head0);
            let slash: usize = first_from_exec(&head, '/', 0);
            if slash >= head.len() {
                return ;
            }
            if first_from_exec(&head, '/', slash + 1) < head.len() {
                return ;
            }
            let c_val = parse_u32_chars_exec(&head, 0, slash);
            let t_val = parse_u32_chars_exec(&head, slash + 1, head.len());
            proof {
                assert(head@.subrange(0, slash as int) =~= head@.take(slash as int));
                assert(head@.subrange(slash as int + 1, head@.len() as int) =~= head@.skip(
                    slash as int + 1,
                ));
            }
            match (c_val, t_val) {
                (Some(cv), Some(tv)) => {
                    self.compiled = cv;
                    self.total = tv;
                    if colon < seg.len() {
                        let colon2: usize = first_from_exec(&seg, ':', colon + 1);
                        let rest = sub_chars(&seg, colon + 1, colon2);
                        proof {
                            assert(rest@ =~= seg@.subrange(
                                colon as int + 1,
                                first_from(seg@, ':', colon as int + 1),
                            ));
                        }
                        let nm = trim_exec(&rest);
                        let name = string_of_range(&nm, 0, nm.len());
                        proof {
                            assert(name@ =~= nm@);
                        }
                        self.last_unit = Some(name);
                    }
                },
                _ => {},
            }
        } else if contains_exec(&cs, "error") || contains_exec(&cs, "Error") {
            self.errors.append(line);
            self.errors.append("\n");
        }
    }
}

} // verus!
