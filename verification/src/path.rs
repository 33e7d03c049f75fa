//! Path management for routes: compiling string patterns into typed
//! segments, matching candidate paths structurally, and extracting named
//! parameters.

use vstd::prelude::*;

use crate::params::{string_eq, Params};
use crate::Error;

verus! {

/// One segment of a compiled path: a literal component, a named parameter,
/// or the sentinel marking the root.
#[derive(Debug, PartialEq, PartialOrd)]
pub enum RoutePart {
    PathComponent(String),
    Param(String),
    Leader,
}

/// The mathematical shape of a [`RoutePart`].
pub enum RoutePartView {
    PathComponent(Seq<char>),
    Param(Seq<char>),
    Leader,
}

impl View for RoutePart {
    type V = RoutePartView;

    open spec fn view(&self) -> RoutePartView {
        match self {
            RoutePart::PathComponent(s) => RoutePartView::PathComponent(s@),
            RoutePart::Param(s) => RoutePartView::Param(s@),
            RoutePart::Leader => RoutePartView::Leader,
        }
    }
}

/// The index of the first occurrence of `c` in `s`, or `s.len()` if `c`
/// does not occur.
pub open spec fn find_ch(s: Seq<char>, c: char) -> int
    decreases s.len(),
{
    if s.len() == 0 {
        0
    } else if s[0] == c {
        0
    } else {
        1 + find_ch(s.drop_first(), c)
    }
}

/// `find_ch` lands on the first occurrence of `c`, or past the end.
pub proof fn lemma_find_ch(s: Seq<char>, c: char)
    ensures
        0 <= find_ch(s, c) <= s.len(),
        find_ch(s, c) < s.len() ==> s[find_ch(s, c)] == c,
        forall|j: int| 0 <= j < find_ch(s, c) ==> s[j] != c,
    decreases s.len(),
{
    if s.len() > 0 && s[0] != c {
        lemma_find_ch(s.drop_first(), c);
        assert(forall|j: int| 0 <= j < s.drop_first().len() ==> s.drop_first()[j] == s[j + 1]);
        assert forall|j: int| 0 <= j < find_ch(s, c) implies s[j] != c by {
            if j > 0 {
                assert(s.drop_first()[j - 1] != c);
            }
        }
    }
}

/// The segments of `s` split on the separator `c`; an empty string yields
/// one empty segment, and adjacent separators yield empty segments.
pub open spec fn split_on(s: Seq<char>, c: char) -> Seq<Seq<char>>
    decreases s.len()
        via split_on_decreases
{
    if find_ch(s, c) == s.len() {
        seq![s]
    } else {
        seq![s.take(find_ch(s, c))] + split_on(s.skip(find_ch(s, c) + 1), c)
    }
}

#[via_fn]
proof fn split_on_decreases(s: Seq<char>, c: char) {
    lemma_find_ch(s, c);
}

/// `s` with every trailing `c` removed.
pub open spec fn trim_trailing(s: Seq<char>, c: char) -> Seq<char>
    decreases s.len(),
{
    if s.len() > 0 && s.last() == c {
        trim_trailing(s.drop_last(), c)
    } else {
        s
    }
}

/// `s` with every leading `c` removed.
pub open spec fn trim_leading(s: Seq<char>, c: char) -> Seq<char>
    decreases s.len(),
{
    if s.len() > 0 && s[0] == c {
        trim_leading(s.drop_first(), c)
    } else {
        s
    }
}

/// The compiled form of one non-empty pattern segment: a `:`-prefixed
/// segment is a named parameter, any other a literal component.
pub open spec fn seg_part(seg: Seq<char>) -> RoutePartView {
    if seg.len() > 0 && seg[0] == ':' {
        RoutePartView::Param(trim_leading(seg, ':'))
    } else {
        RoutePartView::PathComponent(seg)
    }
}

/// The compiled parts of a sequence of pattern segments; empty segments
/// (from duplicate separators) are skipped.
pub open spec fn parts_of_segs(segs: Seq<Seq<char>>) -> Seq<RoutePartView>
    decreases segs.len(),
{
    if segs.len() == 0 {
        Seq::empty()
    } else {
        (if segs[0].len() == 0 {
            Seq::empty()
        } else {
            seq![seg_part(segs[0])]
        }) + parts_of_segs(segs.drop_first())
    }
}

/// The parts a pattern string compiles to: trailing slashes are trimmed, a
/// pattern without a slash is the bare root, and otherwise the root sentinel
/// is followed by the compiled non-empty segments.
pub open spec fn compile(pattern: Seq<char>) -> Seq<RoutePartView> {
    let t = trim_trailing(pattern, '/');
    if find_ch(t, '/') == t.len() {
        seq![RoutePartView::Leader]
    } else {
        seq![RoutePartView::Leader] + parts_of_segs(split_on(t, '/'))
    }
}

/// The positional walk of a pattern over an equally long candidate,
/// carrying whether a root sentinel was already consumed: a literal must
/// equal the candidate part, a parameter accepts anything, and the sentinel
/// may be consumed only once.
pub open spec fn walk(pat: Seq<RoutePartView>, cand: Seq<RoutePartView>, seen: bool) -> bool
    decreases pat.len(),
{
    if pat.len() == 0 {
        true
    } else {
        let ok = match pat[0] {
            RoutePartView::PathComponent(s) => cand[0] == RoutePartView::PathComponent(s),
            RoutePartView::Param(_) => true,
            RoutePartView::Leader => !seen,
        };
        ok && walk(pat.drop_first(), cand.drop_first(), seen || (pat[0] is Leader))
    }
}

/// Structural match of a pattern against a candidate's compiled parts:
/// equal part counts and a successful walk.
pub open spec fn path_matches(pat: Seq<RoutePartView>, cand: Seq<RoutePartView>) -> bool {
    pat.len() == cand.len() && walk(pat, cand, false)
}

/// Whether the pattern matches the candidate string.
pub open spec fn matches_str(pat: Seq<RoutePartView>, s: Seq<char>) -> bool {
    path_matches(pat, compile(s))
}

/// The names of the pattern's parameters, in declared order.
pub open spec fn param_names(parts: Seq<RoutePartView>) -> Seq<Seq<char>>
    decreases parts.len(),
{
    if parts.len() == 0 {
        Seq::empty()
    } else {
        (match parts[0] {
            RoutePartView::Param(n) => seq![n],
            _ => Seq::empty(),
        }) + param_names(parts.drop_first())
    }
}

/// Whether every literal part of the pattern equals the candidate segment
/// at its position (parameter and sentinel positions accept anything).
pub open spec fn literals_agree(pat: Seq<RoutePartView>, segs: Seq<Seq<char>>) -> bool {
    forall|i: int|
        0 <= i < pat.len() ==> match #[trigger] pat[i] {
            RoutePartView::PathComponent(s) => segs[i] == s,
            _ => true,
        }
}

/// The parameter mapping extracted positionally from the candidate
/// segments; a later parameter of the same name wins.
pub open spec fn extract_map(pat: Seq<RoutePartView>, segs: Seq<Seq<char>>) -> Map<
    Seq<char>,
    Seq<char>,
>
    decreases pat.len(),
{
    if pat.len() == 0 {
        Map::empty()
    } else {
        let rest = extract_map(pat.drop_last(), segs.drop_last());
        match pat.last() {
            RoutePartView::Param(n) => rest.insert(n, segs.last()),
            _ => rest,
        }
    }
}

/// The candidate segments `extract` walks for a provided string: the raw
/// split of the slash-trimmed string, empty segments kept.
pub open spec fn extract_segs(provided: Seq<char>) -> Seq<Seq<char>> {
    split_on(trim_trailing(provided, '/'), '/')
}

/// Whether `extract` takes its root shortcut for a provided string: nothing
/// is left after trimming and the pattern walks as equal to the bare root.
pub open spec fn extract_root(pat: Seq<RoutePartView>, provided: Seq<char>) -> bool {
    trim_trailing(provided, '/').len() == 0 && pat.len() == 1 && walk(
        pat,
        seq![RoutePartView::Leader],
        false,
    )
}

/// The canonical string piece of one part: the literal itself, the
/// parameter name behind a colon, or nothing for the root sentinel.
pub open spec fn part_piece(p: RoutePartView) -> Seq<char> {
    match p {
        RoutePartView::PathComponent(s) => s,
        RoutePartView::Param(n) => seq![':'] + n,
        RoutePartView::Leader => Seq::empty(),
    }
}

/// The pieces joined with slashes.
pub open spec fn join_slash(pieces: Seq<Seq<char>>) -> Seq<char>
    decreases pieces.len(),
{
    if pieces.len() == 0 {
        Seq::empty()
    } else if pieces.len() == 1 {
        pieces[0]
    } else {
        pieces[0] + seq!['/'] + join_slash(pieces.drop_first())
    }
}

/// The canonical string form of a compiled path: each part's piece joined
/// with slashes, and the bare or one-part path rendered as the root.
pub open spec fn canon(parts: Seq<RoutePartView>) -> Seq<char> {
    if parts.len() < 2 {
        seq!['/']
    } else {
        join_slash(parts.map_values(|p: RoutePartView| part_piece(p)))
    }
}

/// If `c` occurs at `i` and nowhere earlier, `find_ch` lands on `i`.
pub proof fn lemma_find_ch_at(s: Seq<char>, c: char, i: int)
    requires
        0 <= i < s.len(),
        s[i] == c,
        forall|j: int| 0 <= j < i ==> s[j] != c,
    ensures
        find_ch(s, c) == i,
{
    lemma_find_ch(s, c);
    if find_ch(s, c) < i {
        assert(s[find_ch(s, c)] != c);
    }
}

/// If `c` does not occur in `s`, `find_ch` lands past the end.
pub proof fn lemma_find_ch_absent(s: Seq<char>, c: char)
    requires
        forall|j: int| 0 <= j < s.len() ==> s[j] != c,
    ensures
        find_ch(s, c) == s.len(),
{
    lemma_find_ch(s, c);
}

/// Trimming trailing `c`s keeps exactly the prefix before the trailing run.
proof fn lemma_trim_trailing_take(s: Seq<char>, c: char, end: int)
    requires
        0 <= end <= s.len(),
        forall|j: int| end <= j < s.len() ==> s[j] == c,
        end > 0 ==> s[end - 1] != c,
    ensures
        trim_trailing(s, c) == s.take(end),
    decreases s.len(),
{
    if s.len() == 0 {
        assert(trim_trailing(s, c) =~= s.take(end));
    } else if end == s.len() {
        assert(s.last() != c);
        assert(trim_trailing(s, c) =~= s.take(end));
    } else {
        assert(s.last() == c);
        let dl = s.drop_last();
        assert(forall|j: int| end <= j < dl.len() ==> dl[j] == s[j]);
        lemma_trim_trailing_take(dl, c, end);
        assert(dl.take(end) =~= s.take(end));
    }
}

/// Trimming leading `c`s keeps exactly the suffix after the leading run.
proof fn lemma_trim_leading_skip(s: Seq<char>, c: char, start: int)
    requires
        0 <= start <= s.len(),
        forall|j: int| 0 <= j < start ==> s[j] == c,
        start < s.len() ==> s[start] != c,
    ensures
        trim_leading(s, c) == s.skip(start),
    decreases s.len(),
{
    if start == 0 {
        assert(trim_leading(s, c) =~= s.skip(0));
    } else {
        assert(s[0] == c);
        let df = s.drop_first();
        assert(forall|j: int| 0 <= j < start - 1 ==> df[j] == s[j + 1]);
        lemma_trim_leading_skip(df, c, start - 1);
        assert(df.skip(start - 1) =~= s.skip(start));
    }
}

/// Trailing slashes trimmed from a path string.
fn trim_slashes<'a>(s: &'a str) -> (r: &'a str)
    ensures
        r@ == trim_trailing(s@, '/'),
{
    let len = s.unicode_len();
    let mut end: usize = len;
    while end > 0 && s.get_char(end - 1) == '/'
        invariant
            end <= len,
            len == s@.len(),
            forall|j: int| end <= j < s@.len() ==> s@[j] == '/',
        decreases end,
    {
        end = end - 1;
    }
    proof {
        lemma_trim_trailing_take(s@, '/', end as int);
    }
    s.substring_char(0, end)
}

/// Whether the string holds a slash anywhere.
fn has_slash(s: &str) -> (r: bool)
    ensures
        r == (find_ch(s@, '/') < s@.len()),
{
    let len = s.unicode_len();
    let mut i: usize = 0;
    while i < len
        invariant
            i <= len,
            len == s@.len(),
            forall|j: int| 0 <= j < i ==> s@[j] != '/',
        decreases len - i,
    {
        if s.get_char(i) == '/' {
            proof {
                lemma_find_ch_at(s@, '/', i as int);
            }
            return true;
        }
        i += 1;
    }
    proof {
        lemma_find_ch_absent(s@, '/');
    }
    false
}

/// The string's segments split on slashes, empty segments kept.
fn split_segments(s: &str) -> (r: Vec<String>)
    ensures
        r@.len() == split_on(s@, '/').len(),
        forall|j: int| 0 <= j < r@.len() ==> (#[trigger] r@[j])@ == split_on(s@, '/')[j],
{
    let len = s.unicode_len();
    let mut segs: Vec<String> = Vec::new();
    let mut start: usize = 0;
    let mut i: usize = 0;
    proof {
        assert(s@.skip(0) =~= s@);
        assert(segs@.map_values(|x: String| x@) =~= Seq::<Seq<char>>::empty());
    }
    while i < len
        invariant
            start <= i <= len,
            len == s@.len(),
            forall|j: int| start <= j < i ==> s@[j] != '/',
            split_on(s@, '/') =~= segs@.map_values(|x: String| x@) + split_on(
                s@.skip(start as int),
                '/',
            ),
        decreases len - i,
    {
        if s.get_char(i) == '/' {
            let piece = s.substring_char(start, i).to_owned();
            proof {
                let t = s@.skip(start as int);
                let d = i - start;
                assert(forall|j: int| 0 <= j < t.len() ==> t[j] == s@[start + j]);
                lemma_find_ch_at(t, '/', d as int);
                assert(split_on(t, '/') == seq![t.take(d as int)] + split_on(
                    t.skip(d + 1),
                    '/',
                ));
                assert(t.take(d as int) =~= piece@);
                assert(t.skip(d + 1) =~= s@.skip(i + 1));
                assert(segs@.push(piece).map_values(|x: String| x@) =~= segs@.map_values(
                    |x: String| x@,
                ).push(piece@));
            }
            segs.push(piece);
            start = i + 1;
        }
        i += 1;
    }
    let piece = s.substring_char(start, len).to_owned();
    proof {
        let t = s@.skip(start as int);
        assert(forall|j: int| 0 <= j < t.len() ==> t[j] == s@[start + j]);
        lemma_find_ch_absent(t, '/');
        assert(split_on(t, '/') == seq![t]);
        assert(piece@ =~= t);
        assert(segs@.push(piece).map_values(|x: String| x@) =~= segs@.map_values(
            |x: String| x@,
        ).push(piece@));
    }
    segs.push(piece);
    segs
}

/// Whether the segment declares a named parameter.
fn starts_with_colon(s: &String) -> (r: bool)
    ensures
        r == (s@.len() > 0 && s@[0] == ':'),
{
    let len = s.as_str().unicode_len();
    if len == 0 {
        false
    } else {
        s.as_str().get_char(0) == ':'
    }
}

/// The segment with every leading colon removed.
fn trim_colons(s: &String) -> (r: String)
    ensures
        r@ == trim_leading(s@, ':'),
{
    let len = s.as_str().unicode_len();
    let mut start: usize = 0;
    while start < len && s.as_str().get_char(start) == ':'
        invariant
            start <= len,
            len == s@.len(),
            forall|j: int| 0 <= j < start ==> s@[j] == ':',
        decreases len - start,
    {
        start += 1;
    }
    proof {
        lemma_trim_leading_skip(s@, ':', start as int);
    }
    s.as_str().substring_char(start, len).to_owned()
}

impl Clone for RoutePart {
    /// The clone carries the same shape and characters.
    fn clone(&self) -> (r: Self)
        ensures
            r@ == self@,
    {
        match self {
            RoutePart::PathComponent(s) => RoutePart::PathComponent(s.clone()),
            RoutePart::Param(s) => RoutePart::Param(s.clone()),
            RoutePart::Leader => RoutePart::Leader,
        }
    }
}

/// An ordered sequence of [`RoutePart`]s compiled from a string pattern.
///
/// A fresh path for the root pattern (`/` or the empty string) is exactly
/// the root sentinel. Structural matching demands an equal segment count;
/// literals compare positionally, parameters accept any segment, and the
/// sentinel is consumed once.
#[derive(Debug, PartialEq, PartialOrd)]
pub struct Path {
    parts: Vec<RoutePart>,
}

impl View for Path {
    type V = Seq<RoutePartView>;

    closed spec fn view(&self) -> Seq<RoutePartView> {
        self.parts@.map_values(|p: RoutePart| p@)
    }
}

impl Clone for Path {
    /// The clone compiles to the same parts.
    fn clone(&self) -> (r: Self)
        ensures
            r@ == self@,
    {
        let n = self.parts.len();
        let mut parts: Vec<RoutePart> = Vec::new();
        let mut i: usize = 0;
        while i < n
            invariant
                i <= n,
                n == self.parts.len(),
                parts@.len() == i,
                forall|j: int| 0 <= j < i ==> (#[trigger] parts@[j])@ == self.parts@[j]@,
            decreases n - i,
        {
            parts.push(self.parts[i].clone());
            i += 1;
        }
        proof {
            assert(parts@.map_values(|p: RoutePart| p@) =~= self@);
        }
        Path { parts }
    }
}

impl Default for Path {
    /// The bare root path.
    fn default() -> (r: Self)
        ensures
            r@ == seq![RoutePartView::Leader],
    {
        let parts = vec![RoutePart::Leader];
        proof {
            assert(parts@.map_values(|p: RoutePart| p@) =~= seq![RoutePartView::Leader]);
        }
        Path { parts }
    }
}

/// Compiling a further segment appends its parts (or nothing, for an empty
/// segment).
pub proof fn lemma_parts_of_segs_snoc(segs: Seq<Seq<char>>, x: Seq<char>)
    ensures
        parts_of_segs(segs.push(x)) == parts_of_segs(segs) + (if x.len() == 0 {
            Seq::<RoutePartView>::empty()
        } else {
            seq![seg_part(x)]
        }),
    decreases segs.len(),
{
    let tail = (if x.len() == 0 {
        Seq::<RoutePartView>::empty()
    } else {
        seq![seg_part(x)]
    });
    if segs.len() == 0 {
        assert(segs.push(x)[0] == x);
        assert(segs.push(x).drop_first() =~= segs);
        assert(parts_of_segs(segs.push(x)) =~= parts_of_segs(segs) + tail);
    } else {
        assert(segs.push(x)[0] == segs[0]);
        assert(segs.push(x).drop_first() =~= segs.drop_first().push(x));
        lemma_parts_of_segs_snoc(segs.drop_first(), x);
        assert(parts_of_segs(segs.push(x)) =~= parts_of_segs(segs) + tail);
    }
}

impl Path {
    /// Compile a string pattern: trailing slashes are trimmed, a pattern
    /// without a slash compiles to the bare root, and otherwise each
    /// non-empty segment becomes a parameter (`:`-prefixed) or a literal
    /// component behind the root sentinel.
    pub fn new(path: String) -> (r: Self)
        ensures
            r@ == compile(path@),
    {
        let trimmed = trim_slashes(path.as_str());
        if !has_slash(trimmed) {
            proof {
                lemma_find_ch(trimmed@, '/');
            }
            return Path::default();
        }
        let segs = split_segments(trimmed);
        let ghost segsv = split_on(trimmed@, '/');
        let n = segs.len();
        let mut parts: Vec<RoutePart> = Vec::new();
        parts.push(RoutePart::Leader);
        let mut k: usize = 0;
        proof {
            assert(segsv.take(0) =~= Seq::<Seq<char>>::empty());
            assert(parts@.map_values(|p: RoutePart| p@) =~= seq![RoutePartView::Leader]
                + parts_of_segs(segsv.take(0)));
        }
        while k < n
            invariant
                k <= n,
                n == segs.len(),
                segsv == split_on(trimmed@, '/'),
                n == segsv.len(),
                forall|j: int| 0 <= j < n ==> (#[trigger] segs@[j])@ == segsv[j],
                parts@.map_values(|p: RoutePart| p@) =~= seq![RoutePartView::Leader]
                    + parts_of_segs(segsv.take(k as int)),
            decreases n - k,
        {
            let ghost before = parts@.map_values(|p: RoutePart| p@);
            let seg = &segs[k];
            proof {
                assert(seg@ == segsv[k as int]);
            }
            if starts_with_colon(seg) {
                let name = trim_colons(seg);
                parts.push(RoutePart::Param(name));
                proof {
                    assert(parts@.map_values(|p: RoutePart| p@) =~= before + seq![
                        seg_part(segsv[k as int]),
                    ]);
                }
            } else if seg.as_str().unicode_len() == 0 {
                // duplicate slashes yield empty segments; they are skipped
                // here, so the compiled pattern never carries them
            } else {
                parts.push(RoutePart::PathComponent(seg.clone()));
                proof {
                    assert(parts@.map_values(|p: RoutePart| p@) =~= before + seq![
                        seg_part(segsv[k as int]),
                    ]);
                }
            }
            proof {
                assert(segsv.take(k + 1) =~= segsv.take(k as int).push(segsv[k as int]));
                lemma_parts_of_segs_snoc(segsv.take(k as int), segsv[k as int]);
            }
            k += 1;
        }
        proof {
            assert(segsv.take(n as int) =~= segsv);
        }
        Path { parts }
    }

    /// Append a part and return a copy of the grown path.
    pub fn push(&mut self, arg: RoutePart) -> (r: Self)
        ensures
            final(self)@ == old(self)@.push(arg@),
            r@ == final(self)@,
    {
        self.parts.push(arg);
        proof {
            assert(self.parts@.map_values(|p: RoutePart| p@) =~= old(self)@.push(
                self.parts@.last()@,
            ));
        }
        self.clone()
    }

    /// List the names of all the params available to the path, in declared
    /// order; useful for debugging.
    pub fn params(&self) -> (r: Vec<String>)
        ensures
            r@.map_values(|s: String| s@) == param_names(self@),
    {
        let n = self.parts.len();
        let mut names: Vec<String> = Vec::new();
        let mut i: usize = 0;
        proof {
            assert(self@.take(0) =~= Seq::<RoutePartView>::empty());
            assert(names@.map_values(|s: String| s@) =~= param_names(self@.take(0)));
        }
        while i < n
            invariant
                i <= n,
                n == self.parts.len(),
                names@.map_values(|s: String| s@) =~= param_names(self@.take(i as int)),
            decreases n - i,
        {
            let ghost before = names@.map_values(|s: String| s@);
            match &self.parts[i] {
                RoutePart::Param(p) => {
                    let name = p.clone();
                    names.push(name);
                    proof {
                        assert(names@.map_values(|s: String| s@) =~= before + seq![
                            self@[i as int]->Param_0,
                        ]);
                    }
                },
                _ => {},
            }
            proof {
                assert(self@.take(i + 1) =~= self@.take(i as int).push(self@[i as int]));
                lemma_param_names_snoc(self@.take(i as int), self@[i as int]);
            }
            i += 1;
        }
        proof {
            assert(self@.take(n as int) =~= self@);
        }
        names
    }

    /// The positional walk against another compiled path; literals compare,
    /// parameters accept anything, and the root sentinel is consumed once.
    fn walk_eq(&self, other: &Path) -> (r: bool)
        ensures
            r == path_matches(self@, other@),
    {
        let n = self.parts.len();
        if other.parts.len() != n {
            return false;
        }
        let mut seen = false;
        let mut i: usize = 0;
        proof {
            assert(self@.skip(0) =~= self@);
            assert(other@.skip(0) =~= other@);
        }
        while i < n
            invariant
                i <= n,
                n == self.parts.len(),
                n == other.parts.len(),
                walk(self@, other@, false) == walk(
                    self@.skip(i as int),
                    other@.skip(i as int),
                    seen,
                ),
            decreases n - i,
        {
            let ghost pre_pat = self@.skip(i as int);
            let ghost pre_cand = other@.skip(i as int);
            proof {
                assert(pre_pat[0] == self@[i as int]);
                assert(pre_cand[0] == other@[i as int]);
                assert(pre_pat.drop_first() =~= self@.skip(i + 1));
                assert(pre_cand.drop_first() =~= other@.skip(i + 1));
            }
            let ok = match &self.parts[i] {
                RoutePart::PathComponent(a) => match &other.parts[i] {
                    RoutePart::PathComponent(b) => string_eq(a, b),
                    _ => false,
                },
                RoutePart::Param(_) => true,
                RoutePart::Leader => !seen,
            };
            if !ok {
                return false;
            }
            let is_leader = matches!(&self.parts[i], RoutePart::Leader);
            seen = seen || is_leader;
            i += 1;
        }
        proof {
            assert(self@.skip(n as int) =~= Seq::<RoutePartView>::empty());
        }
        true
    }

    /// Whether the path structurally matches the candidate string: the
    /// candidate is compiled the same way patterns are, so duplicate
    /// slashes collapse and trailing slashes are ignored.
    pub fn matches(&self, s: String) -> (r: bool)
        ensures
            r == matches_str(self@, s@),
    {
        let cand = Path::new(s);
        self.walk_eq(&cand)
    }

    /// Extract the named parameters from a provided candidate path.
    ///
    /// The candidate is trimmed of trailing slashes and split raw (empty
    /// segments from duplicate slashes are kept, unlike in compilation).
    /// A segment-count mismatch or a literal mismatch is an error; on
    /// success each parameter name maps to its candidate segment, a later
    /// parameter of the same name winning.
    pub fn extract(&self, provided: String) -> (r: Result<Params, Error>)
        ensures
            extract_root(self@, provided@) ==> (r matches Ok(p) && p@ == Map::<
                Seq<char>,
                Seq<char>,
            >::empty()),
            !extract_root(self@, provided@) && extract_segs(provided@).len() != self@.len() ==> (
            r matches Err(e) && (e matches Error::InternalServerError(m) && m@
                == "invalid parameters"@)),
            !extract_root(self@, provided@) && extract_segs(provided@).len() == self@.len()
                && !literals_agree(self@, extract_segs(provided@)) ==> (r matches Err(e) && (
            e matches Error::InternalServerError(m) && m@
                == "invalid path for parameter extraction"@)),
            !extract_root(self@, provided@) && extract_segs(provided@).len() == self@.len()
                && literals_agree(self@, extract_segs(provided@)) ==> (r matches Ok(p) && p@
                == extract_map(self@, extract_segs(provided@))),
    {
        let trimmed = trim_slashes(provided.as_str());
        if trimmed.unicode_len() == 0 {
            let root = Path::default();
            if self.walk_eq(&root) {
                return Ok(Params::new());
            }
        }
        let segs = split_segments(trimmed);
        let ghost segsv = split_on(trimmed@, '/');
        let n = self.parts.len();
        if segs.len() != n {
            return Err(Error::new("invalid parameters"));
        }
        let mut params = Params::new();
        let mut i: usize = 0;
        proof {
            assert(self@.take(0) =~= Seq::<RoutePartView>::empty());
            assert(params@ =~= extract_map(self@.take(0), segsv.take(0)));
        }
        while i < n
            invariant
                i <= n,
                n == self.parts.len(),
                n == segs.len(),
                trimmed@ == trim_trailing(provided@, '/'),
                !extract_root(self@, provided@),
                segsv == split_on(trimmed@, '/'),
                n == segsv.len(),
                forall|j: int| 0 <= j < n ==> (#[trigger] segs@[j])@ == segsv[j],
                params@ == extract_map(self@.take(i as int), segsv.take(i as int)),
                forall|j: int|
                    0 <= j < i ==> match #[trigger] self@[j] {
                        RoutePartView::PathComponent(s) => segsv[j] == s,
                        _ => true,
                    },
            decreases n - i,
        {
            match &self.parts[i] {
                RoutePart::Param(p) => {
                    params.insert(p.clone(), segs[i].clone());
                },
                RoutePart::PathComponent(part) => {
                    if !string_eq(part, &segs[i]) {
                        proof {
                            assert(match self@[i as int] {
                                RoutePartView::PathComponent(s) => segsv[i as int] != s,
                                _ => false,
                            });
                        }
                        return Err(Error::new("invalid path for parameter extraction"));
                    }
                },
                RoutePart::Leader => {},
            }
            proof {
                assert(self@.take(i + 1).drop_last() =~= self@.take(i as int));
                assert(segsv.take(i + 1).drop_last() =~= segsv.take(i as int));
                assert(self@.take(i + 1).last() == self@[i as int]);
                assert(segsv.take(i + 1).last() == segsv[i as int]);
            }
            i += 1;
        }
        proof {
            assert(self@.take(n as int) =~= self@);
            assert(segsv.take(n as int) =~= segsv);
        }
        Ok(params)
    }

    /// The canonical string form of the path: each part joined with
    /// slashes (a parameter behind a colon, the root sentinel as nothing),
    /// and any path of fewer than two parts rendered as the root.
    pub fn to_string(&self) -> (r: String)
        ensures
            r@ == canon(self@),
    {
        let n = self.parts.len();
        if n < 2 {
            let r = "/".to_owned();
            proof {
                reveal_strlit("/");
                assert(r@ =~= seq!['/']);
            }
            return r;
        }
        let ghost pieces = self@.map_values(|p: RoutePartView| part_piece(p));
        let mut out = String::new();
        let mut i: usize = 0;
        proof {
            assert(pieces.take(0) =~= Seq::<Seq<char>>::empty());
        }
        while i < n
            invariant
                i <= n,
                2 <= n == self.parts.len(),
                pieces == self@.map_values(|p: RoutePartView| part_piece(p)),
                i == 0 ==> out@ == Seq::<char>::empty(),
                i > 0 ==> out@ == join_slash(pieces.take(i as int)),
            decreases n - i,
        {
            let ghost before = out@;
            if i > 0 {
                let slash = "/";
                proof {
                    reveal_strlit("/");
                }
                out.append(slash);
            }
            match &self.parts[i] {
                RoutePart::PathComponent(s) => {
                    out.append(s.as_str());
                },
                RoutePart::Param(p) => {
                    let colon = ":";
                    proof {
                        reveal_strlit(":");
                    }
                    out.append(colon);
                    out.append(p.as_str());
                },
                RoutePart::Leader => {},
            }
            proof {
                assert(pieces[i as int] == part_piece(self@[i as int]));
                assert(pieces.take(i + 1) =~= pieces.take(i as int).push(pieces[i as int]));
                lemma_join_slash_snoc(pieces.take(i as int), pieces[i as int]);
                if i == 0 {
                    assert(out@ =~= pieces[0]);
                    assert(join_slash(pieces.take(1)) == pieces.take(1)[0]);
                    assert(pieces.take(1)[0] == pieces[0]);
                } else {
                    assert(out@ =~= before + seq!['/'] + pieces[i as int]);
                }
            }
            i += 1;
        }
        proof {
            assert(pieces.take(n as int) =~= pieces);
        }
        out
    }
}

/// Joining one further piece appends a slash and the piece (or is the
/// piece itself, for the first).
proof fn lemma_join_slash_snoc(pieces: Seq<Seq<char>>, x: Seq<char>)
    ensures
        pieces.len() == 0 ==> join_slash(pieces.push(x)) == x,
        pieces.len() > 0 ==> join_slash(pieces.push(x)) == join_slash(pieces) + seq!['/'] + x,
    decreases pieces.len(),
{
    if pieces.len() == 0 {
        assert(join_slash(pieces.push(x)) == pieces.push(x)[0]);
        assert(pieces.push(x)[0] == x);
    } else if pieces.len() == 1 {
        assert(pieces.push(x)[0] == pieces[0]);
        assert(pieces.push(x).drop_first() =~= seq![x]);
        assert(join_slash(seq![x]) == x);
        assert(join_slash(pieces) == pieces[0]);
    } else {
        assert(pieces.push(x)[0] == pieces[0]);
        assert(pieces.push(x).drop_first() =~= pieces.drop_first().push(x));
        lemma_join_slash_snoc(pieces.drop_first(), x);
        assert(join_slash(pieces.push(x)) == pieces[0] + seq!['/'] + join_slash(
            pieces.drop_first().push(x),
        ));
        assert(join_slash(pieces) + seq!['/'] + x =~= pieces[0] + seq!['/'] + (join_slash(
            pieces.drop_first(),
        ) + seq!['/'] + x));
    }
}

/// A further part appends its parameter name (or nothing).
pub proof fn lemma_param_names_snoc(parts: Seq<RoutePartView>, x: RoutePartView)
    ensures
        param_names(parts.push(x)) == param_names(parts) + (match x {
            RoutePartView::Param(n) => seq![n],
            _ => Seq::<Seq<char>>::empty(),
        }),
    decreases parts.len(),
{
    let tail = (match x {
        RoutePartView::Param(n) => seq![n],
        _ => Seq::<Seq<char>>::empty(),
    });
    if parts.len() == 0 {
        assert(parts.push(x)[0] == x);
        assert(parts.push(x).drop_first() =~= parts);
        assert(param_names(parts.push(x)) =~= param_names(parts) + tail);
    } else {
        assert(parts.push(x)[0] == parts[0]);
        assert(parts.push(x).drop_first() =~= parts.drop_first().push(x));
        lemma_param_names_snoc(parts.drop_first(), x);
        assert(param_names(parts.push(x)) =~= param_names(parts) + tail);
    }
}

} // verus!
