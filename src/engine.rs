//! Detection of PII matches and redaction of text, over a list of patterns.

use crate::matcher::{
    char_index, char_offset, chars_of, compile, find_spans, has_match, lemma_char_index_ordered,
    regex_compiles, regex_spans, spans_on_boundaries, Matcher,
};
use crate::patterns::{
    category_patterns, get_all_patterns, get_patterns_by_name, patterns_named_upto,
    selected_patterns, str_views,
};
use vstd::prelude::*;

verus! {

/// A match as the contracts see it: character start, character end, matched characters.
pub type MatchView = (int, int, Seq<char>);

pub open spec fn match_view(m: (usize, usize, String)) -> MatchView {
    (m.0 as int, m.1 as int, m.2@)
}

pub open spec fn matches_view(v: Seq<(usize, usize, String)>) -> Seq<MatchView> {
    v.map_values(|m: (usize, usize, String)| match_view(m))
}

pub open spec fn matcher_views(ms: Seq<Matcher>) -> Seq<Seq<char>> {
    ms.map_values(|m: Matcher| m@)
}

/// The match that the byte span `sp` of `t` stands for.
pub open spec fn match_at(t: Seq<char>, sp: (usize, usize)) -> MatchView {
    let s = char_index(t, sp.0 as int);
    let e = char_index(t, sp.1 as int);
    (s, e, t.subrange(s, e))
}

/// The matches of one pattern in `t`, leftmost first.
pub open spec fn pattern_matches(t: Seq<char>, p: Seq<char>) -> Seq<MatchView> {
    regex_spans(p, t).map_values(|sp: (usize, usize)| match_at(t, sp))
}

/// The matches of each pattern in turn, each scanning the unmodified `t`.
pub open spec fn all_matches(t: Seq<char>, pats: Seq<Seq<char>>) -> Seq<MatchView>
    decreases pats.len(),
{
    if pats.len() == 0 {
        Seq::empty()
    } else {
        all_matches(t, pats.drop_last()) + pattern_matches(t, pats.last())
    }
}

/// `m` placed after every element of `s` whose start is not above its own.
pub open spec fn insert_by_start(s: Seq<MatchView>, m: MatchView) -> Seq<MatchView>
    decreases s.len(),
{
    if s.len() == 0 {
        seq![m]
    } else if s.last().0 <= m.0 {
        s.push(m)
    } else {
        insert_by_start(s.drop_last(), m).push(s.last())
    }
}

/// Stable sort by start.
pub open spec fn sort_by_start(s: Seq<MatchView>) -> Seq<MatchView>
    decreases s.len(),
{
    if s.len() == 0 {
        s
    } else {
        insert_by_start(sort_by_start(s.drop_last()), s.last())
    }
}

/// What detection with the patterns `pats` reports for `t`.
pub open spec fn detected(t: Seq<char>, pats: Seq<Seq<char>>) -> Seq<MatchView> {
    sort_by_start(all_matches(t, pats))
}

/// Every pattern of the list is accepted by the regex engine.
pub open spec fn all_compile(pats: Seq<Seq<char>>) -> bool {
    forall|i: int| 0 <= i < pats.len() ==> regex_compiles(#[trigger] pats[i])
}

/// Every pattern of the catalog is accepted by the regex engine.
pub open spec fn catalog_compiles() -> bool {
    all_compile(category_patterns())
}

/// Inserting at a position past every start not above `m`'s, and before every start
/// above it, is the stable insertion.
proof fn lemma_insert_at(s: Seq<MatchView>, m: MatchView, pos: int)
    requires
        0 <= pos <= s.len(),
        pos == 0 || s[pos - 1].0 <= m.0,
        forall|k: int| pos <= k < s.len() ==> #[trigger] s[k].0 > m.0,
    ensures
        insert_by_start(s, m) == s.insert(pos, m),
    decreases s.len(),
{
    if s.len() == 0 {
        assert(s.insert(pos, m) =~= seq![m]);
    } else if s.last().0 <= m.0 {
        assert(s.insert(pos, m) =~= s.push(m));
    } else {
        lemma_insert_at(s.drop_last(), m, pos);
        assert(s.insert(pos, m) =~= s.drop_last().insert(pos, m).push(s.last()));
    }
}

/// Adds `m` to the sorted list `out`, keeping it as the stable sort of what was added.
fn insert_match(out: &mut Vec<(usize, usize, String)>, m: (usize, usize, String))
    ensures
        matches_view(final(out)@) == insert_by_start(matches_view(old(out)@), match_view(m)),
{
    let mut pos: usize = out.len();
    while pos > 0 && out[pos - 1].0 > m.0
        invariant
            0 <= pos <= out@.len(),
            forall|k: int| pos <= k < out@.len() ==> #[trigger] out@[k].0 > m.0,
        decreases pos,
    {
        pos = pos - 1;
    }
    let ghost before = matches_view(out@);
    proof {
        lemma_insert_at(before, match_view(m), pos as int);
    }
    out.insert(pos, m);
    assert(matches_view(out@) =~= before.insert(pos as int, match_view(m)));
}

/// The match is within `t`, and its text is the characters of `t` between its offsets.
pub open spec fn match_placed(t: Seq<char>, m: MatchView) -> bool {
    &&& 0 <= m.0 <= m.1 <= t.len()
    &&& m.2 == t.subrange(m.0, m.1)
}

/// Every match of `s` is placed in `t`.
pub open spec fn all_placed(t: Seq<char>, s: Seq<MatchView>) -> bool {
    forall|i: int| 0 <= i < s.len() ==> match_placed(t, #[trigger] s[i])
}

proof fn lemma_insert_placed(t: Seq<char>, s: Seq<MatchView>, m: MatchView)
    requires
        all_placed(t, s),
        match_placed(t, m),
    ensures
        all_placed(t, insert_by_start(s, m)),
    decreases s.len(),
{
    if s.len() > 0 && s.last().0 > m.0 {
        lemma_insert_placed(t, s.drop_last(), m);
        assert(match_placed(t, s[s.len() - 1]));
    }
}

/// The matches that the byte spans `spans` of `text` stand for, in the same order.
pub fn matches_of_spans(text: &str, spans: &Vec<(usize, usize)>) -> (r: Vec<(usize, usize, String)>)
    requires
        spans_on_boundaries(text@, spans@),
    ensures
        matches_view(r@) == spans@.map_values(|sp: (usize, usize)| match_at(text@, sp)),
        all_placed(text@, matches_view(r@)),
{
    let ghost t = text@;
    let mut out: Vec<(usize, usize, String)> = Vec::new();
    let mut j: usize = 0;
    while j < spans.len()
        invariant
            t == text@,
            0 <= j <= spans@.len(),
            spans_on_boundaries(text@, spans@),
            matches_view(out@) == spans@.subrange(0, j as int).map_values(
                |sp: (usize, usize)| match_at(t, sp),
            ),
            all_placed(t, matches_view(out@)),
        decreases spans@.len() - j,
    {
        let (b0, b1) = spans[j];
        assert(spans@[j as int].0 <= spans@[j as int].1);
        proof {
            lemma_char_index_ordered(t, b0 as int, b1 as int);
        }
        let s = char_offset(text, b0);
        let e = char_offset(text, b1);
        let piece = String::from_str(text.substring_char(s, e));
        let ghost before = out@;
        out.push((s, e, piece));
        assert(matches_view(out@) =~= matches_view(before).push(match_at(t, spans@[j as int])));
        assert(spans@.subrange(0, j + 1).map_values(|sp: (usize, usize)| match_at(t, sp))
            =~= spans@.subrange(0, j as int).map_values(|sp: (usize, usize)| match_at(t, sp)).push(
            match_at(t, spans@[j as int]),
        ));
        j = j + 1;
    }
    assert(spans@.subrange(0, j as int) =~= spans@);
    out
}

/// Detection with compiled patterns: each pattern scans the unmodified text, and the
/// matches are stably sorted by start.
pub(crate) fn detect_with(text: &str, ms: &Vec<Matcher>) -> (r: Vec<(usize, usize, String)>)
    ensures
        matches_view(r@) == detected(text@, matcher_views(ms@)),
        all_placed(text@, matches_view(r@)),
{
    let ghost t = text@;
    let ghost pats = matcher_views(ms@);
    let mut out: Vec<(usize, usize, String)> = Vec::new();
    let mut k: usize = 0;
    while k < ms.len()
        invariant
            t == text@,
            pats == matcher_views(ms@),
            0 <= k <= ms@.len(),
            matches_view(out@) == sort_by_start(all_matches(t, pats.subrange(0, k as int))),
            all_placed(t, matches_view(out@)),
        decreases ms@.len() - k,
    {
        let spans = find_spans(&ms[k], text);
        let found_vec = matches_of_spans(text, &spans);
        let ghost done = all_matches(t, pats.subrange(0, k as int));
        let ghost found = pattern_matches(t, pats[k as int]);
        assert(matches_view(found_vec@) == found);
        let mut j: usize = 0;
        while j < found_vec.len()
            invariant
                t == text@,
                pats == matcher_views(ms@),
                0 <= k < ms@.len(),
                0 <= j <= found_vec@.len(),
                matches_view(found_vec@) == found,
                all_placed(t, found),
                matches_view(out@) == sort_by_start(done + found.subrange(0, j as int)),
                all_placed(t, matches_view(out@)),
            decreases found_vec@.len() - j,
        {
            let m = (found_vec[j].0, found_vec[j].1, found_vec[j].2.clone());
            assert(match_view(m) == found[j as int]);
            proof {
                lemma_insert_placed(t, matches_view(out@), match_view(m));
            }
            insert_match(&mut out, m);
            assert((done + found.subrange(0, j as int)).push(found[j as int])
                =~= done + found.subrange(0, j + 1));
            assert((done + found.subrange(0, j + 1)).drop_last()
                =~= done + found.subrange(0, j as int));
            j = j + 1;
        }
        assert(found.subrange(0, j as int) =~= found);
        assert(pats.subrange(0, k + 1).drop_last() =~= pats.subrange(0, k as int));
        k = k + 1;
    }
    assert(pats.subrange(0, k as int) =~= pats);
    out
}

/// The character used to overwrite redacted text.
pub const REDACTION_CHAR: char = '-';

/// What the replace policy returns for a text that holds PII.
pub const REPLACEMENT_NOTICE: &'static str = "[PII detected, comment redacted]";

/// The character spans that the byte spans `spans` of `t` stand for.
pub open spec fn char_spans(t: Seq<char>, spans: Seq<(usize, usize)>) -> Seq<(int, int)> {
    spans.map_values(|sp: (usize, usize)| (char_index(t, sp.0 as int), char_index(t, sp.1 as int)))
}

/// `t` with the characters at positions `a..b` overwritten by the redaction character.
pub open spec fn dash_span(t: Seq<char>, a: int, b: int) -> Seq<char> {
    Seq::new(t.len(), |x: int| if a <= x < b { REDACTION_CHAR } else { t[x] })
}

/// `t` with every span of `cs` overwritten, one after the other.
pub open spec fn dash_spans(t: Seq<char>, cs: Seq<(int, int)>) -> Seq<char>
    decreases cs.len(),
{
    if cs.len() == 0 {
        t
    } else {
        dash_span(dash_spans(t, cs.drop_last()), cs.last().0, cs.last().1)
    }
}

/// One redaction stage: every match of `p` in `t`, overwritten with as many
/// redaction characters as it has characters.
pub open spec fn redact_once(t: Seq<char>, p: Seq<char>) -> Seq<char> {
    dash_spans(t, char_spans(t, regex_spans(p, t)))
}

/// The redaction pipeline: each pattern in order scans the output of the stage before.
pub open spec fn redacted(t: Seq<char>, pats: Seq<Seq<char>>) -> Seq<char>
    decreases pats.len(),
{
    if pats.len() == 0 {
        t
    } else {
        redact_once(redacted(t, pats.drop_last()), pats.last())
    }
}

/// Whether some pattern of `pats` matches somewhere in `t`.
pub open spec fn any_match(t: Seq<char>, pats: Seq<Seq<char>>) -> bool {
    exists|i: int| 0 <= i < pats.len() && regex_spans(#[trigger] pats[i], t).len() > 0
}

/// The replace policy: the notice when any pattern matches, else `t` unchanged.
pub open spec fn replaced(t: Seq<char>, pats: Seq<Seq<char>>) -> Seq<char> {
    if any_match(t, pats) {
        REPLACEMENT_NOTICE@
    } else {
        t
    }
}

/// Relies on `String::push`: appends one character.
#[verifier::external_body]
fn push_char(s: &mut String, c: char)
    ensures
        final(s)@ == old(s)@.push(c),
{
    s.push(c)
}

/// The string of the characters `cs`.
fn string_of(cs: &Vec<char>) -> (r: String)
    ensures
        r@ == cs@,
{
    let mut r = String::new();
    let mut i: usize = 0;
    while i < cs.len()
        invariant
            0 <= i <= cs@.len(),
            r@ == cs@.subrange(0, i as int),
        decreases cs@.len() - i,
    {
        push_char(&mut r, cs[i]);
        assert(r@ =~= cs@.subrange(0, i + 1));
        i = i + 1;
    }
    assert(r@ =~= cs@);
    r
}

/// `text` with the characters of each of the byte spans `spans` overwritten by the
/// redaction character, as many as the span has characters.
pub fn redact_spans(text: &str, spans: &Vec<(usize, usize)>) -> (r: String)
    requires
        spans_on_boundaries(text@, spans@),
    ensures
        r@ == dash_spans(text@, char_spans(text@, spans@)),
{
    let ghost t = text@;
    let ghost cs = char_spans(t, spans@);
    let mut chars = chars_of(text);
    let mut j: usize = 0;
    while j < spans.len()
        invariant
            t == text@,
            cs == char_spans(t, spans@),
            0 <= j <= spans@.len(),
            chars@.len() == t.len(),
            chars@ == dash_spans(t, cs.subrange(0, j as int)),
            spans_on_boundaries(text@, spans@),
        decreases spans@.len() - j,
    {
        let (b0, b1) = spans[j];
        assert(spans@[j as int].0 <= spans@[j as int].1);
        proof {
            lemma_char_index_ordered(t, b0 as int, b1 as int);
        }
        let s = char_offset(text, b0);
        let e = char_offset(text, b1);
        let ghost prev = chars@;
        let mut x: usize = s;
        while x < e
            invariant
                s <= x <= e <= t.len(),
                chars@.len() == t.len(),
                prev.len() == t.len(),
                chars@ == Seq::new(t.len(), |y: int| if s <= y < x { REDACTION_CHAR } else { prev[y] }),
            decreases e - x,
        {
            chars.set(x, REDACTION_CHAR);
            assert(chars@ =~= Seq::new(t.len(), |y: int| if s <= y < x + 1 { REDACTION_CHAR } else { prev[y] }));
            x = x + 1;
        }
        assert(cs[j as int] == (s as int, e as int));
        assert(cs.subrange(0, j + 1).drop_last() =~= cs.subrange(0, j as int));
        assert(chars@ =~= dash_span(prev, s as int, e as int));
        j = j + 1;
    }
    assert(cs.subrange(0, j as int) =~= cs);
    string_of(&chars)
}

/// One redaction stage with a compiled pattern.
fn redact_stage(text: &str, m: &Matcher) -> (r: String)
    ensures
        r@ == redact_once(text@, m@),
{
    let spans = find_spans(m, text);
    redact_spans(text, &spans)
}

/// The redaction pipeline with compiled patterns, applied in order.
pub(crate) fn redact_with(text: &str, ms: &Vec<Matcher>) -> (r: String)
    ensures
        r@ == redacted(text@, matcher_views(ms@)),
{
    let ghost pats = matcher_views(ms@);
    let mut out = String::from_str(text);
    let mut k: usize = 0;
    while k < ms.len()
        invariant
            pats == matcher_views(ms@),
            0 <= k <= ms@.len(),
            out@ == redacted(text@, pats.subrange(0, k as int)),
        decreases ms@.len() - k,
    {
        out = redact_stage(out.as_str(), &ms[k]);
        assert(pats.subrange(0, k + 1).drop_last() =~= pats.subrange(0, k as int));
        k = k + 1;
    }
    assert(pats.subrange(0, k as int) =~= pats);
    out
}

/// The replace policy with compiled patterns: stops at the first pattern that matches.
pub(crate) fn replace_with(text: &str, ms: &Vec<Matcher>) -> (r: String)
    ensures
        r@ == replaced(text@, matcher_views(ms@)),
{
    let ghost pats = matcher_views(ms@);
    let mut k: usize = 0;
    while k < ms.len()
        invariant
            pats == matcher_views(ms@),
            0 <= k <= ms@.len(),
            forall|i: int| 0 <= i < k ==> regex_spans(#[trigger] pats[i], text@).len() == 0,
        decreases ms@.len() - k,
    {
        if has_match(&ms[k], text) {
            assert(regex_spans(pats[k as int], text@).len() > 0);
            return String::from_str(REPLACEMENT_NOTICE);
        }
        k = k + 1;
    }
    String::from_str(text)
}

/// A pattern of the catalog that the regex engine refused.
#[derive(Debug, Clone, Copy, PartialEq, Eq, Structural)]
pub enum CatalogError {
    /// The position of the refused pattern in the list being compiled.
    InvalidPattern(usize),
}

/// Compiles each pattern in order, stopping at the first one refused.
pub(crate) fn compile_all(patterns: &Vec<&'static str>) -> (r: Result<Vec<Matcher>, CatalogError>)
    ensures
        r is Ok <==> all_compile(str_views(patterns@)),
        r matches Ok(ms) ==> matcher_views(ms@) == str_views(patterns@),
        r matches Err(CatalogError::InvalidPattern(i)) ==> i < patterns@.len() && !regex_compiles(
            patterns@[i as int]@,
        ) && forall|j: int| 0 <= j < i ==> regex_compiles(#[trigger] patterns@[j]@),
{
    let ghost views = str_views(patterns@);
    let mut ms: Vec<Matcher> = Vec::new();
    let mut k: usize = 0;
    while k < patterns.len()
        invariant
            views == str_views(patterns@),
            views.len() == patterns@.len(),
            0 <= k <= patterns@.len(),
            matcher_views(ms@) == views.subrange(0, k as int),
            forall|j: int| 0 <= j < k ==> regex_compiles(#[trigger] patterns@[j]@),
        decreases patterns@.len() - k,
    {
        let compiled = compile(patterns[k]);
        match compiled {
            Ok(m) => {
                assert(m@ == views[k as int]);
                let ghost before = ms@;
                ms.push(m);
                assert(ms@ == before.push(m));
                assert(matcher_views(ms@) =~= matcher_views(before).push(m@));
                assert(views.subrange(0, k + 1) =~= views.subrange(0, k as int).push(views[k as int]));
                assert(matcher_views(ms@) =~= views.subrange(0, k + 1));
            },
            Err(_) => {
                assert(!regex_compiles(views[k as int]));
                return Err(CatalogError::InvalidPattern(k));
            },
        }
        k = k + 1;
    }
    assert(views.subrange(0, k as int) =~= views);
    assert(all_compile(views)) by {
        assert forall|i: int| 0 <= i < views.len() implies regex_compiles(#[trigger] views[i]) by {
            assert(views[i] == patterns@[i]@);
        }
    }
    Ok(ms)
}

/// Compiles the whole catalog once, to learn whether the regex engine accepts it.
pub fn check_catalog() -> (r: Result<(), CatalogError>)
    ensures
        r is Ok <==> catalog_compiles(),
{
    let patterns = get_all_patterns();
    match compile_all(&patterns) {
        Ok(_) => Ok(()),
        Err(e) => Err(e),
    }
}

/// Any selection of categories holds catalog patterns only, so it compiles when the catalog does.
pub proof fn lemma_selection_compiles(names: Seq<Seq<char>>)
    requires
        catalog_compiles(),
    ensures
        all_compile(selected_patterns(names)),
{
    lemma_named_upto_compiles(names, 3);
}

proof fn lemma_named_upto_compiles(names: Seq<Seq<char>>, k: int)
    requires
        catalog_compiles(),
        k <= 3,
    ensures
        all_compile(patterns_named_upto(names, k)),
    decreases k,
{
    if k > 0 {
        lemma_named_upto_compiles(names, k - 1);
        let prev = patterns_named_upto(names, k - 1);
        assert(regex_compiles(category_patterns()[k - 1]));
        assert forall|i: int| 0 <= i < patterns_named_upto(names, k).len() implies regex_compiles(
            #[trigger] patterns_named_upto(names, k)[i],
        ) by {
            if i < prev.len() {
                assert(regex_compiles(prev[i]));
            }
        }
    }
}

/// The two redaction policies.
#[derive(Debug, Clone, Copy, PartialEq, Eq, Structural)]
pub enum Cleaning {
    /// Any match replaces the whole text with the notice.
    Replace,
    /// Each match is overwritten in place.
    Redact,
}

impl Cleaning {
    /// `"replace"` names the replace policy; every other name, `"redact"` included, the redact one.
    pub open spec fn named(name: Seq<char>) -> Cleaning {
        if name == "replace"@ {
            Cleaning::Replace
        } else {
            Cleaning::Redact
        }
    }

    pub fn from_name(name: &str) -> (r: Cleaning)
        ensures
            r == Cleaning::named(name@),
    {
        if crate::patterns::str_equal(name, "replace") {
            Cleaning::Replace
        } else {
            Cleaning::Redact
        }
    }
}

/// What cleaning `t` under `policy` with the patterns `pats` gives.
pub open spec fn cleaned(t: Seq<char>, policy: Cleaning, pats: Seq<Seq<char>>) -> Seq<char> {
    match policy {
        Cleaning::Replace => replaced(t, pats),
        Cleaning::Redact => redacted(t, pats),
    }
}

/// `text` cleaned under the policy named by `cleaning`, with the given pattern list in
/// place of the catalog; an error names the first pattern the regex engine refuses.
pub fn clean_with_patterns(text: &str, cleaning: &str, patterns: &Vec<&'static str>) -> (r: Result<
    String,
    CatalogError,
>)
    ensures
        r is Ok <==> all_compile(str_views(patterns@)),
        r matches Ok(s) ==> s@ == cleaned(text@, Cleaning::named(cleaning@), str_views(patterns@)),
        r matches Err(CatalogError::InvalidPattern(i)) ==> i < patterns@.len() && !regex_compiles(
            patterns@[i as int]@,
        ),
{
    let policy = Cleaning::from_name(cleaning);
    match compile_all(patterns) {
        Ok(ms) => match policy {
            Cleaning::Replace => Ok(replace_with(text, &ms)),
            Cleaning::Redact => Ok(redact_with(text, &ms)),
        },
        Err(e) => Err(e),
    }
}

/// Every match of the given patterns in `text`, stably sorted by start, with the pattern
/// list in place of the catalog; an error names the first pattern the regex engine refuses.
pub fn detect_with_patterns(text: &str, patterns: &Vec<&'static str>) -> (r: Result<
    Vec<(usize, usize, String)>,
    CatalogError,
>)
    ensures
        r is Ok <==> all_compile(str_views(patterns@)),
        r matches Ok(v) ==> matches_view(v@) == detected(text@, str_views(patterns@)) && all_placed(
            text@,
            matches_view(v@),
        ),
        r matches Err(CatalogError::InvalidPattern(i)) ==> i < patterns@.len() && !regex_compiles(
            patterns@[i as int]@,
        ),
{
    match compile_all(patterns) {
        Ok(ms) => Ok(detect_with(text, &ms)),
        Err(e) => Err(e),
    }
}

/// Every match of every catalog pattern in `text`, stably sorted by start.
pub fn detect_pii_core(text: &str) -> (r: Vec<(usize, usize, String)>)
    requires
        catalog_compiles(),
    ensures
        matches_view(r@) == detected(text@, category_patterns()),
        all_placed(text@, matches_view(r@)),
{
    let patterns = get_all_patterns();
    match detect_with_patterns(text, &patterns) {
        Ok(v) => v,
        Err(_) => Vec::new(),
    }
}

/// Every match of the patterns of the named categories in `text`, stably sorted by start.
pub fn detect_pii_with_cleaners_core(text: &str, cleaners: &[&str]) -> (r: Vec<(usize, usize, String)>)
    requires
        catalog_compiles(),
    ensures
        matches_view(r@) == detected(text@, selected_patterns(str_views(cleaners@))),
        all_placed(text@, matches_view(r@)),
{
    let patterns = get_patterns_by_name(cleaners);
    proof {
        lemma_selection_compiles(str_views(cleaners@));
    }
    match detect_with_patterns(text, &patterns) {
        Ok(v) => v,
        Err(_) => Vec::new(),
    }
}

/// `text` cleaned with every catalog pattern under the policy named by `cleaning`.
pub fn clean_pii_core(text: &str, cleaning: &str) -> (r: String)
    requires
        catalog_compiles(),
    ensures
        r@ == cleaned(text@, Cleaning::named(cleaning@), category_patterns()),
        Cleaning::named(cleaning@) == Cleaning::Replace ==> r@ == text@ || r@ == REPLACEMENT_NOTICE@,
        Cleaning::named(cleaning@) == Cleaning::Redact ==> r@.len() == text@.len() && forall|i: int|
            0 <= i < text@.len() ==> #[trigger] r@[i] == text@[i] || r@[i] == REDACTION_CHAR,
{
    let patterns = get_all_patterns();
    let r = match clean_with_patterns(text, cleaning, &patterns) {
        Ok(s) => s,
        Err(_) => String::new(),
    };
    proof {
        lemma_redacted_kept_or_dashed(text@, category_patterns());
    }
    r
}

/// `text` cleaned with the patterns of the named categories under the policy named by `cleaning`.
pub fn clean_pii_with_cleaners_core(text: &str, cleaning: &str, cleaners: &[&str]) -> (r: String)
    requires
        catalog_compiles(),
    ensures
        r@ == cleaned(text@, Cleaning::named(cleaning@), selected_patterns(str_views(cleaners@))),
{
    let patterns = get_patterns_by_name(cleaners);
    proof {
        lemma_selection_compiles(str_views(cleaners@));
    }
    match clean_with_patterns(text, cleaning, &patterns) {
        Ok(s) => s,
        Err(_) => String::new(),
    }
}

/// Redaction keeps the number of characters.
pub proof fn lemma_redacted_len(t: Seq<char>, pats: Seq<Seq<char>>)
    ensures
        redacted(t, pats).len() == t.len(),
    decreases pats.len(),
{
    if pats.len() > 0 {
        let u = redacted(t, pats.drop_last());
        lemma_redacted_len(t, pats.drop_last());
        lemma_dash_spans_len(u, char_spans(u, regex_spans(pats.last(), u)));
    }
}

proof fn lemma_dash_spans_len(t: Seq<char>, cs: Seq<(int, int)>)
    ensures
        dash_spans(t, cs).len() == t.len(),
    decreases cs.len(),
{
    if cs.len() > 0 {
        lemma_dash_spans_len(t, cs.drop_last());
    }
}

proof fn lemma_dash_spans_kept_or_dashed(t: Seq<char>, cs: Seq<(int, int)>)
    ensures
        dash_spans(t, cs).len() == t.len(),
        forall|i: int|
            0 <= i < t.len() ==> #[trigger] dash_spans(t, cs)[i] == t[i] || dash_spans(t, cs)[i]
                == REDACTION_CHAR,
    decreases cs.len(),
{
    if cs.len() > 0 {
        lemma_dash_spans_kept_or_dashed(t, cs.drop_last());
        let u = dash_spans(t, cs.drop_last());
        assert forall|i: int| 0 <= i < t.len() implies #[trigger] dash_spans(t, cs)[i] == t[i]
            || dash_spans(t, cs)[i] == REDACTION_CHAR by {
            assert(u[i] == t[i] || u[i] == REDACTION_CHAR);
        }
    }
}

/// Redaction keeps the number of characters, and each character is either kept or
/// overwritten by the redaction character.
pub proof fn lemma_redacted_kept_or_dashed(t: Seq<char>, pats: Seq<Seq<char>>)
    ensures
        redacted(t, pats).len() == t.len(),
        forall|i: int|
            0 <= i < t.len() ==> #[trigger] redacted(t, pats)[i] == t[i] || redacted(t, pats)[i]
                == REDACTION_CHAR,
    decreases pats.len(),
{
    if pats.len() > 0 {
        let u = redacted(t, pats.drop_last());
        lemma_redacted_kept_or_dashed(t, pats.drop_last());
        lemma_dash_spans_kept_or_dashed(u, char_spans(u, regex_spans(pats.last(), u)));
        assert forall|i: int| 0 <= i < t.len() implies #[trigger] redacted(t, pats)[i] == t[i]
            || redacted(t, pats)[i] == REDACTION_CHAR by {
            assert(u[i] == t[i] || u[i] == REDACTION_CHAR);
        }
    }
}

} // verus!
