//! Compiled patterns, and the positions at which they match a text.
//!
//! Matching itself is done by the `regex` crate. Its results are named here
//! and carried into character positions, which the rest of the library uses.

use vstd::prelude::*;
use vstd::std_specs::iter::IteratorSpec;
use vstd::utf8::{
    decode_utf8, encode_utf8, encode_utf8_decode_utf8, encode_utf8_valid_utf8, is_char_boundary,
    is_char_boundary_iff_not_is_continuation_byte, is_char_boundary_start_end_of_seq,
    decode_utf8_split, valid_utf8_split,
};

verus! {

broadcast use vstd::string::group_string_axioms;

#[verifier::external_type_specification]
#[verifier::external_body]
pub struct ExRegex(regex::Regex);

#[verifier::external_type_specification]
#[verifier::external_body]
pub struct ExRegexError(regex::Error);

/// Whether the `regex` crate accepts a pattern (valid syntax, within its default size limit).
pub uninterp spec fn regex_compiles(pattern: Seq<char>) -> bool;

/// The successive non-overlapping leftmost matches of a pattern in a haystack, as
/// `(start, end)` byte offsets into the haystack's UTF-8 encoding.
pub uninterp spec fn regex_spans(pattern: Seq<char>, haystack: Seq<char>) -> Seq<(usize, usize)>;

/// A compiled pattern, together with the text it was compiled from. Only `compile`
/// builds one, so `regex` is always the compilation of `source`.
pub struct Matcher {
    source: String,
    regex: regex::Regex,
}

impl View for Matcher {
    type V = Seq<char>;

    /// The pattern text.
    closed spec fn view(&self) -> Seq<char> {
        self.source@
    }
}

/// Relies on `regex::Regex::new`: it succeeds exactly when the pattern is accepted,
/// which depends on the pattern alone.
#[verifier::external_body]
pub(crate) fn compile(pattern: &str) -> (r: Result<Matcher, regex::Error>)
    ensures
        r is Ok <==> regex_compiles(pattern@),
        r matches Ok(m) ==> m@ == pattern@,
{
    match regex::Regex::new(pattern) {
        Ok(regex) => Ok(Matcher { source: pattern.to_string(), regex }),
        Err(e) => Err(e),
    }
}

/// Each span has `start <= end`, and both offsets fall on character boundaries of
/// the UTF-8 encoding of `t`.
pub open spec fn spans_on_boundaries(t: Seq<char>, spans: Seq<(usize, usize)>) -> bool {
    forall|i: int|
        0 <= i < spans.len() ==> {
            let sp = #[trigger] spans[i];
            &&& sp.0 <= sp.1 <= encode_utf8(t).len()
            &&& is_char_boundary(encode_utf8(t), sp.0 as int)
            &&& is_char_boundary(encode_utf8(t), sp.1 as int)
        }
}

/// Relies on `regex::Regex::find_iter`, with `Match::start` and `Match::end`: the
/// successive non-overlapping matches, each with `start <= end`, both offsets on
/// character boundaries of the haystack.
#[verifier::external_body]
pub(crate) fn find_spans(m: &Matcher, haystack: &str) -> (r: Vec<(usize, usize)>)
    ensures
        r@ == regex_spans(m@, haystack@),
        spans_on_boundaries(haystack@, r@),
{
    m.regex.find_iter(haystack).map(|x| (x.start(), x.end())).collect()
}

/// Relies on `regex::Regex::is_match`: true exactly when the haystack holds a match.
#[verifier::external_body]
pub(crate) fn has_match(m: &Matcher, haystack: &str) -> (r: bool)
    ensures
        r == (regex_spans(m@, haystack@).len() > 0),
{
    m.regex.is_match(haystack)
}

/// The number of characters of `t` whose encoding lies before byte offset `b`.
pub open spec fn char_index(t: Seq<char>, b: int) -> int {
    decode_utf8(encode_utf8(t).subrange(0, b)).len() as int
}

/// Two character boundaries in order give character positions in order, within the text.
pub proof fn lemma_char_index_ordered(t: Seq<char>, a: int, b: int)
    requires
        0 <= a <= b <= encode_utf8(t).len(),
        is_char_boundary(encode_utf8(t), a),
        is_char_boundary(encode_utf8(t), b),
    ensures
        0 <= char_index(t, a) <= char_index(t, b) <= t.len(),
{
    let bytes = encode_utf8(t);
    encode_utf8_valid_utf8(t);
    encode_utf8_decode_utf8(t);
    decode_utf8_split(bytes, b);
    let head = bytes.subrange(0, b);
    valid_utf8_split(bytes, b);
    if a == b {
        is_char_boundary_start_end_of_seq(head);
    } else {
        is_char_boundary_iff_not_is_continuation_byte(bytes, a);
        assert(head[a] == bytes[a]);
        is_char_boundary_iff_not_is_continuation_byte(head, a);
    }
    decode_utf8_split(head, a);
    assert(head.subrange(0, a) =~= bytes.subrange(0, a));
}

/// The character position of byte offset `b` in `text`.
pub(crate) fn char_offset(text: &str, b: usize) -> (r: usize)
    requires
        is_char_boundary(encode_utf8(text@), b as int),
    ensures
        r == char_index(text@, b as int),
{
    let (head, _tail) = text.split_at(b);
    proof {
        encode_utf8_decode_utf8(head@);
    }
    head.unicode_len()
}

/// The characters of a string.
pub(crate) fn chars_of(s: &str) -> (r: Vec<char>)
    ensures
        r@ == s@,
{
    let mut it = s.chars();
    let mut r: Vec<char> = Vec::new();
    loop
        invariant
            r@ + it.remaining() == s@,
            it.decrease() is Some,
        decreases it.decrease()->0,
    {
        match it.next() {
            Some(c) => {
                r.push(c);
            },
            None => {
                assert(r@ =~= s@);
                return r;
            },
        }
    }
}

} // verus!
