//! Properties that relate the library's operations to one another.

use crate::engine::{
    all_matches, cleaned, dash_span, dash_spans, detected, insert_by_start, lemma_redacted_len,
    pattern_matches, redact_once, redacted, replaced, sort_by_start, Cleaning, MatchView,
    REDACTION_CHAR,
};
use crate::matcher::{char_index, regex_spans};
use crate::patterns::{
    category_names, category_patterns, patterns_named_upto, selected_patterns, ALL_CATEGORIES,
};
use vstd::prelude::*;
use vstd::seq_lib::{lemma_multiset_commutative, to_multiset_build};

verus! {

broadcast use vstd::multiset::group_multiset_axioms;

/// No pattern of `pats` has a match in `t`.
pub open spec fn no_match(t: Seq<char>, pats: Seq<Seq<char>>) -> bool {
    forall|i: int| 0 <= i < pats.len() ==> (#[trigger] regex_spans(pats[i], t)).len() == 0
}

proof fn lemma_redacted_no_match(t: Seq<char>, pats: Seq<Seq<char>>)
    requires
        no_match(t, pats),
    ensures
        redacted(t, pats) == t,
    decreases pats.len(),
{
    if pats.len() > 0 {
        let rest = pats.drop_last();
        assert forall|i: int| 0 <= i < rest.len() implies (#[trigger] regex_spans(rest[i], t)).len()
            == 0 by {
            assert(rest[i] == pats[i]);
        }
        lemma_redacted_no_match(t, rest);
        assert(regex_spans(pats[pats.len() - 1], t).len() == 0);
        assert(dash_spans(t, Seq::empty()) == t);
        assert(crate::engine::char_spans(t, regex_spans(pats.last(), t)) =~= Seq::empty());
    }
}

proof fn lemma_all_matches_no_match(t: Seq<char>, pats: Seq<Seq<char>>)
    requires
        no_match(t, pats),
    ensures
        all_matches(t, pats) == Seq::<MatchView>::empty(),
    decreases pats.len(),
{
    if pats.len() > 0 {
        let rest = pats.drop_last();
        assert forall|i: int| 0 <= i < rest.len() implies (#[trigger] regex_spans(rest[i], t)).len()
            == 0 by {
            assert(rest[i] == pats[i]);
        }
        lemma_all_matches_no_match(t, rest);
        assert(regex_spans(pats[pats.len() - 1], t).len() == 0);
        assert(pattern_matches(t, pats.last()) =~= Seq::empty());
        assert(all_matches(t, pats) =~= Seq::empty());
    }
}

/// A text in which no catalog pattern matches comes out of both policies unchanged,
/// and detection reports nothing in it.
pub proof fn lemma_clean_text_unchanged(t: Seq<char>)
    requires
        no_match(t, category_patterns()),
    ensures
        cleaned(t, Cleaning::Replace, category_patterns()) == t,
        cleaned(t, Cleaning::Redact, category_patterns()) == t,
        detected(t, category_patterns()) == Seq::<MatchView>::empty(),
{
    let pats = category_patterns();
    lemma_redacted_no_match(t, pats);
    lemma_all_matches_no_match(t, pats);
    assert(!crate::engine::any_match(t, pats));
    assert(replaced(t, pats) == t);
}

/// The replace policy gives back the text unchanged or the notice, nothing in between.
pub proof fn lemma_replace_all_or_nothing(t: Seq<char>, pats: Seq<Seq<char>>)
    ensures
        cleaned(t, Cleaning::Replace, pats) == t || cleaned(t, Cleaning::Replace, pats)
            == crate::engine::REPLACEMENT_NOTICE@,
{
}

proof fn lemma_dash_spans_cover(t: Seq<char>, cs: Seq<(int, int)>)
    ensures
        dash_spans(t, cs).len() == t.len(),
        forall|k: int, x: int|
            #![trigger dash_spans(t, cs)[x], cs[k]]
            0 <= k < cs.len() && cs[k].0 <= x < cs[k].1 && 0 <= x < t.len() ==> dash_spans(t, cs)[x]
                == REDACTION_CHAR,
    decreases cs.len(),
{
    if cs.len() > 0 {
        lemma_dash_spans_cover(t, cs.drop_last());
        let u = dash_spans(t, cs.drop_last());
        assert forall|k: int, x: int|
            #![trigger dash_spans(t, cs)[x], cs[k]]
            0 <= k < cs.len() && cs[k].0 <= x < cs[k].1 && 0 <= x < t.len() implies dash_spans(t, cs)[x]
                == REDACTION_CHAR by {
            if k < cs.len() - 1 {
                assert(cs.drop_last()[k] == cs[k]);
                assert(u[x] == REDACTION_CHAR);
            }
        }
    }
}

/// One redaction stage keeps the text's length and overwrites each match of the
/// pattern with exactly as many redaction characters as the match has characters.
pub proof fn lemma_redaction_keeps_lengths(t: Seq<char>, p: Seq<char>)
    ensures
        redact_once(t, p).len() == t.len(),
        forall|k: int|
            0 <= k < regex_spans(p, t).len() ==> {
                let s = char_index(t, #[trigger] regex_spans(p, t)[k].0 as int);
                let e = char_index(t, regex_spans(p, t)[k].1 as int);
                0 <= s <= e <= t.len() ==> redact_once(t, p).subrange(s, e) == Seq::new(
                    (e - s) as nat,
                    |_i: int| REDACTION_CHAR,
                )
            },
{
    let cs = crate::engine::char_spans(t, regex_spans(p, t));
    lemma_dash_spans_cover(t, cs);
    assert forall|k: int| 0 <= k < regex_spans(p, t).len() implies {
        let s = char_index(t, #[trigger] regex_spans(p, t)[k].0 as int);
        let e = char_index(t, regex_spans(p, t)[k].1 as int);
        0 <= s <= e <= t.len() ==> redact_once(t, p).subrange(s, e) == Seq::new(
            (e - s) as nat,
            |_i: int| REDACTION_CHAR,
        )
    } by {
        let s = char_index(t, regex_spans(p, t)[k].0 as int);
        let e = char_index(t, regex_spans(p, t)[k].1 as int);
        if 0 <= s <= e <= t.len() {
            assert(cs[k] == (s, e));
            assert forall|x: int| s <= x < e implies dash_spans(t, cs)[x] == REDACTION_CHAR by {
                assert(cs[k] == cs[k]);
            }
            assert(redact_once(t, p).subrange(s, e) =~= Seq::new(
                (e - s) as nat,
                |_i: int| REDACTION_CHAR,
            ));
        }
    }
}

/// Redacting twice changes nothing more, provided no catalog pattern matches in the
/// redacted text (true when the redaction character cannot be matched).
pub proof fn lemma_redact_idempotent(t: Seq<char>)
    requires
        no_match(redacted(t, category_patterns()), category_patterns()),
    ensures
        cleaned(cleaned(t, Cleaning::Redact, category_patterns()), Cleaning::Redact, category_patterns())
            == cleaned(t, Cleaning::Redact, category_patterns()),
        cleaned(t, Cleaning::Redact, category_patterns()).len() == t.len(),
{
    lemma_redacted_no_match(redacted(t, category_patterns()), category_patterns());
    lemma_redacted_len(t, category_patterns());
}

proof fn lemma_insert_multiset(s: Seq<MatchView>, m: MatchView)
    ensures
        insert_by_start(s, m).to_multiset() == s.to_multiset().insert(m),
    decreases s.len(),
{
    if s.len() == 0 {
        to_multiset_build(s, m);
        assert(seq![m] =~= s.push(m));
    } else if s.last().0 <= m.0 {
        to_multiset_build(s, m);
    } else {
        let rest = s.drop_last();
        lemma_insert_multiset(rest, m);
        to_multiset_build(insert_by_start(rest, m), s.last());
        to_multiset_build(rest, s.last());
        assert(rest.push(s.last()) =~= s);
        assert(rest.to_multiset().insert(m).insert(s.last()) =~= rest.to_multiset().insert(
            s.last(),
        ).insert(m));
    }
}

/// Sorting keeps every match, as often as it occurs.
pub proof fn lemma_sort_multiset(s: Seq<MatchView>)
    ensures
        sort_by_start(s).to_multiset() == s.to_multiset(),
    decreases s.len(),
{
    if s.len() > 0 {
        let rest = s.drop_last();
        lemma_sort_multiset(rest);
        lemma_insert_multiset(sort_by_start(rest), s.last());
        to_multiset_build(rest, s.last());
        assert(rest.push(s.last()) =~= s);
    }
}

proof fn lemma_pattern_in_all(t: Seq<char>, pats: Seq<Seq<char>>, k: int)
    requires
        0 <= k < pats.len(),
    ensures
        pattern_matches(t, pats[k]).to_multiset().subset_of(all_matches(t, pats).to_multiset()),
    decreases pats.len(),
{
    let rest = pats.drop_last();
    lemma_multiset_commutative(all_matches(t, rest), pattern_matches(t, pats.last()));
    if k < pats.len() - 1 {
        assert(rest[k] == pats[k]);
        lemma_pattern_in_all(t, rest, k);
    }
}

proof fn lemma_named_single(k: int, j: int)
    requires
        0 <= k < 3,
        0 <= j <= 3,
    ensures
        patterns_named_upto(seq![category_names()[k]], j) == (if j > k {
            seq![category_patterns()[k]]
        } else {
            Seq::<Seq<char>>::empty()
        }),
    decreases j,
{
    reveal_strlit("email");
    reveal_strlit("postcode");
    reveal_strlit("telephone");
    let names = seq![category_names()[k]];
    if j > 0 {
        lemma_named_single(k, j - 1);
        if j - 1 == k {
            assert(names.contains(category_names()[j - 1])) by {
                assert(names[0] == category_names()[j - 1]);
            }
            assert(Seq::<Seq<char>>::empty().push(category_patterns()[k]) =~= seq![
                category_patterns()[k],
            ]);
        } else {
            assert(category_names()[j - 1].len() != category_names()[k].len());
            assert(!names.contains(category_names()[j - 1]));
        }
    }
}

/// Detecting with one category reports exactly the matches of that category's
/// pattern, and detecting with all categories reports every one of them too.
pub proof fn lemma_category_filter(t: Seq<char>, k: int)
    requires
        0 <= k < category_names().len(),
    ensures
        selected_patterns(seq![category_names()[k]]) == seq![category_patterns()[k]],
        detected(t, selected_patterns(seq![category_names()[k]])).to_multiset()
            == pattern_matches(t, category_patterns()[k]).to_multiset(),
        detected(t, selected_patterns(seq![category_names()[k]])).to_multiset().subset_of(
            detected(t, selected_patterns(seq![ALL_CATEGORIES@])).to_multiset(),
        ),
{
    reveal_strlit("email");
    reveal_strlit("postcode");
    reveal_strlit("telephone");
    reveal_strlit("all");
    let names = seq![category_names()[k]];
    let p = category_patterns()[k];
    assert(names != seq![ALL_CATEGORIES@]) by {
        assert(names[0].len() != seq![ALL_CATEGORIES@][0].len());
    }
    lemma_named_single(k, 3);
    let one = seq![p];
    assert(one.drop_last() =~= Seq::<Seq<char>>::empty());
    assert(all_matches(t, one.drop_last()) == Seq::<MatchView>::empty());
    assert(one.last() == p);
    assert(all_matches(t, one) =~= pattern_matches(t, p));
    lemma_sort_multiset(all_matches(t, one));
    lemma_sort_multiset(all_matches(t, category_patterns()));
    lemma_pattern_in_all(t, category_patterns(), k);
}

proof fn lemma_named_all_upto(j: int)
    requires
        0 <= j <= 3,
    ensures
        patterns_named_upto(category_names(), j) == category_patterns().subrange(0, j),
    decreases j,
{
    if j > 0 {
        lemma_named_all_upto(j - 1);
        assert(category_names().contains(category_names()[j - 1]));
        assert(category_patterns().subrange(0, j - 1).push(category_patterns()[j - 1])
            =~= category_patterns().subrange(0, j));
    }
}

/// Naming every registered category selects the same patterns, in the same order, as
/// `"all"`, so detection and cleaning give the same results either way.
pub proof fn lemma_every_name_selects_all(t: Seq<char>, policy: Cleaning)
    ensures
        selected_patterns(category_names()) == selected_patterns(seq![ALL_CATEGORIES@]),
        detected(t, selected_patterns(category_names())) == detected(t, category_patterns()),
        cleaned(t, policy, selected_patterns(category_names())) == cleaned(
            t,
            policy,
            category_patterns(),
        ),
{
    reveal_strlit("email");
    reveal_strlit("all");
    assert(category_names() != seq![ALL_CATEGORIES@]) by {
        assert(category_names().len() != seq![ALL_CATEGORIES@].len());
    }
    lemma_named_all_upto(3);
    assert(category_patterns().subrange(0, 3) =~= category_patterns());
}

} // verus!
