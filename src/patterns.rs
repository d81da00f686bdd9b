//! The catalog of PII categories and the pattern that belongs to each.

use vstd::prelude::*;

verus! {

/// Email addresses.
pub const EMAIL_PATTERN: &'static str = r"\b[A-Za-z0-9._%+-]+@[A-Za-z0-9.-]+\.[A-Z|a-z]{2,}\b";

/// UK postcodes.
pub const POSTCODE_PATTERN: &'static str = r"\b[A-Z]{1,2}\d[A-Z\d]? ?\d[A-Z]{2}\b";

/// Telephone numbers (simplified).
pub const TELEPHONE_PATTERN: &'static str = r"\b\d{3}[-.]?\d{3}[-.]?\d{4}\b";

/// The name that selects every category at once.
pub const ALL_CATEGORIES: &'static str = "all";

/// Category names, in catalog order.
pub open spec fn category_names() -> Seq<Seq<char>> {
    seq!["email"@, "postcode"@, "telephone"@]
}

/// Patterns, in catalog order: the pattern at index `i` belongs to `category_names()[i]`.
pub open spec fn category_patterns() -> Seq<Seq<char>> {
    seq![EMAIL_PATTERN@, POSTCODE_PATTERN@, TELEPHONE_PATTERN@]
}

/// The view of a list of string slices.
pub open spec fn str_views(v: Seq<&str>) -> Seq<Seq<char>> {
    v.map_values(|s: &str| s@)
}

/// The patterns of the categories among `names`, in catalog order, looking at
/// the first `k` categories only.
pub open spec fn patterns_named_upto(names: Seq<Seq<char>>, k: int) -> Seq<Seq<char>>
    decreases k,
{
    if k <= 0 {
        Seq::empty()
    } else {
        let prev = patterns_named_upto(names, k - 1);
        if names.contains(category_names()[k - 1]) {
            prev.push(category_patterns()[k - 1])
        } else {
            prev
        }
    }
}

/// The patterns that a list of category names selects: every pattern when the list is
/// exactly `["all"]`, else those of the listed categories in catalog order, with unknown
/// names ignored.
pub open spec fn selected_patterns(names: Seq<Seq<char>>) -> Seq<Seq<char>> {
    if names == seq![ALL_CATEGORIES@] {
        category_patterns()
    } else {
        patterns_named_upto(names, category_names().len() as int)
    }
}

/// Whether two strings hold the same characters.
pub fn str_equal(a: &str, b: &str) -> (r: bool)
    ensures
        r == (a@ == b@),
{
    let x = a.as_bytes();
    let y = b.as_bytes();
    proof {
        vstd::utf8::encode_utf8_decode_utf8(a@);
        vstd::utf8::encode_utf8_decode_utf8(b@);
        assert(x@ == vstd::utf8::encode_utf8(a@));
        assert(y@ == vstd::utf8::encode_utf8(b@));
    }
    if x.len() != y.len() {
        assert(x@.len() != y@.len());
        return false;
    }
    let mut i: usize = 0;
    while i < x.len()
        invariant
            x@ == vstd::utf8::encode_utf8(a@),
            y@ == vstd::utf8::encode_utf8(b@),
            x@.len() == y@.len(),
            0 <= i <= x@.len(),
            forall|j: int| 0 <= j < i ==> x@[j] == y@[j],
        decreases x@.len() - i,
    {
        if x[i] != y[i] {
            assert(x@[i as int] != y@[i as int]);
            assert(x@ != y@);
            return false;
        }
        i = i + 1;
    }
    assert(x@ =~= y@);
    true
}

/// Every registered pattern, in catalog order.
pub fn get_all_patterns() -> (r: Vec<&'static str>)
    ensures
        str_views(r@) == category_patterns(),
{
    let r = vec![EMAIL_PATTERN, POSTCODE_PATTERN, TELEPHONE_PATTERN];
    assert(str_views(r@) =~= category_patterns());
    r
}

/// Every category name, in catalog order.
pub fn category_list() -> (r: Vec<&'static str>)
    ensures
        str_views(r@) == category_names(),
{
    let r = vec!["email", "postcode", "telephone"];
    assert(str_views(r@) =~= category_names());
    r
}

/// Whether `name` occurs in `list`.
fn contains_name(list: &[&str], name: &str) -> (r: bool)
    ensures
        r == str_views(list@).contains(name@),
{
    let mut i: usize = 0;
    while i < list.len()
        invariant
            0 <= i <= list@.len(),
            forall|j: int| 0 <= j < i ==> list@[j]@ != name@,
        decreases list@.len() - i,
    {
        if str_equal(list[i], name) {
            assert(str_views(list@)[i as int] == name@);
            return true;
        }
        i = i + 1;
    }
    assert forall|j: int| 0 <= j < str_views(list@).len() implies str_views(list@)[j] != name@ by {}
    false
}

/// The patterns of the named categories, in catalog order (not in the order of
/// `cleaners`); unknown names are ignored, and exactly `["all"]` selects every pattern.
pub fn get_patterns_by_name(cleaners: &[&str]) -> (r: Vec<&'static str>)
    ensures
        str_views(r@) == selected_patterns(str_views(cleaners@)),
{
    let ghost names = str_views(cleaners@);
    if cleaners.len() == 1 && str_equal(cleaners[0], ALL_CATEGORIES) {
        assert(names =~= seq![ALL_CATEGORIES@]);
        return get_all_patterns();
    }
    assert(names != seq![ALL_CATEGORIES@]) by {
        assert(names.len() == cleaners@.len());
        if cleaners.len() == 1 {
            assert(names[0] == cleaners@[0]@);
            assert(names[0] != seq![ALL_CATEGORIES@][0]);
        }
    }
    let categories = category_list();
    let patterns = get_all_patterns();
    let mut r: Vec<&'static str> = Vec::new();
    let mut k: usize = 0;
    assert(categories@.len() == str_views(categories@).len());
    assert(patterns@.len() == str_views(patterns@).len());
    while k < categories.len()
        invariant
            categories@.len() == 3,
            patterns@.len() == 3,
            str_views(categories@) == category_names(),
            str_views(patterns@) == category_patterns(),
            names == str_views(cleaners@),
            0 <= k <= categories@.len(),
            str_views(r@) == patterns_named_upto(names, k as int),
        decreases categories@.len() - k,
    {
        assert(categories@[k as int]@ == category_names()[k as int]);
        assert(patterns@[k as int]@ == category_patterns()[k as int]);
        if contains_name(cleaners, categories[k]) {
            r.push(patterns[k]);
            assert(str_views(r@) =~= patterns_named_upto(names, k + 1));
        }
        k = k + 1;
    }
    r
}

/// The catalog as a value: category names and their patterns, side by side.
pub struct PatternRegistry {
    names: Vec<&'static str>,
    patterns: Vec<&'static str>,
}

impl PatternRegistry {
    /// The names and patterns are those of the catalog, in its order.
    pub closed spec fn well_formed(&self) -> bool {
        &&& str_views(self.names@) == category_names()
        &&& str_views(self.patterns@) == category_patterns()
    }

    pub fn new() -> (r: Self)
        ensures
            r.well_formed(),
    {
        PatternRegistry { names: category_list(), patterns: get_all_patterns() }
    }

    /// The registered category names, in catalog order.
    pub fn get_available_cleaners(&self) -> (r: Vec<&'static str>)
        requires
            self.well_formed(),
        ensures
            str_views(r@) == category_names(),
    {
        copy_list(&self.names)
    }

    /// The registered patterns, in catalog order.
    pub fn get_all_patterns(&self) -> (r: Vec<&'static str>)
        requires
            self.well_formed(),
        ensures
            str_views(r@) == category_patterns(),
    {
        copy_list(&self.patterns)
    }
}

/// The catalog.
pub fn get_registry() -> (r: PatternRegistry)
    ensures
        r.well_formed(),
{
    PatternRegistry::new()
}

fn copy_list(v: &Vec<&'static str>) -> (r: Vec<&'static str>)
    ensures
        r@ == v@,
{
    let mut r: Vec<&'static str> = Vec::new();
    let mut i: usize = 0;
    while i < v.len()
        invariant
            0 <= i <= v@.len(),
            r@ == v@.subrange(0, i as int),
        decreases v@.len() - i,
    {
        r.push(v[i]);
        i = i + 1;
    }
    assert(r@ =~= v@);
    r
}

} // verus!
