//! Detection and redaction of personally identifiable information in free text.
//!
//! A fixed catalog names categories of PII (email addresses, postcodes, ...) and
//! gives each a regular expression. Detection reports every match of the chosen
//! patterns; cleaning either replaces a text that holds any match with a notice,
//! or overwrites each match with dashes, pattern after pattern.

pub mod engine;
pub mod laws;
pub mod matcher;
pub mod patterns;

pub use engine::{
    check_catalog, clean_pii_core, clean_pii_with_cleaners_core, clean_with_patterns,
    detect_pii_core, detect_pii_with_cleaners_core, detect_with_patterns, matches_of_spans,
    redact_spans, CatalogError, Cleaning, REPLACEMENT_NOTICE,
};
pub use patterns::{get_all_patterns, get_patterns_by_name, get_registry, PatternRegistry};

use engine::{all_placed, catalog_compiles, cleaned, detected, matches_view};
use patterns::{category_names, category_patterns, selected_patterns, str_views};
use vstd::prelude::*;

verus! {

/// Every match of every catalog pattern in `text`, stably sorted by start; an
/// error when the regex engine refuses the catalog.
pub fn detect_pii(text: &str) -> (r: Result<Vec<(usize, usize, String)>, CatalogError>)
    ensures
        r is Ok <==> catalog_compiles(),
        r matches Ok(v) ==> matches_view(v@) == detected(text@, category_patterns()) && all_placed(
            text@,
            matches_view(v@),
        ),
{
    match check_catalog() {
        Ok(()) => Ok(detect_pii_core(text)),
        Err(e) => Err(e),
    }
}

/// `text` cleaned under the policy named by `cleaning`; an error when the regex
/// engine refuses the catalog.
pub fn clean_pii(text: &str, cleaning: &str) -> (r: Result<String, CatalogError>)
    ensures
        r is Ok <==> catalog_compiles(),
        r matches Ok(s) ==> s@ == cleaned(text@, Cleaning::named(cleaning@), category_patterns()),
{
    match check_catalog() {
        Ok(()) => Ok(clean_pii_core(text, cleaning)),
        Err(e) => Err(e),
    }
}

/// `text` cleaned with the patterns of the named categories; an error when the
/// regex engine refuses the catalog.
pub fn clean_pii_with_cleaners(text: &str, cleaning: &str, cleaners: &[&str]) -> (r: Result<
    String,
    CatalogError,
>)
    ensures
        r is Ok <==> catalog_compiles(),
        r matches Ok(s) ==> s@ == cleaned(
            text@,
            Cleaning::named(cleaning@),
            selected_patterns(str_views(cleaners@)),
        ),
{
    match check_catalog() {
        Ok(()) => Ok(clean_pii_with_cleaners_core(text, cleaning, cleaners)),
        Err(e) => Err(e),
    }
}

/// Every match of the patterns of the named categories in `text`; an error when
/// the regex engine refuses the catalog.
pub fn detect_pii_with_cleaners(text: &str, cleaners: &[&str]) -> (r: Result<
    Vec<(usize, usize, String)>,
    CatalogError,
>)
    ensures
        r is Ok <==> catalog_compiles(),
        r matches Ok(v) ==> matches_view(v@) == detected(
            text@,
            selected_patterns(str_views(cleaners@)),
        ) && all_placed(text@, matches_view(v@)),
{
    match check_catalog() {
        Ok(()) => Ok(detect_pii_with_cleaners_core(text, cleaners)),
        Err(e) => Err(e),
    }
}

/// The registered category names, in catalog order.
pub fn get_available_cleaners() -> (r: Vec<&'static str>)
    ensures
        str_views(r@) == category_names(),
{
    get_registry().get_available_cleaners()
}

} // verus!
