//! Conversion of Lingvo DSL dictionary sources into word / definitions entries.
//!
//! Lines are read by the caller; the library classifies them, rewrites their
//! markup by a rule set, groups headwords with their definitions and writes the
//! entries as JSON text.
use vstd::prelude::*;

pub mod dictionary;
pub mod formatter;
pub mod lemmas;
pub mod reader;
pub mod settings;
pub mod text;
pub mod writer;

pub use dictionary::DictionaryEntry;
pub use settings::{get_default_settings, get_no_markup_settings, ContentReplace, HarlawSettings};

use dictionary::{entries_view, lines_view};
use formatter::build;
use settings::{default_rules, no_markup_rules};
use writer::entries_json;

verus! {

/// The entries of the lines that a reader gave, with the default rules: Lingvo
/// tags become their HTML equivalents. A reader's error is passed on.
pub fn get_dictionary(lines: Result<Vec<String>, &'static str>) -> (r: Result<
    Vec<DictionaryEntry>,
    &'static str,
>)
    ensures
        match lines {
            Ok(ls) => r matches Ok(es) && entries_view(es@) == build(lines_view(ls@), default_rules()),
            Err(e) => r == Err::<Vec<DictionaryEntry>, &'static str>(e),
        },
{
    let settings = get_default_settings();
    dictionary::to_dictionary(lines, settings)
}

/// The entries of the lines that a reader gave, with every formatting tag
/// removed. A reader's error is passed on.
pub fn get_dictionary_without_markup(lines: Result<Vec<String>, &'static str>) -> (r: Result<
    Vec<DictionaryEntry>,
    &'static str,
>)
    ensures
        match lines {
            Ok(ls) => r matches Ok(es) && entries_view(es@) == build(
                lines_view(ls@),
                no_markup_rules(),
            ),
            Err(e) => r == Err::<Vec<DictionaryEntry>, &'static str>(e),
        },
{
    let settings = get_no_markup_settings();
    dictionary::to_dictionary(lines, settings)
}

/// The entries of the lines that a reader gave, with the given rules. A
/// reader's error is passed on.
pub fn get_dictionary_with_custom_settings(
    lines: Result<Vec<String>, &'static str>,
    settings: HarlawSettings,
) -> (r: Result<Vec<DictionaryEntry>, &'static str>)
    ensures
        match lines {
            Ok(ls) => r matches Ok(es) && entries_view(es@) == build(lines_view(ls@), settings@),
            Err(e) => r == Err::<Vec<DictionaryEntry>, &'static str>(e),
        },
{
    dictionary::to_dictionary(lines, settings)
}

/// The JSON text of the entries, with the default rules. A reader's error is
/// passed on.
pub fn to_json(lines: Result<Vec<String>, &'static str>) -> (r: Result<String, &'static str>)
    ensures
        match lines {
            Ok(ls) => r matches Ok(text) && text@ == entries_json(
                build(lines_view(ls@), default_rules()),
            ),
            Err(e) => r == Err::<String, &'static str>(e),
        },
{
    let settings = get_default_settings();
    dictionary::to_json(lines, settings)
}

/// The JSON text of the entries, with every formatting tag removed. A reader's
/// error is passed on.
pub fn to_json_no_markup(lines: Result<Vec<String>, &'static str>) -> (r: Result<
    String,
    &'static str,
>)
    ensures
        match lines {
            Ok(ls) => r matches Ok(text) && text@ == entries_json(
                build(lines_view(ls@), no_markup_rules()),
            ),
            Err(e) => r == Err::<String, &'static str>(e),
        },
{
    let settings = get_no_markup_settings();
    dictionary::to_json(lines, settings)
}

/// The JSON text of the entries, with the given rules. A reader's error is
/// passed on.
pub fn to_json_with_custom_settings(
    lines: Result<Vec<String>, &'static str>,
    settings: HarlawSettings,
) -> (r: Result<String, &'static str>)
    ensures
        match lines {
            Ok(ls) => r matches Ok(text) && text@ == entries_json(
                build(lines_view(ls@), settings@),
            ),
            Err(e) => r == Err::<String, &'static str>(e),
        },
{
    dictionary::to_json(lines, settings)
}

} // verus!
