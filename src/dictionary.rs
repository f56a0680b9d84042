//! Dictionary entries, and their assembly from the lines that a reader produced.
use vstd::prelude::*;

use crate::formatter::{build, format_entries};
use crate::settings::HarlawSettings;
use crate::writer::{entries_json, json_stringify};

verus! {

/// One headword with its definitions, in source order.
pub struct DictionaryEntry {
    pub word: String,
    pub definitions: Vec<String>,
}

/// An entry as plain character sequences.
pub struct EntryModel {
    pub word: Seq<char>,
    pub definitions: Seq<Seq<char>>,
}

impl View for DictionaryEntry {
    type V = EntryModel;

    open spec fn view(&self) -> EntryModel {
        EntryModel { word: self.word@, definitions: self.definitions@.map_values(|d: String| d@) }
    }
}

/// The entries of `es` as plain character sequences.
pub open spec fn entries_view(es: Seq<DictionaryEntry>) -> Seq<EntryModel> {
    es.map_values(|e: DictionaryEntry| e@)
}

/// The lines of `ls` as plain character sequences.
pub open spec fn lines_view(ls: Seq<String>) -> Seq<Seq<char>> {
    ls.map_values(|l: String| l@)
}

/// The entries of the lines that a reader gave, or the reader's error
/// unchanged.
pub fn to_dictionary(lines: Result<Vec<String>, &'static str>, settings: HarlawSettings) -> (r:
    Result<Vec<DictionaryEntry>, &'static str>)
    ensures
        match lines {
            Ok(ls) => r matches Ok(es) && entries_view(es@) == build(lines_view(ls@), settings@),
            Err(e) => r == Err::<Vec<DictionaryEntry>, &'static str>(e),
        },
{
    match lines {
        Ok(ls) => Ok(format_entries(ls, settings)),
        Err(e) => Err(e),
    }
}

/// The JSON text of the entries of the lines that a reader gave, or the
/// reader's error unchanged.
pub fn to_json(lines: Result<Vec<String>, &'static str>, settings: HarlawSettings) -> (r: Result<
    String,
    &'static str,
>)
    ensures
        match lines {
            Ok(ls) => r matches Ok(text) && text@ == entries_json(
                build(lines_view(ls@), settings@),
            ),
            Err(e) => r == Err::<String, &'static str>(e),
        },
{
    let dictionary = match to_dictionary(lines, settings) {
        Ok(es) => es,
        Err(e) => return Err(e),
    };
    Ok(json_stringify(dictionary.as_slice()))
}

} // verus!
