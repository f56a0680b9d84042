//! Line classification, the markup rewrite of one line, and the single pass
//! that turns lines into dictionary entries.
use vstd::prelude::*;

use crate::dictionary::{entries_view, lines_view, DictionaryEntry, EntryModel};
use crate::settings::{HarlawSettings, MarkupRules};
use crate::text::{lemma_trim_nonempty, replace_all, replace_str, trim, trim_str};

verus! {

/// `s` after deleting each pattern of `removes`, in order.
pub open spec fn remove_each(s: Seq<char>, removes: Seq<Seq<char>>) -> Seq<char>
    decreases removes.len(),
{
    if removes.len() == 0 {
        s
    } else {
        replace_all(remove_each(s, removes.drop_last()), removes.last(), Seq::empty())
    }
}

/// `s` after applying each search / replace pair of `replaces`, in order.
pub open spec fn replace_each(s: Seq<char>, replaces: Seq<(Seq<char>, Seq<char>)>) -> Seq<char>
    decreases replaces.len(),
{
    if replaces.len() == 0 {
        s
    } else {
        replace_all(
            replace_each(s, replaces.drop_last()),
            replaces.last().0,
            replaces.last().1,
        )
    }
}

/// A line after the rules: removals, then replacements, then trimming.
pub open spec fn formatted(line: Seq<char>, rules: MarkupRules) -> Seq<char> {
    trim(replace_each(remove_each(line, rules.removes), rules.replaces))
}

/// A line with nothing but white space.
pub open spec fn is_blank(line: Seq<char>) -> bool {
    trim(line).len() == 0
}

/// A line that carries file metadata and is discarded.
pub open spec fn is_metadata(line: Seq<char>) -> bool {
    !is_blank(line) && line[0] == '#'
}

/// A line that continues the preceding headword with a definition.
pub open spec fn is_continuation(line: Seq<char>) -> bool {
    !is_blank(line) && (line[0] == '\t' || line[0] == ' ')
}

/// A line that starts a new entry.
pub open spec fn is_headword(line: Seq<char>) -> bool {
    !is_blank(line) && !is_metadata(line) && !is_continuation(line)
}

/// Rewrites one line by the rules: every pattern of `removes` is deleted, in
/// order, then every pair of `replaces` is applied, in order, and the result
/// is trimmed.
pub fn format_line(line: &str, settings: &HarlawSettings) -> (r: String)
    ensures
        r@ == formatted(line@, settings@),
{
    let ghost rules = settings@;
    let mut formatted_line = line.to_owned();
    let mut i: usize = 0;
    while i < settings.removes.len()
        invariant
            i <= settings.removes.len(),
            rules == settings@,
            formatted_line@ == remove_each(line@, rules.removes.subrange(0, i as int)),
        decreases settings.removes.len() - i,
    {
        formatted_line = replace_str(formatted_line.as_str(), settings.removes[i], "");
        proof {
            reveal_strlit("");
            assert(""@ =~= Seq::<char>::empty());
            assert(settings.removes[i as int]@ == rules.removes[i as int]);
            assert(rules.removes.subrange(0, i + 1).drop_last() =~= rules.removes.subrange(
                0,
                i as int,
            ));
        }
        i += 1;
    }
    assert(rules.removes.subrange(0, rules.removes.len() as int) =~= rules.removes);
    let removed = Ghost(formatted_line@);
    let mut j: usize = 0;
    while j < settings.replaces.len()
        invariant
            j <= settings.replaces.len(),
            rules == settings@,
            formatted_line@ == replace_each(removed@, rules.replaces.subrange(0, j as int)),
        decreases settings.replaces.len() - j,
    {
        let pattern = &settings.replaces[j];
        formatted_line = replace_str(formatted_line.as_str(), pattern.search, pattern.replace);
        proof {
            assert(settings.replaces[j as int]@ == rules.replaces[j as int]);
            assert(rules.replaces.subrange(0, j + 1).drop_last() =~= rules.replaces.subrange(
                0,
                j as int,
            ));
        }
        j += 1;
    }
    assert(rules.replaces.subrange(0, rules.replaces.len() as int) =~= rules.replaces);
    trim_str(formatted_line.as_str()).to_owned()
}

/// Position of the first definition line at or after `from`, if any.
pub open spec fn first_definition_from(lines: Seq<Seq<char>>, from: int) -> Option<int>
    decreases lines.len() - from,
{
    if from < 0 || from >= lines.len() {
        None
    } else if is_continuation(lines[from]) {
        Some(from)
    } else {
        first_definition_from(lines, from + 1)
    }
}

/// `es` with `d` appended to the definitions of its last entry.
pub open spec fn with_definition(es: Seq<EntryModel>, d: Seq<char>) -> Seq<EntryModel> {
    es.update(
        es.len() - 1,
        EntryModel { word: es.last().word, definitions: es.last().definitions.push(d) },
    )
}

/// The entries after line `i` is read, given the entries `es` built from the
/// lines before it.
pub open spec fn step(
    es: Seq<EntryModel>,
    lines: Seq<Seq<char>>,
    rules: MarkupRules,
    i: int,
) -> Seq<EntryModel> {
    let line = lines[i];
    if is_continuation(line) {
        if es.len() == 0 {
            es
        } else {
            with_definition(es, formatted(line, rules))
        }
    } else if is_headword(line) {
        let grouped = if es.len() > 0 && es.last().definitions.len() == 0 {
            match first_definition_from(lines, i + 1) {
                Some(j) => with_definition(es, formatted(lines[j], rules)),
                None => es,
            }
        } else {
            es
        };
        grouped.push(EntryModel { word: formatted(line, rules), definitions: Seq::empty() })
    } else {
        es
    }
}

/// The entries built from the first `n` lines.
pub open spec fn build_prefix(lines: Seq<Seq<char>>, rules: MarkupRules, n: nat) -> Seq<
    EntryModel,
>
    decreases n,
{
    if n == 0 {
        Seq::empty()
    } else {
        step(build_prefix(lines, rules, (n - 1) as nat), lines, rules, n - 1)
    }
}

/// The entries built from all the lines.
pub open spec fn build(lines: Seq<Seq<char>>, rules: MarkupRules) -> Seq<EntryModel> {
    build_prefix(lines, rules, lines.len())
}

/// Whether the line holds nothing but white space.
fn is_empty_line(line: &str) -> (r: bool)
    ensures
        r == is_blank(line@),
{
    trim_str(line).is_empty()
}

// Metadata lines are not transformed.
fn is_metadata_line(first_character: char) -> (r: bool)
    ensures
        r == (first_character == '#'),
{
    first_character == '#'
}

// A line is a definition line when it starts with a tab or a space.
fn is_definition_line(first_character: char) -> (r: bool)
    ensures
        r == (first_character == '\t' || first_character == ' '),
{
    first_character == '\t' || first_character == ' '
}

/// Whether the line is a definition line: not blank, and led by a tab or a space.
fn is_continuation_line(line: &str) -> (r: bool)
    ensures
        r == is_continuation(line@),
{
    if is_empty_line(line) {
        false
    } else {
        proof {
            lemma_trim_nonempty(line@);
        }
        is_definition_line(line.get_char(0))
    }
}

/// Position of the first definition line at or after `from`.
fn find_definition(lines: &Vec<String>, from: usize) -> (r: Option<usize>)
    ensures
        r matches Some(j) ==> from <= j < lines@.len(),
        r matches Some(j) ==> first_definition_from(lines_view(lines@), from as int) == Some(
            j as int,
        ),
        r is None ==> first_definition_from(lines_view(lines@), from as int) is None,
{
    let ghost lv = lines_view(lines@);
    let mut k: usize = from;
    while k < lines.len()
        invariant
            from <= k,
            lv == lines_view(lines@),
            first_definition_from(lv, from as int) == first_definition_from(lv, k as int),
        decreases lines.len() - k,
    {
        if is_continuation_line(lines[k].as_str()) {
            return Some(k);
        }
        k += 1;
    }
    None
}

/// Appends `d` to the definitions of the last entry.
fn push_definition(entries: &mut Vec<DictionaryEntry>, d: String)
    requires
        old(entries)@.len() > 0,
    ensures
        entries_view(final(entries)@) == with_definition(entries_view(old(entries)@), d@),
{
    let ghost before = entries_view(entries@);
    let mut last = entries.pop().unwrap();
    let ghost last_before = last@;
    last.definitions.push(d);
    assert(last@.definitions =~= last_before.definitions.push(d@));
    entries.push(last);
    assert(entries_view(entries@) =~= with_definition(before, d@));
}

/// Turns the lines of a DSL source into dictionary entries.
///
/// Blank and metadata lines are skipped. A headword line starts a new entry,
/// whose word is the formatted line. A definition line appends its formatted
/// text to the most recent entry; one that comes before any headword is
/// dropped. When a headword follows an entry that has no definition yet, that
/// entry receives the first definition line found after the headword, so that
/// a run of headwords shares the definition that follows the run.
pub fn format_entries(lines: Vec<String>, settings: HarlawSettings) -> (r: Vec<DictionaryEntry>)
    ensures
        entries_view(r@) == build(lines_view(lines@), settings@),
{
    let ghost lv = lines_view(lines@);
    let ghost rules = settings@;
    let mut dictionary_entries: Vec<DictionaryEntry> = Vec::new();
    let mut line_index: usize = 0;
    while line_index < lines.len()
        invariant
            line_index <= lines.len(),
            lv == lines_view(lines@),
            rules == settings@,
            entries_view(dictionary_entries@) == build_prefix(lv, rules, line_index as nat),
        decreases lines.len() - line_index,
    {
        let line = lines[line_index].as_str();
        let ghost before = entries_view(dictionary_entries@);
        assert(line@ == lv[line_index as int]);
        assert(build_prefix(lv, rules, (line_index + 1) as nat) == step(
            before,
            lv,
            rules,
            line_index as int,
        ));
        if !is_empty_line(line) {
            proof {
                lemma_trim_nonempty(line@);
            }
            let first_character = line.get_char(0);
            if is_metadata_line(first_character) {
                // Metadata lines are skipped.
            } else if is_definition_line(first_character) {
                // A definition line belongs to the most recent entry.
                if dictionary_entries.len() > 0 {
                    let formatted_line = format_line(line, &settings);
                    push_definition(&mut dictionary_entries, formatted_line);
                }
            } else {
                // Headwords in a row share the definition that follows them:
                // look ahead for it when the previous entry has none yet.
                let n = dictionary_entries.len();
                if n > 0 && dictionary_entries[n - 1].definitions.len() == 0 {
                    if let Some(j) = find_definition(&lines, line_index + 1) {
                        let shared = format_line(lines[j].as_str(), &settings);
                        push_definition(&mut dictionary_entries, shared);
                    }
                }
                let entry = DictionaryEntry {
                    word: format_line(line, &settings),
                    definitions: Vec::new(),
                };
                let ghost before = entries_view(dictionary_entries@);
                dictionary_entries.push(entry);
                assert(entry@.definitions =~= Seq::empty());
                assert(entries_view(dictionary_entries@) =~= before.push(entry@));
            }
        }
        line_index += 1;
    }
    dictionary_entries
}

} // verus!
