//! The JSON text of a list of entries:
//! `[{"word":...,"definitions":[...]},...]`, with no white space between tokens,
//! and how a JSON string literal reads back.
use vstd::prelude::*;

use crate::dictionary::{entries_view, DictionaryEntry, EntryModel};

verus! {

/// The lowercase hexadecimal digit of `n`, below 16.
pub open spec fn hex_digit(n: int) -> char {
    seq!['0', '1', '2', '3', '4', '5', '6', '7', '8', '9', 'a', 'b', 'c', 'd', 'e', 'f'][n]
}

/// How one character is written inside a JSON string: quote and backslash
/// are escaped, control characters below U+0020 use their short escape or
/// `\u00` and two hex digits, everything else stands as it is.
pub open spec fn escaped_char(c: char) -> Seq<char> {
    let u = c as u32;
    if c == '"' {
        seq!['\\', '"']
    } else if c == '\\' {
        seq!['\\', '\\']
    } else if u == 0x08 {
        seq!['\\', 'b']
    } else if u == 0x09 {
        seq!['\\', 't']
    } else if u == 0x0a {
        seq!['\\', 'n']
    } else if u == 0x0c {
        seq!['\\', 'f']
    } else if u == 0x0d {
        seq!['\\', 'r']
    } else if u < 0x20 {
        seq!['\\', 'u', '0', '0', hex_digit((u / 16) as int), hex_digit((u % 16) as int)]
    } else {
        seq![c]
    }
}

/// The characters of `s`, each written as inside a JSON string.
pub open spec fn escaped(s: Seq<char>) -> Seq<char>
    decreases s.len(),
{
    if s.len() == 0 {
        Seq::empty()
    } else {
        escaped_char(s[0]) + escaped(s.drop_first())
    }
}

/// The JSON string literal, quotes included, that serde_json writes for `s`.
pub open spec fn json_string_of(s: Seq<char>) -> Seq<char> {
    seq!['"'] + escaped(s) + seq!['"']
}

/// The value of a hexadecimal digit, lowercase or uppercase.
pub open spec fn hex_value(c: char) -> int {
    let u = c as u32;
    if 0x30 <= u <= 0x39 {
        u - 0x30
    } else if 0x61 <= u <= 0x66 {
        u - 0x61 + 10
    } else if 0x41 <= u <= 0x46 {
        u - 0x41 + 10
    } else {
        0
    }
}

/// The character with code point `v`.
pub open spec fn char_with_code(v: int) -> char {
    choose|c: char| #[trigger] (c as u32) == v
}

/// The character that a short escape `\e` stands for in a JSON string.
pub open spec fn short_escape_value(e: char) -> char {
    if e == 'b' {
        char_with_code(0x08)
    } else if e == 't' {
        char_with_code(0x09)
    } else if e == 'n' {
        char_with_code(0x0a)
    } else if e == 'f' {
        char_with_code(0x0c)
    } else if e == 'r' {
        char_with_code(0x0d)
    } else {
        e
    }
}

/// The text that the inside of a JSON string literal stands for: escapes are
/// read back, every other character stands for itself.
pub open spec fn unescaped(t: Seq<char>) -> Seq<char>
    decreases t.len(),
{
    if t.len() >= 6 && t[0] == '\\' && t[1] == 'u' {
        seq![
            char_with_code(
                hex_value(t[2]) * 4096 + hex_value(t[3]) * 256 + hex_value(t[4]) * 16 + hex_value(
                    t[5],
                ),
            ),
        ] + unescaped(t.subrange(6, t.len() as int))
    } else if t.len() >= 2 && t[0] == '\\' {
        seq![short_escape_value(t[1])] + unescaped(t.subrange(2, t.len() as int))
    } else if t.len() > 0 {
        seq![t[0]] + unescaped(t.drop_first())
    } else {
        Seq::empty()
    }
}

/// The text that a JSON string literal, quotes included, stands for.
pub open spec fn json_string_value(q: Seq<char>) -> Seq<char> {
    unescaped(q.subrange(1, q.len() - 1))
}

proof fn lemma_char_with_code(c: char)
    ensures
        char_with_code(c as u32 as int) == c,
{
    let d = char_with_code(c as u32 as int);
    assert(exists|x: char| #[trigger] (x as u32) == c as u32);
    assert(d as u32 == c as u32);
}

proof fn lemma_hex_round_trip(n: int)
    requires
        0 <= n < 16,
    ensures
        hex_value(hex_digit(n)) == n,
{
    let digits = seq![
        '0', '1', '2', '3', '4', '5', '6', '7', '8', '9', 'a', 'b', 'c', 'd', 'e', 'f',
    ];
    assert(hex_digit(n) == digits[n]);
}

proof fn lemma_unescaped_step(c: char, rest: Seq<char>)
    ensures
        unescaped(escaped_char(c) + escaped(rest)) == seq![c] + unescaped(escaped(rest)),
{
    let x = escaped_char(c);
    let t = x + escaped(rest);
    let u = c as u32;
    assert(t.subrange(x.len() as int, t.len() as int) =~= escaped(rest));
    if u < 0x20 && u != 0x08 && u != 0x09 && u != 0x0a && u != 0x0c && u != 0x0d {
        lemma_hex_round_trip((u / 16) as int);
        lemma_hex_round_trip((u % 16) as int);
        assert(hex_value(t[2]) == 0 && hex_value(t[3]) == 0);
        lemma_char_with_code(c);
    } else if u == 0x08 || u == 0x09 || u == 0x0a || u == 0x0c || u == 0x0d {
        lemma_char_with_code(c);
    } else if c == '"' || c == '\\' {
    } else {
        assert(t.drop_first() =~= escaped(rest));
    }
}

proof fn lemma_unescaped_escaped(s: Seq<char>)
    ensures
        unescaped(escaped(s)) == s,
    decreases s.len(),
{
    if s.len() == 0 {
        assert(unescaped(Seq::empty()) == Seq::<char>::empty());
    } else {
        lemma_unescaped_escaped(s.drop_first());
        lemma_unescaped_step(s[0], s.drop_first());
        assert(seq![s[0]] + s.drop_first() =~= s);
    }
}

/// Reading back the JSON string literal written for a text gives the text.
pub proof fn lemma_json_string_round_trip(s: Seq<char>)
    ensures
        json_string_value(json_string_of(s)) == s,
{
    let q = json_string_of(s);
    assert(q.subrange(1, q.len() - 1) =~= escaped(s));
    lemma_unescaped_escaped(s);
}

/// Relies on `serde_json::to_string` on a `str`: the text between double
/// quotes, with `"` and `\` escaped by a backslash, the control characters
/// U+0008, U+0009, U+000A, U+000C and U+000D written `\b`, `\t`, `\n`, `\f`
/// and `\r`, other characters below U+0020 written `\u00` and two lowercase
/// hex digits, and every other character as it is. Serializing a `str` writes
/// only to an in-memory buffer, whose writes cannot fail, so the result is
/// always there.
#[verifier::external_body]
fn json_string(s: &str) -> (r: Option<String>)
    ensures
        r is Some,
        r matches Some(q) ==> q@ == json_string_of(s@),
{
    serde_json::to_string(s).ok()
}

/// The items separated by commas.
pub open spec fn comma_joined(items: Seq<Seq<char>>) -> Seq<char>
    decreases items.len(),
{
    if items.len() == 0 {
        Seq::empty()
    } else if items.len() == 1 {
        items[0]
    } else {
        comma_joined(items.drop_last()) + ","@ + items.last()
    }
}

/// A JSON array of the given JSON values.
pub open spec fn json_array_of(items: Seq<Seq<char>>) -> Seq<char> {
    "["@ + comma_joined(items) + "]"@
}

/// The JSON object of an entry, given the JSON texts of its word and of its
/// definitions.
pub open spec fn entry_object_of(word: Seq<char>, definitions: Seq<Seq<char>>) -> Seq<char> {
    "{\"word\":"@ + word + ",\"definitions\":"@ + json_array_of(definitions) + "}"@
}

/// The JSON object of an entry.
pub open spec fn entry_json(e: EntryModel) -> Seq<char> {
    entry_object_of(
        json_string_of(e.word),
        e.definitions.map_values(|d: Seq<char>| json_string_of(d)),
    )
}

/// The JSON text of a list of entries.
pub open spec fn entries_json(es: Seq<EntryModel>) -> Seq<char> {
    json_array_of(es.map_values(|e: EntryModel| entry_json(e)))
}

/// Writes the JSON array whose items are the given JSON texts.
pub fn json_array(items: &Vec<String>) -> (r: String)
    ensures
        r@ == json_array_of(items@.map_values(|s: String| s@)),
{
    let ghost parts = items@.map_values(|s: String| s@);
    let mut out = String::from_str("[");
    let mut i: usize = 0;
    while i < items.len()
        invariant
            i <= items.len(),
            parts == items@.map_values(|s: String| s@),
            out@ == "["@ + comma_joined(parts.subrange(0, i as int)),
        decreases items.len() - i,
    {
        if i > 0 {
            out.append(",");
        }
        out.append(items[i].as_str());
        proof {
            let next = parts.subrange(0, i + 1);
            assert(next.drop_last() =~= parts.subrange(0, i as int));
            if i == 0 {
                assert(parts.subrange(0, 0) =~= Seq::<Seq<char>>::empty());
            }
        }
        i += 1;
    }
    assert(parts.subrange(0, parts.len() as int) =~= parts);
    out.append("]");
    out
}

/// Writes the JSON object of an entry from the JSON texts of its word and of
/// its definitions.
pub fn entry_object(word: &str, definitions: &Vec<String>) -> (r: String)
    ensures
        r@ == entry_object_of(word@, definitions@.map_values(|s: String| s@)),
{
    let mut out = String::from_str("{\"word\":");
    out.append(word);
    out.append(",\"definitions\":");
    let array = json_array(definitions);
    out.append(array.as_str());
    out.append("}");
    out
}

/// The JSON text of the entries.
pub fn json_stringify(entries: &[DictionaryEntry]) -> (r: String)
    ensures
        r@ == entries_json(entries_view(entries@)),
{
    let ghost es = entries_view(entries@);
    let mut objects: Vec<String> = Vec::new();
    let mut i: usize = 0;
    while i < entries.len()
        invariant
            i <= entries.len(),
            es == entries_view(entries@),
            objects@.len() == i,
            forall|k: int|
                0 <= k < i ==> (#[trigger] objects@[k])@ == entry_json(es[k]),
        decreases entries.len() - i,
    {
        let entry = &entries[i];
        let word = json_string(entry.word.as_str()).unwrap();
        let mut definitions: Vec<String> = Vec::new();
        let mut j: usize = 0;
        while j < entry.definitions.len()
            invariant
                j <= entry.definitions.len(),
                definitions@.len() == j,
                forall|k: int|
                    0 <= k < j ==> (#[trigger] definitions@[k])@ == json_string_of(
                        entry.definitions@[k]@,
                    ),
            decreases entry.definitions.len() - j,
        {
            definitions.push(json_string(entry.definitions[j].as_str()).unwrap());
            j += 1;
        }
        let object = entry_object(word.as_str(), &definitions);
        assert(definitions@.map_values(|s: String| s@) =~= es[i as int].definitions.map_values(
            |d: Seq<char>| json_string_of(d),
        ));
        objects.push(object);
        i += 1;
    }
    let text = json_array(&objects);
    assert(objects@.map_values(|s: String| s@) =~= es.map_values(|e: EntryModel| entry_json(e)));
    text
}

} // verus!
