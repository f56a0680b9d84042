use harlaw::dictionary::{to_dictionary, to_json as entries_to_json};
use harlaw::writer::{entry_object, json_array, json_stringify};
use harlaw::{
    get_default_settings, get_dictionary, get_dictionary_with_custom_settings, get_dictionary_without_markup,
    to_json, to_json_no_markup, to_json_with_custom_settings, ContentReplace, DictionaryEntry, HarlawSettings,
};

fn lines(items: &[&str]) -> Vec<String> {
    items.iter().map(|s| String::from(*s)).collect()
}

fn custom_settings() -> HarlawSettings<'static> {
    HarlawSettings {
        removes: vec!["[m1]", "[m2]", "[/m]", "\t"],
        replaces: vec![
            ContentReplace { search: "[b]", replace: "<TUHTI>" },
            ContentReplace { search: "[/b]", replace: "</TUHTI>" },
            ContentReplace { search: "[i]", replace: "<VINO>" },
            ContentReplace { search: "[/i]", replace: "</VINO>" },
        ],
    }
}

fn sample() -> Vec<String> {
    lines(&[
        "#NAME\t\"Sample\"",
        "foo",
        "\t[m1][b]Lorem[/b] [i]ipsum[/i][/m]",
        "bar",
        "baz",
        "\t[m2][c red]dolor[/c][/m]",
    ])
}

#[test]
fn errors_if_not_readable_dictionary() {
    // A reader that could not open "./imaginary-dictionary.dsl" reports an error.
    let result = to_dictionary(Err("Could not read the given DSL file"), get_default_settings());

    assert!(result.is_err());
}

#[test]
fn gets_dictionary_from_dsl() {
    // The lines of the Zoega excerpt, as the reader gives them.
    let read = Ok(lines(&[
        "#NAME\t\"Zoega excerpt\"",
        "#INDEX_LANGUAGE\t\"Old Norse\"",
        "#CONTENTS_LANGUAGE\t\"English\"",
        "",
        "a",
        "\t[m1][c darkgreen]a negative suffix to verbs, [i]not[/i];[/c][/m]",
        "\t[m1]era útmakligt, [i]at it is not unmeet that[/i].[/m]",
        "abbadis",
        "\t[m1](pl. -ar), f. [i]abbess[/i].[/m]",
    ]));

    let result = to_dictionary(read, get_default_settings()).unwrap();

    assert_eq!(result[0].word, "a");
    assert_eq!(result[0].definitions[0], "a negative suffix to verbs, <i>not</i>;");
    assert_eq!(result[0].definitions[1], "era útmakligt, <i>at it is not unmeet that</i>.");

    assert_eq!(result[1].word, "abbadis");
    assert_eq!(result[1].definitions[0], "(pl. -ar), f. <i>abbess</i>.");
}

#[test]
fn gets_default_dictionary() {
    let result = get_dictionary(Ok(sample())).unwrap();

    assert_eq!(result.len(), 3);
    assert_eq!(result[0].word, "foo");
    assert_eq!(result[0].definitions, vec![String::from("<strong>Lorem</strong> <i>ipsum</i>")]);
    assert_eq!(result[1].definitions, vec![String::from("dolor")]);
    assert_eq!(result[2].definitions, vec![String::from("dolor")]);
}

#[test]
fn gets_dictionary_without_markup() {
    let result = get_dictionary_without_markup(Ok(sample())).unwrap();

    assert_eq!(result[0].definitions, vec![String::from("Lorem ipsum")]);
    assert_eq!(result[2].word, "baz");
}

#[test]
fn gets_dictionary_with_custom_settings() {
    let result = get_dictionary_with_custom_settings(Ok(sample()), custom_settings()).unwrap();

    assert_eq!(result[0].definitions, vec![String::from("<TUHTI>Lorem</TUHTI> <VINO>ipsum</VINO>")]);
    assert_eq!(result[1].definitions, vec![String::from("[c red]dolor[/c]")]);
}

#[test]
fn reader_errors_pass_through() {
    assert_eq!(get_dictionary(Err("Given file was not a DSL file")).err(), Some("Given file was not a DSL file"));
    assert_eq!(to_json(Err("Could not read the given DSL file")), Err("Could not read the given DSL file"));
}

#[test]
fn stringifies_entries() {
    let entry = DictionaryEntry { word: String::from("Foo"), definitions: vec![String::from("Bar baz")] };
    let entries = vec![entry];

    let result = json_stringify(&entries);
    let expected = "[{\"word\":\"Foo\",\"definitions\":[\"Bar baz\"]}]";

    assert_eq!(result, expected);
}

#[test]
fn stringify_escapes_and_separates() {
    let entries = vec![
        DictionaryEntry { word: String::from("say \"hi\""), definitions: vec![String::from("a\\b"), String::from("c")] },
        DictionaryEntry { word: String::from("empty"), definitions: vec![] },
    ];

    let result = json_stringify(&entries);

    assert_eq!(
        result,
        "[{\"word\":\"say \\\"hi\\\"\",\"definitions\":[\"a\\\\b\",\"c\"]},{\"word\":\"empty\",\"definitions\":[]}]"
    );
    assert_eq!(json_stringify(&[]), "[]");
}

#[test]
fn json_pieces() {
    assert_eq!(json_array(&vec![]), "[]");
    assert_eq!(json_array(&vec![String::from("1"), String::from("2")]), "[1,2]");
    assert_eq!(entry_object("\"w\"", &vec![String::from("\"d\"")]), "{\"word\":\"w\",\"definitions\":[\"d\"]}");
}

#[test]
fn json_text_of_each_rule_set() {
    let input = lines(&["foo", "\t[m1][b]x[/b][/m]"]);

    assert_eq!(to_json(Ok(input.clone())).unwrap(), "[{\"word\":\"foo\",\"definitions\":[\"<strong>x</strong>\"]}]");
    assert_eq!(to_json_no_markup(Ok(input.clone())).unwrap(), "[{\"word\":\"foo\",\"definitions\":[\"x\"]}]");
    assert_eq!(
        to_json_with_custom_settings(Ok(input.clone()), custom_settings()).unwrap(),
        "[{\"word\":\"foo\",\"definitions\":[\"<TUHTI>x</TUHTI>\"]}]"
    );
    assert_eq!(
        entries_to_json(Ok(input), get_default_settings()).unwrap(),
        "[{\"word\":\"foo\",\"definitions\":[\"<strong>x</strong>\"]}]"
    );
}

#[test]
fn json_round_trip_keeps_words_and_definitions() {
    let entries = get_dictionary(Ok(lines(&[
        "alpha",
        "\t[m1]\"quoted\" [b]bold[/b][/m]",
        "beta",
        "gamma",
        "\t[m1]back\\slash and tab\u{0009}inside[/m]",
        "\t[m2]ünïcødé ✓[/m]",
    ])))
    .unwrap();

    let text = json_stringify(&entries);
    let value: serde_json::Value = serde_json::from_str(&text).unwrap();
    let items = value.as_array().unwrap();

    assert_eq!(items.len(), entries.len());
    for (item, entry) in items.iter().zip(entries.iter()) {
        assert_eq!(item["word"].as_str().unwrap(), entry.word);
        let definitions: Vec<String> =
            item["definitions"].as_array().unwrap().iter().map(|d| String::from(d.as_str().unwrap())).collect();
        assert_eq!(definitions, entry.definitions);
    }
}

#[test]
fn stringify_escapes_control_characters() {
    let entries = vec![DictionaryEntry {
        word: String::from("a\u{1}\u{1f}\u{8}\u{c}\n\r\t/é"),
        definitions: vec![String::from("\u{7f}")],
    }];

    assert_eq!(
        json_stringify(&entries),
        "[{\"word\":\"a\\u0001\\u001f\\b\\f\\n\\r\\t/é\",\"definitions\":[\"\u{7f}\"]}]"
    );
}
