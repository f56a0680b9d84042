use harlaw::formatter::{format_entries, format_line};
use harlaw::{get_default_settings, get_no_markup_settings, ContentReplace, HarlawSettings};

fn lines(items: &[&str]) -> Vec<String> {
    items.iter().map(|s| String::from(*s)).collect()
}

#[test]
fn formats_line() {
    let line = "\t[m1]Lorem ipsum [b]dolor[/b] sit amet, dolor sit igitur[/m]";

    let result = format_line(line, &get_default_settings());

    assert_eq!(result, String::from("Lorem ipsum <strong>dolor</strong> sit amet, dolor sit igitur"));
}

#[test]
fn formats_simple_lines_to_entries() {
    let lines = vec![
        String::from("#NAME\t\"Test Dictionary fixture\""),
        String::from("foo"),
        String::from("\t[m1]Lorem ipsum dolor sit amet, dolor sit igitur[/m]"),
    ];

    let result = format_entries(lines, get_default_settings());

    assert_eq!(result[0].word, "foo");
    assert_eq!(result[0].definitions[0], "Lorem ipsum dolor sit amet, dolor sit igitur");
}

#[test]
fn formats_simple_lines_with_spaces_instead_of_tabs() {
    let lines = vec![
        String::from("#NAME\t\"Test Dictionary fixture\""),
        String::from("foo"),
        String::from("    [m1]Lorem ipsum dolor sit amet, dolor sit igitur[/m]"),
        String::from("bar"),
        String::from(" [m1]Dolor sit amet[/m]"),
    ];

    let result = format_entries(lines, get_default_settings());

    assert_eq!(result[0].word, "foo");
    assert_eq!(result[0].definitions[0], "Lorem ipsum dolor sit amet, dolor sit igitur");
    assert_eq!(result[1].word, "bar");
    assert_eq!(result[1].definitions[0], "Dolor sit amet");
}

#[test]
fn allows_empty_lines() {
    let lines = vec![
        String::from("#NAME\t\"Test Dictionary fixture\""),
        String::from(""),
        String::from("foo"),
        String::new(),
        String::from("    [m1]Lorem ipsum dolor sit amet, dolor sit igitur[/m]"),
    ];

    let result = format_entries(lines, get_default_settings());

    assert_eq!(result[0].word, "foo");
    assert_eq!(result[0].definitions[0], "Lorem ipsum dolor sit amet, dolor sit igitur");
}

#[test]
fn formats_grouped_definitions_to_entries() {
    let lines = vec![
        String::from("#NAME\t\"Test Dictionary fixture\""),
        String::from("foo"),
        String::from("\t[m1]Lorem ipsum dolor sit amet, dolor sit igitur[/m]"),
        String::from("bar"),
        String::from("bar-like-word-with-same-defs"),
        String::from("\t[m1][b]Dolor[/b] sit igitur.[/m]"),
        String::from("baz"),
        String::from("\t[m1]Lorem ipsum dolor sit amet, consectetur adipiscing elit[/m]"),
        String::from("\t[m2]Lorem ipsum dolor sit amet.[/m]"),
    ];

    let result = format_entries(lines, get_default_settings());

    assert_eq!(result[0].word, "foo");
    assert_eq!(result[0].definitions[0], "Lorem ipsum dolor sit amet, dolor sit igitur");

    assert_eq!(result[1].word, "bar");
    assert_eq!(result[1].definitions[0], "<strong>Dolor</strong> sit igitur.");

    assert_eq!(result[2].word, "bar-like-word-with-same-defs");
    assert_eq!(result[2].definitions[0], "<strong>Dolor</strong> sit igitur.");

    assert_eq!(result[3].word, "baz");
    assert_eq!(result[3].definitions[0], "Lorem ipsum dolor sit amet, consectetur adipiscing elit");
    assert_eq!(result[3].definitions[1], "Lorem ipsum dolor sit amet.");
}

#[test]
fn scenario_simple_entry() {
    let result = format_entries(lines(&["#NAME\t\"x\"", "foo", "\t[m1]Lorem ipsum[/m]"]), get_default_settings());

    assert_eq!(result.len(), 1);
    assert_eq!(result[0].word, "foo");
    assert_eq!(result[0].definitions, vec![String::from("Lorem ipsum")]);
}

#[test]
fn scenario_grouped_headwords() {
    let result = format_entries(lines(&["bar", "bar-like", "\t[m1][b]Dolor[/b] sit.[/m]"]), get_default_settings());

    assert_eq!(result.len(), 2);
    assert_eq!(result[0].word, "bar");
    assert_eq!(result[1].word, "bar-like");
    assert_eq!(result[0].definitions, vec![String::from("<strong>Dolor</strong> sit.")]);
    assert_eq!(result[1].definitions, vec![String::from("<strong>Dolor</strong> sit.")]);
}

#[test]
fn scenario_multiple_definitions() {
    let result = format_entries(lines(&["baz", "\t[m1]A[/m]", "\t[m2]B[/m]"]), get_default_settings());

    assert_eq!(result.len(), 1);
    assert_eq!(result[0].word, "baz");
    assert_eq!(result[0].definitions, vec![String::from("A"), String::from("B")]);
}

#[test]
fn scenario_no_markup_strips_tags() {
    let result = format_entries(lines(&["#NAME\t\"x\"", "foo", "\t[m1]Lorem ipsum[/m]"]), get_no_markup_settings());
    assert_eq!(result.len(), 1);
    assert_eq!(result[0].definitions, vec![String::from("Lorem ipsum")]);

    let bold = format_entries(lines(&["foo", "\t[m1][b]Lorem[/b] [i]ipsum[/i][/m]"]), get_no_markup_settings());
    assert_eq!(bold[0].definitions, vec![String::from("Lorem ipsum")]);
}

#[test]
fn scenario_blank_lines_keep_association() {
    let result = format_entries(
        lines(&["", "foo", "   ", "", "\t[m1]Lorem[/m]", "\t", "bar", "", "\t[m1]Ipsum[/m]"]),
        get_default_settings(),
    );

    assert_eq!(result.len(), 2);
    assert_eq!(result[0].word, "foo");
    assert_eq!(result[0].definitions, vec![String::from("Lorem")]);
    assert_eq!(result[1].word, "bar");
    assert_eq!(result[1].definitions, vec![String::from("Ipsum")]);
}

#[test]
fn formatting_twice_changes_nothing() {
    let settings = get_default_settings();
    for line in [
        "\t[m1]Lorem ipsum [b]dolor[/b] sit amet[/m]",
        "  [c red][i]x[/i][/c] {-} [ref]y[/ref]  ",
        "plain",
        "",
    ] {
        let once = format_line(line, &settings);
        let twice = format_line(&once, &settings);
        assert_eq!(once, twice);
    }
}

#[test]
fn one_entry_per_headword_line() {
    let result = format_entries(
        lines(&["#meta", "  [b]alpha[/b]  ", "beta", "", "\tone", "gamma", "\ttwo"]),
        get_default_settings(),
    );

    // "  [b]alpha[/b]  " starts with a space: it is a definition line with no headword before it.
    assert_eq!(result.len(), 2);
    assert_eq!(result[0].word, "beta");
    assert_eq!(result[1].word, "gamma");
}

#[test]
fn definition_lines_join_the_nearest_headword() {
    let result = format_entries(
        lines(&["alpha", "\tone", " two", "beta", "\tthree"]),
        get_default_settings(),
    );

    assert_eq!(result[0].definitions, vec![String::from("one"), String::from("two")]);
    assert_eq!(result[1].definitions, vec![String::from("three")]);
}

#[test]
fn a_run_of_headwords_shares_the_next_definition() {
    let result = format_entries(
        lines(&["a", "b", "#note", "c", "", "\tfirst", "\tsecond"]),
        get_default_settings(),
    );

    assert_eq!(result.len(), 3);
    assert_eq!(result[0].definitions, vec![String::from("first")]);
    assert_eq!(result[1].definitions, vec![String::from("first")]);
    assert_eq!(result[2].definitions, vec![String::from("first"), String::from("second")]);
}

#[test]
fn trailing_headwords_without_definition_stay_empty() {
    let result = format_entries(lines(&["foo", "\tdef", "bar", "baz"]), get_default_settings());

    assert_eq!(result.len(), 3);
    assert_eq!(result[0].definitions, vec![String::from("def")]);
    assert!(result[1].definitions.is_empty());
    assert!(result[2].definitions.is_empty());
}

#[test]
fn definition_before_any_headword_is_dropped() {
    let result = format_entries(lines(&["\torphan", "foo", "\tdef"]), get_default_settings());

    assert_eq!(result.len(), 1);
    assert_eq!(result[0].word, "foo");
    assert_eq!(result[0].definitions, vec![String::from("def")]);
}

#[test]
fn no_lines_give_no_entries() {
    assert!(format_entries(Vec::new(), get_default_settings()).is_empty());
}

#[test]
fn replacements_apply_in_order_on_the_previous_result() {
    let settings = HarlawSettings {
        removes: vec!["[x]"],
        replaces: vec![
            ContentReplace { search: "a", replace: "b" },
            ContentReplace { search: "b", replace: "c" },
        ],
    };

    assert_eq!(format_line("[x]ab[x]", &settings), "cc");
}

#[test]
fn replacement_matches_do_not_overlap() {
    let settings = HarlawSettings {
        removes: vec![],
        replaces: vec![ContentReplace { search: "aa", replace: "b" }],
    };

    assert_eq!(format_line("aaa", &settings), "ba");
}

#[test]
fn empty_search_matches_between_characters() {
    let settings = HarlawSettings {
        removes: vec![""],
        replaces: vec![ContentReplace { search: "", replace: "-" }],
    };

    assert_eq!(format_line("ab", &settings), "-a-b-");
}

#[test]
fn trimming_removes_unicode_white_space() {
    let settings = HarlawSettings { removes: vec![], replaces: vec![] };

    assert_eq!(format_line("\u{3000}\u{a0} word \n\u{2009}", &settings), "word");
}

#[test]
fn shorter_pattern_matches_inside_longer_tag() {
    let settings = HarlawSettings {
        removes: vec![],
        replaces: vec![ContentReplace { search: "[b]", replace: "<strong>" }],
    };

    assert_eq!(format_line("[b][big]", &settings), "<strong>[big]");
}

#[test]
fn idempotence_needs_targets_not_to_reappear() {
    let settings = get_default_settings();

    // Deleting "[m1]" leaves "[/m]", which an earlier removal already passed over.
    let once = format_line("[/[m1]m]", &settings);
    assert_eq!(once, "[/m]");
    assert_eq!(format_line(&once, &settings), "");
}

fn is_subsequence(a: &str, b: &str) -> bool {
    let mut rest = b.chars();
    a.chars().all(|c| rest.any(|d| d == c))
}

#[test]
fn no_markup_formatting_only_deletes() {
    let settings = get_no_markup_settings();
    for line in [
        "\t[m1][b]Lorem[/b] [i]ipsum[/i] {-} [ref]x[/ref][/m]",
        "  [c blue]<already>[/c] [sub]2[/sub] ",
        "plain",
    ] {
        let result = format_line(line, &settings);
        assert!(is_subsequence(&result, line), "{:?} from {:?}", result, line);
    }
    assert_eq!(format_line("a{-}b [p]c[/p]", &settings), "ab c");
}

#[test]
fn blank_lines_removed_give_the_same_entries() {
    let with_blanks = lines(&["", "a", " \t ", "b", "", "\tshared", "\u{3000}", "c", "", "\tone", "", " two"]);
    let without: Vec<String> = with_blanks.iter().filter(|l| !l.trim().is_empty()).cloned().collect();

    let full = format_entries(with_blanks, get_default_settings());
    let kept = format_entries(without, get_default_settings());

    assert_eq!(full.len(), kept.len());
    for (x, y) in full.iter().zip(kept.iter()) {
        assert_eq!(x.word, y.word);
        assert_eq!(x.definitions, y.definitions);
    }
}

#[test]
fn an_entry_with_its_own_definition_lines_holds_exactly_those() {
    let result = format_entries(
        lines(&["a", "b", "\tfirst", "#x", "", " second", "c", "\tthird"]),
        get_default_settings(),
    );

    assert_eq!(result[0].definitions, vec![String::from("first")]);
    assert_eq!(result[1].definitions, vec![String::from("first"), String::from("second")]);
    assert_eq!(result[2].definitions, vec![String::from("third")]);
}
