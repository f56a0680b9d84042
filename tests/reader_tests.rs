use harlaw::reader::{check_dsl_file, collect_dsl_lines, is_dsl_file};

#[test]
fn recognizes_dsl_files() {
    let filename1 = "foo.dsl";
    let filename2 = "bar.dsl";
    let filename3 = "foo.json";
    let filename4 = "virus.exe";

    let result1 = is_dsl_file(&filename1);
    let result2 = is_dsl_file(&filename2);
    let result3 = is_dsl_file(&filename3);
    let result4 = is_dsl_file(&filename4);

    assert_eq!(result1, true);
    assert_eq!(result2, true);
    assert_eq!(result3, false);
    assert_eq!(result4, false);
}

#[test]
fn errors_on_non_dsl_files() {
    let filename = String::from("undefined.json");

    let result = check_dsl_file(&filename);

    assert_eq!(result, Err("Given file was not a DSL file"));
}

#[test]
fn errors_on_invalid_dsl_files() {
    let filename = String::from("undefined.dsl");

    // The path is a DSL path; opening it failed, which the reader reports as `None`.
    assert_eq!(check_dsl_file(&filename), Ok(()));
    let result = collect_dsl_lines(None);

    assert_eq!(result, Err("Could not read the given DSL file"));
}

#[test]
fn paths_without_dsl_extension_are_refused() {
    assert!(!is_dsl_file("dictionary"));
    assert!(!is_dsl_file("dir.dsl/dictionary"));
    assert!(!is_dsl_file(".dsl"));
    assert!(!is_dsl_file("dictionary.DSL"));
    assert!(is_dsl_file("dir/sub/dictionary.dsl"));
    assert!(is_dsl_file("archive.tar.dsl"));
}

#[test]
fn undecodable_line_fails_the_read() {
    let read = Some(vec![Some(String::from("foo")), None, Some(String::from("\tbar"))]);

    assert_eq!(collect_dsl_lines(read), Err("Could not read all DSL lines"));
}

#[test]
fn decoded_lines_are_kept_in_order() {
    let read = Some(vec![Some(String::from("foo")), Some(String::new()), Some(String::from("\tbar"))]);

    let result = collect_dsl_lines(read).unwrap();

    assert_eq!(result, vec![String::from("foo"), String::new(), String::from("\tbar")]);
    assert_eq!(collect_dsl_lines(Some(vec![])), Ok(vec![]));
}

#[test]
fn reads_dsl_file() {
    let filename = String::from("src/reader/fixtures/dummy.dsl");
    assert!(is_dsl_file(&filename));

    // What reading the fixture line by line gives.
    let read = Some(vec![
        Some(String::from("#NAME\t\"Test Dictionary fixture\"")),
        Some(String::from("#INDEX_LANGUAGE\t\"English\"")),
        Some(String::from("#CONTENTS_LANGUAGE\t\"Latin\"")),
        Some(String::from("foo")),
        Some(String::from("\t[m1]Lorem ipsum dolor sit amet, dolor sit igitur[/m]")),
    ]);

    let result = collect_dsl_lines(read).unwrap();

    assert_eq!(result[0], "#NAME\t\"Test Dictionary fixture\"");
    assert_eq!(result[1], "#INDEX_LANGUAGE\t\"English\"");
    assert_eq!(result[2], "#CONTENTS_LANGUAGE\t\"Latin\"");
    assert_eq!(result[3], "foo");
    assert_eq!(result[4], "\t[m1]Lorem ipsum dolor sit amet, dolor sit igitur[/m]");
}
