use renamer::fs_model::FileTime;
use renamer::patterns::parser::PatternParseError;
use renamer::patterns::{ActionOptions, PatternElem, PatternInsert, RenamePattern};

fn parts_of(path: &str) -> (String, String, String) {
    // split a result path into its first four characters, the numeric
    // middle of the stem, and the last stem character plus the extension
    let p = std::path::PathBuf::from(path);
    let name = p.file_name().unwrap().to_string_lossy().to_string();
    let left = name[0..4].to_owned();
    let (middle, last) = {
        let mut s = p.file_stem().unwrap().to_string_lossy().to_string();
        (s[4..s.len() - 2].to_owned(), s.pop().unwrap())
    };
    let right = format!("{last}.{}", p.extension().unwrap().to_string_lossy());
    (left, middle, right)
}

#[test]
fn mod_basic_test() {
    let input_pattern = r#"1"^.{0,4}"2"\..*"|/cap1//RAND/#/cap2/"#;
    let input_files: Vec<String> = vec!["Ploggle.txt".into(), "Groggle.jpeg".into()];
    let expected: Vec<(String, String)> = vec![
        ("Plog".into(), "#.txt".into()),
        ("Grog".into(), "#.jpeg".into()),
    ];
    let pattern = RenamePattern::parse(input_pattern, ActionOptions::default()).unwrap();
    let result: Vec<(String, String, String)> = input_files
        .iter()
        .map(|path| pattern.apply_to_file_name(path, None).unwrap())
        .map(|x| parts_of(&x))
        .collect();
    for res in result.iter().map(|x| &x.1) {
        str::parse::<u32>(res).unwrap();
    }
    let result: Vec<_> = result.into_iter().map(|x| (x.0, x.2)).collect();
    assert!(result == expected, "{result:?} != {expected:?}");
}

#[test]
fn parser_basic_test() {
    let input = "1\"^.{0,4}\"2\".*\\..*\"|/cap1//RAND/./cap2/";
    let expected_elements = vec![
        PatternElem::Insert(PatternInsert::CaptureGroup(1)),
        PatternElem::Insert(PatternInsert::Random),
        PatternElem::Literal(".".to_owned()),
        PatternElem::Insert(PatternInsert::CaptureGroup(2)),
    ];
    let expected_groups: Vec<(usize, String)> =
        vec![(1, "^.{0,4}".to_owned()), (2, ".*\\..*".to_owned())];
    let res = RenamePattern::parse(input, ActionOptions::default()).unwrap();
    let elements = res.elements();
    assert_eq!(elements.len(), expected_elements.len());
    for (got, want) in elements.iter().zip(expected_elements.iter()) {
        assert!(got == want, "unexpected element");
    }
    let groups = res.capture_sources();
    assert!(
        groups == expected_groups,
        "res: {groups:?} != expected: {expected_groups:?}"
    );
    assert_eq!(res.input().unwrap().as_str(), input);
    assert!(res.preset_info().is_none());
}

#[test]
fn no_capture_groups() {
    let input = "/RAND/hello/RAND/";
    let expected_elements = vec![
        PatternElem::Insert(PatternInsert::Random),
        PatternElem::Literal("hello".to_owned()),
        PatternElem::Insert(PatternInsert::Random),
    ];
    let res = RenamePattern::parse(input, ActionOptions::default()).unwrap();
    let elements = res.elements();
    assert_eq!(elements.len(), expected_elements.len());
    for (got, want) in elements.iter().zip(expected_elements.iter()) {
        assert!(got == want, "unexpected element");
    }
    assert!(res.capture_sources().is_empty());
}

#[test]
fn parse_literal() {
    let input = "hello";
    let expected_elements = vec![PatternElem::Literal("hello".to_owned())];
    let res = RenamePattern::parse(input, ActionOptions::default()).unwrap();
    let elements = res.elements();
    assert_eq!(elements.len(), expected_elements.len());
    for (got, want) in elements.iter().zip(expected_elements.iter()) {
        assert!(got == want, "unexpected element");
    }
    assert!(res.capture_sources().is_empty());
}

#[test]
fn literal_round_trip() {
    // a pattern of only literal text renames every file to exactly that text
    let pattern = RenamePattern::parse("newname", ActionOptions::default()).unwrap();
    assert_eq!(
        pattern.apply_to_file_name("dir/old.txt", None).unwrap(),
        "dir/newname"
    );
    assert_eq!(
        pattern.apply_to_file_name("/a/b/c", None).unwrap(),
        "/a/b/newname"
    );
    assert_eq!(pattern.apply_to_file_name("plain", None).unwrap(), "newname");
}

#[test]
fn undefined_capture_reference_fails() {
    match RenamePattern::parse("/cap9/", ActionOptions::default()) {
        Err(e) => assert_eq!(e, PatternParseError::NonexistentCapGroup(9)),
        Ok(_) => panic!("an undefined capture reference must fail to compile"),
    }
    // with the group defined, the same text compiles
    let ok = RenamePattern::parse("9\"x\"|/cap9/", ActionOptions::default());
    assert!(ok.is_ok());
}

#[test]
fn parse_determinism() {
    let input = "1\"^ab\"|/cap1/-/ORIG/";
    let a = RenamePattern::parse(input, ActionOptions::default()).unwrap();
    let b = RenamePattern::parse(input, ActionOptions::new(true, true)).unwrap();
    // identical elements and identical capture-group source texts,
    // whatever the options
    assert!(a == b);
    assert_eq!(a.capture_sources(), b.capture_sources());
    assert_eq!(a.elements().len(), b.elements().len());
}

#[test]
fn unknown_insert_fails() {
    match RenamePattern::parse("/XYZ/tail", ActionOptions::default()) {
        Err(e) => assert_eq!(
            e,
            PatternParseError::NonexistentInsert("/XYZ/tail".to_owned())
        ),
        Ok(_) => panic!("an unknown insert name must fail to compile"),
    }
}

#[test]
fn syntax_errors() {
    // an empty insert name cannot be parsed as any element
    match RenamePattern::parse("a//b", ActionOptions::default()) {
        Err(e) => assert_eq!(e, PatternParseError::SyntaxError),
        Ok(_) => panic!("an empty insert name must be a syntax error"),
    }
    // a known insert missing its closing slash is a syntax error
    match RenamePattern::parse("/RAND", ActionOptions::default()) {
        Err(e) => assert_eq!(e, PatternParseError::SyntaxError),
        Ok(_) => panic!("a missing closing slash must be a syntax error"),
    }
}

#[test]
fn invalid_regex_fails() {
    match RenamePattern::parse("1\"[\"|/cap1/", ActionOptions::default()) {
        Err(PatternParseError::RegexError(_)) => {}
        Err(other) => panic!("expected a regex compile error, got {other:?}"),
        Ok(_) => panic!("an invalid regex must fail to compile"),
    }
}

#[test]
fn oversized_group_id_fails() {
    match RenamePattern::parse(
        "99999999999999999999999999\"x\"|a",
        ActionOptions::default(),
    ) {
        Err(PatternParseError::Other(_)) => {}
        Err(other) => panic!("expected an id overflow error, got {other:?}"),
        Ok(_) => panic!("an oversized group id must fail to compile"),
    }
}

#[test]
fn capture_block_backtracks() {
    // digits and quotes without a closing `|` are plain literal text
    let res = RenamePattern::parse("1\"a\"xyz", ActionOptions::default()).unwrap();
    let elements = res.elements();
    assert_eq!(elements.len(), 1);
    assert!(elements[0] == PatternElem::Literal("1\"a\"xyz".to_owned()));
    assert!(res.capture_sources().is_empty());
    // a bar with no definitions before it is literal text too
    let res = RenamePattern::parse("|abc", ActionOptions::default()).unwrap();
    assert!(res.elements()[0] == PatternElem::Literal("|abc".to_owned()));
}

#[test]
fn duplicate_group_ids_last_wins() {
    let pattern =
        RenamePattern::parse("1\"^a\"1\"^b\"|/cap1/", ActionOptions::default()).unwrap();
    // both definitions are kept in table order; application uses the last
    let groups = pattern.capture_sources();
    assert_eq!(groups.len(), 2);
    assert_eq!(
        pattern.apply_to_file_name("dir/bat", None).unwrap(),
        "dir/b"
    );
}

#[test]
fn equality_follows_the_denoted_table() {
    let opts = ActionOptions::default;
    // shadowed definitions count by their last occurrence: these denote
    // different tables and rename differently, so they differ
    let a = RenamePattern::parse("1\"x\"1\"x\"|/cap1/", opts()).unwrap();
    let b = RenamePattern::parse("1\"x\"1\"y\"|/cap1/", opts()).unwrap();
    assert!(a != b);
    assert!(b != a);
    // and a table that shadows an early definition denotes the same map as
    // one that never had it
    let c = RenamePattern::parse("1\"y\"|/cap1/", opts()).unwrap();
    assert!(b == c);
    assert!(c == b);
}

#[test]
fn original_and_capture_inserts() {
    let pattern =
        RenamePattern::parse("2\"gg\"|/ORIG/_/cap2/", ActionOptions::default()).unwrap();
    // all non-overlapping matches concatenate; a group with no match is empty
    assert_eq!(
        pattern.apply_to_file_name("d/egg.txt", None).unwrap(),
        "d/egg.txt_gg"
    );
    assert_eq!(
        pattern.apply_to_file_name("d/ggggg", None).unwrap(),
        "d/ggggg_gggg"
    );
    assert_eq!(pattern.apply_to_file_name("d/nope", None).unwrap(), "d/nope_");
}

#[test]
fn preserve_extension_forces_source_extension() {
    let opts = ActionOptions::new(true, false);
    let pattern = RenamePattern::parse("fresh", opts).unwrap();
    assert_eq!(
        pattern.apply_to_file_name("a/old.txt", None).unwrap(),
        "a/fresh.txt"
    );
    // a source without an extension leaves the rendered name alone
    assert_eq!(pattern.apply_to_file_name("a/old", None).unwrap(), "a/fresh");
    // the rendered name's own extension is replaced
    let pattern2 = RenamePattern::parse("fresh.jpg", opts).unwrap();
    assert_eq!(
        pattern2.apply_to_file_name("a/old.txt", None).unwrap(),
        "a/fresh.txt"
    );
    // a source without an extension strips the rendered one: the candidate's
    // extension equals the source's, which is none
    assert_eq!(
        pattern2.apply_to_file_name("a/old", None).unwrap(),
        "a/fresh"
    );
}

#[test]
fn date_modified_needs_a_timestamp() {
    let pattern = RenamePattern::parse("/DATE_MODIFIED/", ActionOptions::default()).unwrap();
    assert!(pattern.apply_to_file_name("a/x", None).is_err());
    let out = pattern
        .apply_to_file_name("a/x", Some(FileTime { secs: 1_000_000, nanos: 0 }))
        .unwrap();
    assert!(out.starts_with("a/"));
    assert!(out.len() > 2);
}

#[test]
fn now_insert_renders() {
    let pattern = RenamePattern::parse("/NOW/", ActionOptions::default()).unwrap();
    let out = pattern.apply_to_file_name("a/x", None).unwrap();
    assert!(out.starts_with("a/"));
}

#[test]
fn randomize_preset() {
    let pattern = RenamePattern::randomize(ActionOptions::default());
    assert_eq!(pattern.preset_info(), Some("Randomize"));
    assert!(pattern.input().is_none());
    let out = pattern.apply_to_file_name("dir/x.bin", None).unwrap();
    let name = out.strip_prefix("dir/").unwrap();
    str::parse::<u32>(name).unwrap();
}

#[test]
fn random_values_are_fresh_per_occurrence() {
    let pattern = RenamePattern::parse("/RAND/-/RAND/-/RAND/", ActionOptions::default()).unwrap();
    let out = pattern.apply_to_file_name("x", None).unwrap();
    let parts: Vec<&str> = out.split('-').collect();
    assert_eq!(parts.len(), 3);
    for p in &parts {
        str::parse::<u32>(p).unwrap();
    }
}
