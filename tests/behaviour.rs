use bear::{from, into, ConversionError, Database, DatabaseFormat, Entries, Entry, Error, GenericEntry};

fn strings(items: &[&str]) -> Vec<String> {
    items.iter().map(|s| s.to_string()).collect()
}

fn entry(file: &str, command: &[&str], output: Option<&str>) -> Entry {
    Entry {
        directory: b"/home/user".to_vec(),
        file: file.as_bytes().to_vec(),
        command: strings(command),
        output: output.map(|o| o.as_bytes().to_vec()),
    }
}

fn db() -> Database {
    Database::new(b"compile_commands.json")
}

#[test]
fn database_keeps_its_path() {
    assert_eq!(db().path(), &b"compile_commands.json".to_vec());
}

#[test]
fn mixed_shapes_load_into_one_set() {
    let text = r#"[{"directory":"/home/user","file":"./a.c","command":"cc -c ./a.c -o ./a.o"},
        {"directory":"/home/user","file":"./b.c","arguments":["cc","-c","./b.c","-o","./b.o"],"output":"./b.o"}]"#;
    let entries = db().load(text).unwrap();
    assert_eq!(entries.len(), 2);
    let a = entry("./a.c", &["cc", "-c", "./a.c", "-o", "./a.o"], None);
    let b = entry("./b.c", &["cc", "-c", "./b.c", "-o", "./b.o"], Some("./b.o"));
    assert_eq!(entries.find(&a).unwrap().output, None);
    assert_eq!(entries.find(&b).unwrap().output, Some(b"./b.o".to_vec()));
}

#[test]
fn duplicates_collapse_to_the_later_record() {
    let text = r#"[{"directory":"/d","file":"x.c","command":"cc x.c","output":"one.o"},
        {"directory":"/d","file":"x.c","arguments":["cc","x.c"],"output":"two.o"}]"#;
    let entries = db().load(text).unwrap();
    assert_eq!(entries.len(), 1);
    let probe = Entry {
        directory: b"/d".to_vec(),
        file: b"x.c".to_vec(),
        command: strings(&["cc", "x.c"]),
        output: None,
    };
    assert_eq!(entries.find(&probe).unwrap().output, Some(b"two.o".to_vec()));
}

#[test]
fn unmatched_quote_is_reported_with_its_command() {
    let text = r#"[{"directory":"/d","file":"ok.c","command":"cc ok.c"},
        {"directory":"/d","file":"bad.c","command":"cc -Dvalue=\"this"}]"#;
    match db().load(text) {
        Err(Error::Aggregate(message)) => {
            assert_eq!(message, "Quotes are mismatch in \"cc -Dvalue=\\\"this\"");
            assert_eq!(message, format!("Quotes are mismatch in {:?}", "cc -Dvalue=\"this"));
        }
        other => panic!("unexpected {:?}", other),
    }
}

#[test]
fn every_bad_record_is_reported() {
    let text = r#"[{"directory":"/d","file":"a.c","command":"cc 'a"},
        {"directory":"/d","file":"b.c","command":"cc b.c"},
        {"directory":"/d","file":"c.c","command":"cc \"c"}]"#;
    match db().load(text) {
        Err(Error::Aggregate(message)) => {
            assert_eq!(message, "Quotes are mismatch in \"cc 'a\", Quotes are mismatch in \"cc \\\"c\"");
        }
        other => panic!("unexpected {:?}", other),
    }
}

#[test]
fn not_json_is_a_format_error() {
    assert!(matches!(db().load("this is not json"), Err(Error::Format)));
}

#[test]
fn object_document_is_a_format_error() {
    assert!(matches!(db().load(r#"{"file":"string"}"#), Err(Error::Format)));
}

#[test]
fn record_without_directory_is_a_format_error() {
    let text = r#"[{"file":"a.c","command":"cc a.c"}]"#;
    assert!(matches!(db().load(text), Err(Error::Format)));
}

#[test]
fn record_with_numeric_output_is_a_format_error() {
    let text = r#"[{"directory":"/d","file":"a.c","command":"cc a.c","output":3}]"#;
    assert!(matches!(db().load(text), Err(Error::Format)));
}

#[test]
fn null_output_means_none() {
    let text = r#"[{"directory":"/d","file":"a.c","arguments":["cc"],"output":null}]"#;
    let entries = db().load(text).unwrap();
    let probe = Entry { directory: b"/d".to_vec(), file: b"a.c".to_vec(), command: strings(&["cc"]), output: None };
    assert_eq!(entries.find(&probe).unwrap().output, None);
}

#[test]
fn quoted_words_are_one_token() {
    let g = GenericEntry::StringEntry {
        directory: "/d".to_string(),
        file: "a.c".to_string(),
        command: "cc -DNAME=\"a b\" 'x y' a\\ c".to_string(),
        output: None,
    };
    let e = into(&g).unwrap();
    assert_eq!(e.command, strings(&["cc", "-DNAME=a b", "x y", "a c"]));
    assert_eq!(e.directory, b"/d".to_vec());
}

#[test]
fn unmatched_quote_is_a_conversion_error() {
    let g = GenericEntry::StringEntry {
        directory: "/d".to_string(),
        file: "a.c".to_string(),
        command: "cc 'a".to_string(),
        output: None,
    };
    match into(&g) {
        Err(e @ ConversionError::MismatchedQuotes(_)) => {
            assert_eq!(e.message(), "Quotes are mismatch in \"cc 'a\"");
        }
        other => panic!("unexpected {:?}", other),
    }
}

#[test]
fn array_record_keeps_tokens() {
    let g = GenericEntry::ArrayEntry {
        directory: "/d".to_string(),
        file: "a.c".to_string(),
        arguments: strings(&["cc", "a b", ""]),
        output: Some("a.o".to_string()),
    };
    let e = into(&g).unwrap();
    assert_eq!(e.command, strings(&["cc", "a b", ""]));
    assert_eq!(e.output, Some(b"a.o".to_vec()));
}

#[test]
fn line_format_quotes_tokens() {
    let e = entry("a.c", &["cc", "-DNAME=a b", ""], None);
    match from(&e, &DatabaseFormat { command_as_array: false }).unwrap() {
        GenericEntry::StringEntry { directory, command, output, .. } => {
            assert_eq!(directory, "/home/user");
            assert_eq!(command, "cc -DNAME\\=a\\ b ''");
            assert_eq!(output, None);
        }
        other => panic!("unexpected {:?}", other),
    }
}

#[test]
fn plain_tokens_join_with_spaces() {
    let e = entry("a.c", &["cc", "-c", "./a.c"], Some("./a.o"));
    match from(&e, &DatabaseFormat { command_as_array: false }).unwrap() {
        GenericEntry::StringEntry { command, output, .. } => {
            assert_eq!(command, "cc -c ./a.c");
            assert_eq!(output, Some("./a.o".to_string()));
        }
        other => panic!("unexpected {:?}", other),
    }
}

#[test]
fn array_format_copies_tokens() {
    let e = entry("a.c", &["cc", "x y"], None);
    match from(&e, &DatabaseFormat { command_as_array: true }).unwrap() {
        GenericEntry::ArrayEntry { file, arguments, .. } => {
            assert_eq!(file, "a.c");
            assert_eq!(arguments, strings(&["cc", "x y"]));
        }
        other => panic!("unexpected {:?}", other),
    }
}

#[test]
fn path_that_is_not_text_fails_conversion() {
    let e = Entry {
        directory: b"/d".to_vec(),
        file: vec![0x66, 0xff, 0x2e, 0x63],
        command: strings(&["cc"]),
        output: None,
    };
    match from(&e, &DatabaseFormat { command_as_array: true }) {
        Err(e @ ConversionError::NotText(_)) => {
            assert_eq!(e.message(), "Failed to convert to string \"f\\xFF.c\"");
            match e {
                ConversionError::NotText(bytes) => assert_eq!(bytes, vec![0x66, 0xff, 0x2e, 0x63]),
                _ => unreachable!(),
            }
        }
        other => panic!("unexpected {:?}", other),
    }
}

#[test]
fn path_message_escapes_like_a_path() {
    let mut bytes = b"/tmp/it's \"q\"\\x".to_vec();
    bytes.push(0xfe);
    bytes.extend_from_slice(b"\tend");
    let written = format!("{:?}", std::path::Path::new("/tmp/it's \"q\"\\x"));
    let tail = format!("{:?}", std::path::Path::new("\tend"));
    let expected = format!(
        "Failed to convert to string {}\\xFE{}",
        &written[..written.len() - 1],
        &tail[1..]
    );
    assert_eq!(ConversionError::NotText(bytes).message(), expected);
}

#[test]
fn quote_message_escapes_like_debug() {
    let line = "cc \"a\\b 'c".to_string();
    assert_eq!(
        ConversionError::MismatchedQuotes(line.clone()).message(),
        format!("Quotes are mismatch in {:?}", line)
    );
}

#[test]
fn save_fails_on_a_path_that_is_not_text() {
    let mut entries = Entries::new();
    entries.insert(Entry {
        directory: b"/d".to_vec(),
        file: b"a.c".to_vec(),
        command: strings(&["cc"]),
        output: Some(vec![0xc3, 0x28]),
    });
    match db().save(&entries, &DatabaseFormat { command_as_array: false }) {
        Err(Error::Conversion(ConversionError::NotText(bytes))) => assert_eq!(bytes, vec![0xc3, 0x28]),
        other => panic!("unexpected {:?}", other),
    }
}

#[test]
fn save_writes_pretty_json_without_absent_output() {
    let mut entries = Entries::new();
    entries.insert(entry("a.c", &["cc", "a.c"], None));
    let text = db().save(&entries, &DatabaseFormat { command_as_array: true }).unwrap();
    assert_eq!(
        text,
        "[\n  {\n    \"arguments\": [\n      \"cc\",\n      \"a.c\"\n    ],\n    \"directory\": \"/home/user\",\n    \"file\": \"a.c\"\n  }\n]"
    );
}

#[test]
fn save_of_empty_set_is_empty_array() {
    let text = db().save(&Entries::new(), &DatabaseFormat { command_as_array: false }).unwrap();
    assert_eq!(text, "[]");
    assert_eq!(db().load(&text).unwrap(), Entries::new());
}

#[test]
fn round_trip_keeps_outputs_and_awkward_tokens() {
    let mut entries = Entries::new();
    entries.insert(entry("a.c", &["cc", "-DX=\"q\"", "it's", "", "tab\there", "line\nfeed", "é"], Some("a.o")));
    entries.insert(entry("b.c", &["cc", "b.c"], None));
    for as_array in [true, false] {
        let format = DatabaseFormat { command_as_array: as_array };
        let text = db().save(&entries, &format).unwrap();
        let loaded = db().load(&text).unwrap();
        assert_eq!(loaded, entries);
        let probe = entry("a.c", &["cc", "-DX=\"q\"", "it's", "", "tab\there", "line\nfeed", "é"], None);
        assert_eq!(loaded.find(&probe).unwrap().output, Some(b"a.o".to_vec()));
    }
}

#[test]
fn insert_replaces_an_entry_with_the_same_key() {
    let mut entries = Entries::new();
    entries.insert(entry("a.c", &["cc"], Some("one.o")));
    entries.insert(entry("a.c", &["cc"], Some("two.o")));
    entries.insert(entry("a.c", &["cc", "-O2"], None));
    assert_eq!(entries.len(), 2);
    assert!(entries.contains(&entry("a.c", &["cc"], None)));
    assert_eq!(entries.find(&entry("a.c", &["cc"], None)).unwrap().output, Some(b"two.o".to_vec()));
    assert!(!entries.contains(&entry("b.c", &["cc"], None)));
}

#[test]
fn entries_equal_ignoring_output() {
    assert_eq!(entry("a.c", &["cc"], Some("x.o")), entry("a.c", &["cc"], None));
    assert_ne!(entry("a.c", &["cc"], None), entry("a.c", &["cc", "-c"], None));
    let mut one = Entries::new();
    one.insert(entry("a.c", &["cc"], Some("x.o")));
    let mut other = Entries::new();
    other.insert(entry("a.c", &["cc"], None));
    assert_eq!(one, other);
    other.insert(entry("b.c", &["cc"], None));
    assert_ne!(one, other);
}

#[test]
fn line_feed_is_single_quoted_when_joined() {
    let e = entry("a.c", &["echo", "a\nb", "é"], None);
    match from(&e, &DatabaseFormat { command_as_array: false }).unwrap() {
        GenericEntry::StringEntry { command, .. } => assert_eq!(command, "echo a'\n'b \\é"),
        other => panic!("unexpected {:?}", other),
    }
}

#[test]
fn three_records_keep_one_entry_per_key() {
    let text = r#"[{"directory":"/d","file":"x.c","arguments":["cc","x.c"],"output":"one.o"},
        {"directory":"/d","file":"y.c","arguments":["cc","y.c"]},
        {"directory":"/d","file":"x.c","command":"cc x.c","output":"three.o"}]"#;
    let entries = db().load(text).unwrap();
    assert_eq!(entries.len(), 2);
    let probe = Entry { directory: b"/d".to_vec(), file: b"x.c".to_vec(), command: strings(&["cc", "x.c"]), output: None };
    assert_eq!(entries.find(&probe).unwrap().output, Some(b"three.o".to_vec()));
}
