use bear::{Database, DatabaseFormat, Entries, Entry, Error};

fn strings(items: &[&str]) -> Vec<String> {
    items.iter().map(|s| s.to_string()).collect()
}

fn expected_values() -> Entries {
    let mut expected = Entries::new();
    expected.insert(Entry {
        directory: b"/home/user".to_vec(),
        file: b"./file_a.c".to_vec(),
        command: strings(&["cc", "-c", "./file_a.c", "-o", "./file_a.o"]),
        output: None,
    });
    expected.insert(Entry {
        directory: b"/home/user".to_vec(),
        file: b"./file_b.c".to_vec(),
        command: strings(&["cc", "-c", "./file_b.c", "-o", "./file_b.o"]),
        output: Some(b"./file_b.o".to_vec()),
    });
    expected
}

fn sut() -> Database {
    Database::new(b"/tmp/comp-db.json")
}

#[test]
#[should_panic]
fn test_load_json_failed() {
    let _ = sut().load(r#"this is not json"#).unwrap();
}

#[test]
#[should_panic]
fn test_load_not_expected_json_failed() {
    let _ = sut().load(r#"{ "file": "string" }"#).unwrap();
}

#[test]
fn test_load_empty() {
    let entries = sut().load(r#"[]"#).unwrap();
    let expected = Entries::new();
    assert_eq!(expected, entries);
}

#[test]
fn test_load_string_command() {
    let entries = sut()
        .load(
            r#"[
                {
                    "directory": "/home/user",
                    "file": "./file_a.c",
                    "command": "cc -c ./file_a.c -o ./file_a.o"
                },
                {
                    "directory": "/home/user",
                    "file": "./file_b.c",
                    "output": "./file_b.o",
                    "command": "cc -c ./file_b.c -o ./file_b.o"
                }
            ]"#,
        )
        .unwrap();
    let expected = expected_values();
    assert_eq!(expected, entries);
}

#[test]
fn test_load_array_command() {
    let entries = sut()
        .load(
            r#"[
                {
                    "directory": "/home/user",
                    "file": "./file_a.c",
                    "arguments": ["cc", "-c", "./file_a.c", "-o", "./file_a.o"]
                },
                {
                    "directory": "/home/user",
                    "file": "./file_b.c",
                    "output": "./file_b.o",
                    "arguments": ["cc", "-c", "./file_b.c", "-o", "./file_b.o"]
                }
            ]"#,
        )
        .unwrap();
    let expected = expected_values();
    assert_eq!(expected, entries);
}

#[test]
#[should_panic]
fn test_load_path_problem() {
    let _ = sut()
        .load(
            r#"[
                {
                    "directory": " ",
                    "file": "./file_a.c",
                    "command": "cc -Dvalue=\"this"
                }
            ]"#,
        )
        .unwrap();
}

#[test]
fn test_save_string_command() {
    let db = sut();
    let formatter = DatabaseFormat { command_as_array: false };
    let expected = expected_values();
    let content = db.save(&expected, &formatter).unwrap();
    let entries = db.load(&content).unwrap();
    let expected = expected_values();
    assert_eq!(expected, entries);
    println!("{}", content);
}

#[test]
fn test_save_array_command() {
    let db = sut();
    let formatter = DatabaseFormat { command_as_array: true };
    let expected = expected_values();
    let content = db.save(&expected, &formatter).unwrap();
    let entries = db.load(&content).unwrap();
    let expected = expected_values();
    assert_eq!(expected, entries);
    println!("{}", content);
}
