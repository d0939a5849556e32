use logtables::csvout::{export_convertion, export_table};
use logtables::parse::{parse_document, ParseError};
use logtables::records::{LogRecord, SourceFileLog, Update};
use logtables::tables::{logs_to_tables, Table};

#[test]
fn round_trip_one_rename_record() {
    let text = r#"[
        {
            "file-name": "f1.txt",
            "log": [
                {
                    "update-name": "rename",
                    "old": [{"key": "path", "value": "/a"}],
                    "new": [{"key": "path", "value": "/b"}],
                    "info": []
                }
            ]
        }
    ]"#;
    let doc = match parse_document(text) {
        Ok(doc) => doc,
        Err(_) => panic!("well-formed input was rejected"),
    };
    assert_eq!(doc.len(), 1);
    assert_eq!(doc[0].name, "f1.txt".to_string());
    let export = logs_to_tables(&doc);
    assert_eq!(export.tables.len(), 1);
    assert_eq!(export.tables[0].0, "rename".to_string());
    let table = &export.tables[0].1;
    assert_eq!(
        table.names,
        vec!["file-name".to_string(), "old_path".to_string(), "new_path".to_string()]
    );
    assert_eq!(
        table.rows,
        vec![vec!["f1.txt".to_string(), "/a".to_string(), "/b".to_string()]]
    );
}

#[test]
fn parse_rejects_text_that_is_not_json() {
    assert!(matches!(parse_document("not json at all"), Err(ParseError::MalformedInput)));
}

#[test]
fn parse_rejects_wrong_shapes() {
    assert!(matches!(parse_document("{}"), Err(ParseError::MalformedInput)));
    assert!(matches!(
        parse_document(r#"[{"file-name": "a", "log": "no array"}]"#),
        Err(ParseError::MalformedInput)
    ));
    assert!(matches!(
        parse_document(r#"[{"log": []}]"#),
        Err(ParseError::MalformedInput)
    ));
    assert!(matches!(
        parse_document(r#"[{"file-name": "a", "log": [{"update-name": "r", "old": [], "new": []}]}]"#),
        Err(ParseError::MalformedInput)
    ));
    assert!(matches!(
        parse_document(r#"[{"file-name": "a", "log": [{"update-name": 3, "old": [], "new": [], "info": []}]}]"#),
        Err(ParseError::MalformedInput)
    ));
}

#[test]
fn parse_accepts_empty_document() {
    let doc = match parse_document("[]") {
        Ok(doc) => doc,
        Err(_) => panic!("an empty list is well-formed"),
    };
    assert_eq!(doc.len(), 0);
}

#[test]
fn export_serializes_header_and_rows() {
    let table = Table {
        names: vec!["file-name".to_string(), "old_path".to_string(), "new_path".to_string()],
        rows: vec![vec!["f1.txt".to_string(), "/a".to_string(), "/b".to_string()]],
    };
    let (file_name, bytes) = export_table(&"rename".to_string(), &table);
    assert_eq!(file_name, "rename.csv".to_string());
    assert_eq!(
        String::from_utf8(bytes).unwrap(),
        "file-name,old_path,new_path\nf1.txt,/a,/b\n"
    );
}

#[test]
fn export_quotes_fields_that_need_it() {
    let table = Table {
        names: vec!["file-name".to_string(), "note".to_string()],
        rows: vec![vec!["f.txt".to_string(), "a,b \"c\"".to_string()]],
    };
    let (_, bytes) = export_table(&"edit".to_string(), &table);
    assert_eq!(
        String::from_utf8(bytes).unwrap(),
        "file-name,note\nf.txt,\"a,b \"\"c\"\"\"\n"
    );
}

#[test]
fn export_convertion_names_every_table() {
    let doc = vec![SourceFileLog {
        name: "a.txt".to_string(),
        logs: vec![LogRecord {
            name: "touch".to_string(),
            old: vec![],
            new: vec![],
            info: vec![Update { key: "when".to_string(), value: "now".to_string() }],
        }],
    }];
    let export = logs_to_tables(&doc);
    let files = export_convertion(&export);
    assert_eq!(files.len(), 1);
    assert_eq!(files[0].0, "touch.csv".to_string());
    assert_eq!(
        String::from_utf8(files[0].1.clone()).unwrap(),
        "file-name,when\na.txt,now\n"
    );
}
