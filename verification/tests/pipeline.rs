use logtables::records::{LogRecord, SourceFileLog, Update};
use logtables::tables::{get_log_values, logs_to_tables, make_header_row, Table};

fn upd(key: &str, value: &str) -> Update {
    Update { key: key.to_string(), value: value.to_string() }
}

fn rename_record(from: &str, to: &str) -> LogRecord {
    LogRecord {
        name: "rename".to_string(),
        old: vec![upd("path", from)],
        new: vec![upd("path", to)],
        info: vec![],
    }
}

#[test]
fn header_has_old_new_pairs_and_info_keys() {
    let record = LogRecord {
        name: "edit".to_string(),
        old: vec![upd("size", "1"), upd("mode", "r")],
        new: vec![upd("size", "2"), upd("mode", "w")],
        info: vec![upd("author", "me")],
    };
    let header = make_header_row(&record);
    assert_eq!(
        header,
        vec![
            "file-name".to_string(),
            "old_size".to_string(),
            "new_size".to_string(),
            "old_mode".to_string(),
            "new_mode".to_string(),
            "author".to_string(),
        ]
    );
}

#[test]
fn header_keys_come_from_old_entries() {
    let record = LogRecord {
        name: "edit".to_string(),
        old: vec![upd("left", "1")],
        new: vec![upd("right", "2")],
        info: vec![],
    };
    let header = make_header_row(&record);
    assert_eq!(
        header,
        vec!["file-name".to_string(), "old_left".to_string(), "new_left".to_string()]
    );
}

#[test]
fn row_projection_preserves_positional_pairing() {
    let record = LogRecord {
        name: "edit".to_string(),
        old: vec![upd("k1", "v1"), upd("k2", "v2")],
        new: vec![upd("k1", "w1"), upd("k2", "w2")],
        info: vec![upd("k3", "x")],
    };
    let row = get_log_values("f.txt", &record);
    assert_eq!(
        row,
        vec![
            "f.txt".to_string(),
            "v1".to_string(),
            "w1".to_string(),
            "v2".to_string(),
            "w2".to_string(),
            "x".to_string(),
        ]
    );
}

#[test]
fn row_projection_truncates_to_shorter_list() {
    let record = LogRecord {
        name: "edit".to_string(),
        old: vec![upd("k1", "v1"), upd("k2", "v2")],
        new: vec![upd("k1", "w1")],
        info: vec![],
    };
    let row = get_log_values("f.txt", &record);
    assert_eq!(row, vec!["f.txt".to_string(), "v1".to_string(), "w1".to_string()]);
}

fn table_of<'a>(tables: &'a [(String, Table)], name: &str) -> &'a Table {
    &tables.iter().find(|entry| entry.0 == name).expect("missing table").1
}

#[test]
fn one_table_per_distinct_category() {
    let doc = vec![
        SourceFileLog {
            name: "a.txt".to_string(),
            logs: vec![rename_record("/1", "/2"), rename_record("/3", "/4")],
        },
        SourceFileLog {
            name: "b.txt".to_string(),
            logs: vec![LogRecord {
                name: "delete".to_string(),
                old: vec![],
                new: vec![],
                info: vec![upd("reason", "old")],
            }],
        },
    ];
    let export = logs_to_tables(&doc);
    assert_eq!(export.tables.len(), 2);
    assert_eq!(table_of(&export.tables, "rename").rows.len(), 2);
    assert_eq!(table_of(&export.tables, "delete").rows.len(), 1);
}

#[test]
fn header_derivation_is_first_wins() {
    let doc = vec![SourceFileLog {
        name: "a.txt".to_string(),
        logs: vec![
            rename_record("/1", "/2"),
            LogRecord {
                name: "rename".to_string(),
                old: vec![upd("target", "x"), upd("extra", "y")],
                new: vec![upd("target", "x2"), upd("extra", "y2")],
                info: vec![upd("note", "later")],
            },
        ],
    }];
    let export = logs_to_tables(&doc);
    let table = table_of(&export.tables, "rename");
    assert_eq!(
        table.names,
        vec!["file-name".to_string(), "old_path".to_string(), "new_path".to_string()]
    );
    assert_eq!(table.rows.len(), 2);
}

#[test]
fn same_category_across_files_accumulates_in_file_order() {
    let doc = vec![
        SourceFileLog { name: "a.txt".to_string(), logs: vec![rename_record("/1", "/2")] },
        SourceFileLog { name: "b.txt".to_string(), logs: vec![rename_record("/3", "/4")] },
    ];
    let export = logs_to_tables(&doc);
    assert_eq!(export.tables.len(), 1);
    let table = table_of(&export.tables, "rename");
    assert_eq!(
        table.rows,
        vec![
            vec!["a.txt".to_string(), "/1".to_string(), "/2".to_string()],
            vec!["b.txt".to_string(), "/3".to_string(), "/4".to_string()],
        ]
    );
}

#[test]
fn empty_log_contributes_nothing() {
    let doc = vec![SourceFileLog { name: "a.txt".to_string(), logs: vec![] }];
    let export = logs_to_tables(&doc);
    assert_eq!(export.tables.len(), 0);

    let doc2 = vec![
        SourceFileLog { name: "a.txt".to_string(), logs: vec![] },
        SourceFileLog { name: "b.txt".to_string(), logs: vec![rename_record("/1", "/2")] },
    ];
    let export2 = logs_to_tables(&doc2);
    assert_eq!(export2.tables.len(), 1);
    let table = table_of(&export2.tables, "rename");
    assert_eq!(table.rows.len(), 1);
    assert_eq!(table.rows[0][0], "b.txt".to_string());
}
