//! Header derivation, row projection, and the per-category accumulation of
//! rows into tables.

use vstd::prelude::*;
use vstd::string::StringExecFns;
use crate::model::{
    distinct_keys, doc_first_record, doc_has_cat, has_key, header_of, info_keys, info_values,
    lemma_lookup_at, lemma_lookup_push, lemma_lookup_update, lemma_no_cat_no_rows,
    logs_first_record, logs_has_cat, logs_rows_for, lookup, old_cols, pair_count, paired_values,
    all_rows_for, doc_rows_for, lemma_all_rows_match, lemma_file_cat_doc, lemma_lookup_take,
    map_rows_for, row_of, spec_insert_header, zip_values, FileLogV, RecordV, TableV,
};
use crate::records::{LogRecord, SourceFileLog};

verus! {

/// The headers derived so far, keyed by category name.
pub type Headers = Vec<(String, Vec<String>)>;

/// The rows collected from one source file, keyed by category name.
pub type Rows = Vec<(String, Vec<Vec<String>>)>;

/// The index of the first entry whose key equals `c`, if any.
fn find_key<V: DeepView>(m: &Vec<(String, V)>, c: &String) -> (r: Option<usize>)
    ensures
        match r {
            Some(i) => i < m.len() && m.deep_view()[i as int].0 == c@ && (forall|j: int|
                0 <= j < i ==> m.deep_view()[j].0 != c@),
            None => !has_key(m.deep_view(), c@),
        },
{
    let mut i: usize = 0;
    while i < m.len()
        invariant
            i <= m.len(),
            forall|j: int| 0 <= j < i ==> m.deep_view()[j].0 != c@,
        decreases m.len() - i,
    {
        let entry = &m[i];
        if entry.0 == *c {
            return Some(i);
        }
        i = i + 1;
    }
    proof {
        if has_key(m.deep_view(), c@) {
            let k = choose|k: int| 0 <= k < m.deep_view().len() && m.deep_view()[k].0 == c@;
            assert(m.deep_view()[k].0 != c@);
        }
    }
    None
}

/// The column header derived from one record: `file-name`, then `old_<key>`
/// and `new_<key>` for each `old` entry, then each `info` key.
pub fn make_header_row(log: &LogRecord) -> (r: Vec<String>)
    ensures
        r.deep_view() == header_of(log.deep_view()),
{
    let ghost rv: RecordV = log.deep_view();
    let mut vect: Vec<String> = Vec::new();
    vect.push("file-name".to_owned());
    assert(vect.deep_view() =~= seq!["file-name"@]);
    let mut i: usize = 0;
    while i < log.old.len()
        invariant
            i <= log.old.len(),
            rv == log.deep_view(),
            vect.deep_view() =~= seq!["file-name"@] + old_cols(rv.old.take(i as int)),
        decreases log.old.len() - i,
    {
        let ghost pre = vect.deep_view();
        let key = log.old[i].key.as_str();
        let mut col_old = "old_".to_owned();
        col_old.append(key);
        let mut col_new = "new_".to_owned();
        col_new.append(key);
        vect.push(col_old);
        vect.push(col_new);
        proof {
            assert(vect.deep_view() =~= pre.push("old_"@ + rv.old[i as int].key).push(
                "new_"@ + rv.old[i as int].key,
            ));
            assert(rv.old.take(i + 1).drop_last() =~= rv.old.take(i as int));
            assert(rv.old.take(i + 1).last() == rv.old[i as int]);
        }
        i = i + 1;
    }
    assert(rv.old.take(log.old.len() as int) =~= rv.old);
    let mut j: usize = 0;
    while j < log.info.len()
        invariant
            j <= log.info.len(),
            rv == log.deep_view(),
            vect.deep_view() =~= seq!["file-name"@] + old_cols(rv.old) + info_keys(
                rv.info.take(j as int),
            ),
        decreases log.info.len() - j,
    {
        let ghost pre = vect.deep_view();
        vect.push(log.info[j].key.clone());
        proof {
            assert(vect.deep_view() =~= pre.push(rv.info[j as int].key));
            assert(info_keys(rv.info.take(j + 1)) =~= info_keys(rv.info.take(j as int)).push(
                rv.info[j as int].key,
            ));
        }
        j = j + 1;
    }
    assert(rv.info.take(log.info.len() as int) =~= rv.info);
    assert(vect.deep_view() =~= header_of(rv));
    vect
}

/// The projected row of one record: the source-file name, then the paired
/// `old`/`new` values (stopping at the shorter list), then the `info` values.
pub fn get_log_values(file_name: &str, log: &LogRecord) -> (r: Vec<String>)
    ensures
        r.deep_view() == row_of(file_name@, log.deep_view()),
{
    let ghost rv: RecordV = log.deep_view();
    let mut vect: Vec<String> = Vec::new();
    vect.push(file_name.to_owned());
    let n: usize = if log.old.len() <= log.new.len() {
        log.old.len()
    } else {
        log.new.len()
    };
    assert(n as int == pair_count(rv.old, rv.new));
    let mut i: usize = 0;
    while i < n
        invariant
            i <= n,
            n <= log.old.len(),
            n <= log.new.len(),
            rv == log.deep_view(),
            vect.deep_view() =~= seq![file_name@] + zip_values(
                rv.old.take(i as int),
                rv.new.take(i as int),
            ),
        decreases n - i,
    {
        let ghost pre = vect.deep_view();
        vect.push(log.old[i].value.clone());
        vect.push(log.new[i].value.clone());
        proof {
            assert(vect.deep_view() =~= pre.push(rv.old[i as int].value).push(
                rv.new[i as int].value,
            ));
            assert(rv.old.take(i + 1).drop_last() =~= rv.old.take(i as int));
            assert(rv.new.take(i + 1).drop_last() =~= rv.new.take(i as int));
        }
        i = i + 1;
    }
    proof {
        assert(rv.old.take(n as int) =~= rv.old.take(pair_count(rv.old, rv.new)));
        assert(rv.new.take(n as int) =~= rv.new.take(pair_count(rv.old, rv.new)));
    }
    let mut j: usize = 0;
    while j < log.info.len()
        invariant
            j <= log.info.len(),
            rv == log.deep_view(),
            vect.deep_view() =~= seq![file_name@] + paired_values(rv.old, rv.new) + info_values(
                rv.info.take(j as int),
            ),
        decreases log.info.len() - j,
    {
        let ghost pre = vect.deep_view();
        vect.push(log.info[j].value.clone());
        proof {
            assert(vect.deep_view() =~= pre.push(rv.info[j as int].value));
            assert(info_values(rv.info.take(j + 1)) =~= info_values(rv.info.take(j as int)).push(
                rv.info[j as int].value,
            ));
        }
        j = j + 1;
    }
    assert(rv.info.take(log.info.len() as int) =~= rv.info);
    assert(vect.deep_view() =~= row_of(file_name@, rv));
    vect
}

/// Derive and record the header for this record's category, unless one was
/// already derived for it: the first record of a category wins.
pub fn insert_header(log: &LogRecord, headers: &mut Headers)
    requires
        distinct_keys(old(headers).deep_view()),
    ensures
        final(headers).deep_view() == spec_insert_header(
            old(headers).deep_view(),
            log.deep_view(),
        ),
        distinct_keys(final(headers).deep_view()),
{
    let found = find_key(headers, &log.name);
    match found {
        Some(i) => {
            proof {
                assert(has_key(old(headers).deep_view(), log.name@));
            }
        },
        None => {
            let header = make_header_row(log);
            headers.push((log.name.clone(), header));
            proof {
                assert(headers.deep_view() =~= old(headers).deep_view().push(
                    (log.name@, header_of(log.deep_view())),
                ));
                let h2 = headers.deep_view();
                let h0 = old(headers).deep_view();
                assert forall|i: int, j: int| 0 <= i < j < h2.len() implies h2[i].0 != h2[j].0 by {
                    if j == h0.len() {
                        assert(h2[i].0 == h0[i].0);
                    }
                }
            }
        },
    }
}

/// Project this record into a row and append it to its category's row list,
/// starting the list when the category is new.
pub fn insert_row(file_name: &str, log: &LogRecord, rows: &mut Rows)
    requires
        distinct_keys(old(rows).deep_view()),
    ensures
        distinct_keys(final(rows).deep_view()),
        forall|c: Seq<char>| #![trigger has_key(final(rows).deep_view(), c)]
            has_key(final(rows).deep_view(), c) <==> (has_key(old(rows).deep_view(), c) || c
                == log.deep_view().name),
        lookup(final(rows).deep_view(), log.deep_view().name) == (if has_key(
            old(rows).deep_view(),
            log.deep_view().name,
        ) {
            lookup(old(rows).deep_view(), log.deep_view().name).push(
                row_of(file_name@, log.deep_view()),
            )
        } else {
            seq![row_of(file_name@, log.deep_view())]
        }),
        forall|c: Seq<char>| #![trigger lookup(final(rows).deep_view(), c)]
            c != log.deep_view().name && has_key(old(rows).deep_view(), c) ==> lookup(
                final(rows).deep_view(),
                c,
            ) == lookup(old(rows).deep_view(), c),
{
    let ghost r0 = old(rows).deep_view();
    let ghost name = log.deep_view().name;
    let ghost rowv = row_of(file_name@, log.deep_view());
    let found = find_key(rows, &log.name);
    let row = get_log_values(file_name, log);
    match found {
        Some(i) => {
            let mut entry = rows.remove(i);
            entry.1.push(row);
            rows.insert(i, entry);
            proof {
                let upd = (r0[i as int].0, r0[i as int].1.push(rowv));
                assert(entry.1.deep_view() =~= r0[i as int].1.push(rowv));
                assert(rows.deep_view() =~= r0.update(i as int, upd));
                lemma_lookup_at(r0, name, i as int);
                assert forall|c: Seq<char>| #![trigger has_key(rows.deep_view(), c)]
                    #![trigger lookup(rows.deep_view(), c)]
                    (has_key(rows.deep_view(), c) <==> (has_key(r0, c) || c == name)) && (c != name
                        && has_key(r0, c) ==> lookup(rows.deep_view(), c) == lookup(r0, c)) by {
                    lemma_lookup_update(r0, i as int, r0[i as int].1.push(rowv), c);
                }
                lemma_lookup_update(r0, i as int, r0[i as int].1.push(rowv), name);
            }
        },
        None => {
            let mut fresh: Vec<Vec<String>> = Vec::new();
            fresh.push(row);
            rows.push((log.name.clone(), fresh));
            proof {
                assert(fresh.deep_view() =~= seq![rowv]);
                assert(rows.deep_view() =~= r0.push((name, seq![rowv])));
                assert forall|c: Seq<char>| #![trigger has_key(rows.deep_view(), c)]
                    #![trigger lookup(rows.deep_view(), c)]
                    (has_key(rows.deep_view(), c) <==> (has_key(r0, c) || c == name)) && (c != name
                        && has_key(r0, c) ==> lookup(rows.deep_view(), c) == lookup(r0, c)) by {
                    lemma_lookup_push(r0, (name, seq![rowv]), c);
                }
                lemma_lookup_push(r0, (name, seq![rowv]), name);
                let r2 = rows.deep_view();
                assert forall|i: int, j: int| 0 <= i < j < r2.len() implies r2[i].0 != r2[j].0 by {
                    if j == r0.len() {
                        assert(r2[i].0 == r0[i].0);
                    }
                }
            }
        },
    }
}

/// Process one source file: derive a header for each category not seen before
/// (first record wins) and collect one projected row per record, grouped by
/// category, in record order.
pub fn convert_logs(file_name: &str, logs: &Vec<LogRecord>, headers: &mut Headers) -> (rows: Rows)
    requires
        distinct_keys(old(headers).deep_view()),
    ensures
        distinct_keys(final(headers).deep_view()),
        distinct_keys(rows.deep_view()),
        forall|c: Seq<char>| #![trigger has_key(final(headers).deep_view(), c)]
            has_key(final(headers).deep_view(), c) <==> (has_key(old(headers).deep_view(), c)
                || logs_has_cat(logs.deep_view(), c)),
        forall|c: Seq<char>| #![trigger lookup(final(headers).deep_view(), c)]
            has_key(old(headers).deep_view(), c) ==> lookup(final(headers).deep_view(), c)
                == lookup(old(headers).deep_view(), c),
        forall|c: Seq<char>| #![trigger lookup(final(headers).deep_view(), c)]
            !has_key(old(headers).deep_view(), c) && logs_has_cat(logs.deep_view(), c) ==> lookup(
                final(headers).deep_view(),
                c,
            ) == header_of(logs_first_record(logs.deep_view(), c)),
        forall|c: Seq<char>| #![trigger has_key(rows.deep_view(), c)]
            has_key(rows.deep_view(), c) <==> logs_has_cat(logs.deep_view(), c),
        forall|c: Seq<char>| #![trigger lookup(rows.deep_view(), c)]
            logs_has_cat(logs.deep_view(), c) ==> lookup(rows.deep_view(), c) == logs_rows_for(
                file_name@,
                logs.deep_view(),
                c,
            ),
{
    let ghost h0 = headers.deep_view();
    let ghost lv = logs.deep_view();
    let mut rows: Rows = Vec::new();
    proof {
        assert(lv.take(0) =~= Seq::empty());
        assert(rows.deep_view() =~= Seq::<(Seq<char>, Seq<Seq<Seq<char>>>)>::empty());
    }
    let mut k: usize = 0;
    while k < logs.len()
        invariant
            k <= logs.len(),
            lv == logs.deep_view(),
            distinct_keys(headers.deep_view()),
            distinct_keys(rows.deep_view()),
            forall|c: Seq<char>| #![trigger has_key(headers.deep_view(), c)]
                has_key(headers.deep_view(), c) <==> (has_key(h0, c) || logs_has_cat(
                    lv.take(k as int),
                    c,
                )),
            forall|c: Seq<char>| #![trigger lookup(headers.deep_view(), c)]
                has_key(h0, c) ==> lookup(headers.deep_view(), c) == lookup(h0, c),
            forall|c: Seq<char>| #![trigger lookup(headers.deep_view(), c)]
                !has_key(h0, c) && logs_has_cat(lv.take(k as int), c) ==> lookup(
                    headers.deep_view(),
                    c,
                ) == header_of(logs_first_record(lv.take(k as int), c)),
            forall|c: Seq<char>| #![trigger has_key(rows.deep_view(), c)]
                has_key(rows.deep_view(), c) <==> logs_has_cat(lv.take(k as int), c),
            forall|c: Seq<char>| #![trigger lookup(rows.deep_view(), c)]
                logs_has_cat(lv.take(k as int), c) ==> lookup(rows.deep_view(), c) == logs_rows_for(
                    file_name@,
                    lv.take(k as int),
                    c,
                ),
        decreases logs.len() - k,
    {
        let log = &logs[k];
        let ghost pre_h = headers.deep_view();
        let ghost pre_r = rows.deep_view();
        insert_header(log, headers);
        insert_row(file_name, log, &mut rows);
        proof {
            let rec = lv[k as int];
            let name = rec.name;
            assert(log.deep_view() == rec);
            assert(lv.take(k + 1).drop_last() =~= lv.take(k as int));
            assert(lv.take(k + 1).last() == rec);
            if !has_key(pre_h, name) {
                assert forall|c: Seq<char>| #![trigger has_key(headers.deep_view(), c)]
                    #![trigger lookup(headers.deep_view(), c)]
                    (has_key(headers.deep_view(), c) <==> (has_key(pre_h, c) || c == name)) && (
                    has_key(pre_h, c) && c != name ==> lookup(headers.deep_view(), c) == lookup(
                        pre_h,
                        c,
                    )) by {
                    lemma_lookup_push(pre_h, (name, header_of(rec)), c);
                }
                lemma_lookup_push(pre_h, (name, header_of(rec)), name);
            }
            assert forall|c: Seq<char>| #![trigger lookup(rows.deep_view(), c)]
                logs_has_cat(lv.take(k + 1), c) implies lookup(rows.deep_view(), c)
                == logs_rows_for(file_name@, lv.take(k + 1), c) by {
                let rowv = row_of(file_name@, rec);
                if c == name {
                    if logs_has_cat(lv.take(k as int), c) {
                        assert(lookup(pre_r, c).push(rowv) =~= logs_rows_for(
                            file_name@,
                            lv.take(k as int),
                            c,
                        ) + seq![rowv]);
                    } else {
                        lemma_no_cat_no_rows(file_name@, lv.take(k as int), c);
                        assert(seq![rowv] =~= logs_rows_for(file_name@, lv.take(k as int), c)
                            + seq![rowv]);
                    }
                } else {
                    assert(logs_rows_for(file_name@, lv.take(k + 1), c) =~= logs_rows_for(
                        file_name@,
                        lv.take(k as int),
                        c,
                    ));
                }
            }
        }
        k = k + 1;
    }
    proof {
        assert(lv.take(logs.len() as int) =~= lv);
    }
    rows
}

/// Traverse the whole document once: derive every category's header from its
/// first record in document order, and collect each file's rows grouped by
/// category.
pub fn make_headers_and_rows(file_logs: &Vec<SourceFileLog>) -> (r: (Headers, Vec<Rows>))
    ensures
        distinct_keys(r.0.deep_view()),
        forall|c: Seq<char>| #![trigger has_key(r.0.deep_view(), c)]
            has_key(r.0.deep_view(), c) <==> doc_has_cat(file_logs.deep_view(), c),
        forall|c: Seq<char>| #![trigger lookup(r.0.deep_view(), c)]
            doc_has_cat(file_logs.deep_view(), c) ==> lookup(r.0.deep_view(), c) == header_of(
                doc_first_record(file_logs.deep_view(), c),
            ),
        r.1.len() == file_logs.len(),
        forall|i: int| 0 <= i < file_logs.len() ==> distinct_keys(#[trigger] r.1.deep_view()[i]),
        forall|i: int, c: Seq<char>| #![trigger has_key(r.1.deep_view()[i], c)]
            0 <= i < file_logs.len() ==> (has_key(r.1.deep_view()[i], c) <==> logs_has_cat(
                file_logs.deep_view()[i].logs,
                c,
            )),
        forall|i: int, c: Seq<char>| #![trigger lookup(r.1.deep_view()[i], c)]
            0 <= i < file_logs.len() && logs_has_cat(file_logs.deep_view()[i].logs, c) ==> lookup(
                r.1.deep_view()[i],
                c,
            ) == logs_rows_for(
                file_logs.deep_view()[i].name,
                file_logs.deep_view()[i].logs,
                c,
            ),
{
    let ghost dv = file_logs.deep_view();
    let mut headers: Headers = Vec::new();
    let mut rows_list: Vec<Rows> = Vec::new();
    proof {
        assert(dv.take(0) =~= Seq::<FileLogV>::empty());
        assert(headers.deep_view() =~= Seq::<(Seq<char>, Seq<Seq<char>>)>::empty());
    }
    let mut i: usize = 0;
    while i < file_logs.len()
        invariant
            i <= file_logs.len(),
            dv == file_logs.deep_view(),
            distinct_keys(headers.deep_view()),
            forall|c: Seq<char>| #![trigger has_key(headers.deep_view(), c)]
                has_key(headers.deep_view(), c) <==> doc_has_cat(dv.take(i as int), c),
            forall|c: Seq<char>| #![trigger lookup(headers.deep_view(), c)]
                doc_has_cat(dv.take(i as int), c) ==> lookup(headers.deep_view(), c) == header_of(
                    doc_first_record(dv.take(i as int), c),
                ),
            rows_list.len() == i,
            forall|j: int| 0 <= j < i ==> distinct_keys(#[trigger] rows_list.deep_view()[j]),
            forall|j: int, c: Seq<char>| #![trigger has_key(rows_list.deep_view()[j], c)]
                0 <= j < i ==> (has_key(rows_list.deep_view()[j], c) <==> logs_has_cat(
                    dv[j].logs,
                    c,
                )),
            forall|j: int, c: Seq<char>| #![trigger lookup(rows_list.deep_view()[j], c)]
                0 <= j < i && logs_has_cat(dv[j].logs, c) ==> lookup(rows_list.deep_view()[j], c)
                    == logs_rows_for(dv[j].name, dv[j].logs, c),
        decreases file_logs.len() - i,
    {
        let flog = &file_logs[i];
        let ghost pre_h = headers.deep_view();
        let ghost pre_list = rows_list.deep_view();
        let rows = convert_logs(flog.name.as_str(), &flog.logs, &mut headers);
        rows_list.push(rows);
        proof {
            assert(flog.deep_view() == dv[i as int]);
            assert(dv.take(i + 1).drop_last() =~= dv.take(i as int));
            assert(dv.take(i + 1).last() == dv[i as int]);
            assert(rows_list.deep_view() =~= pre_list.push(rows.deep_view()));
            assert forall|c: Seq<char>| #![trigger lookup(headers.deep_view(), c)]
                doc_has_cat(dv.take(i + 1), c) implies lookup(headers.deep_view(), c) == header_of(
                doc_first_record(dv.take(i + 1), c),
            ) by {
                if doc_has_cat(dv.take(i as int), c) {
                    assert(has_key(pre_h, c));
                } else {
                    assert(!has_key(pre_h, c));
                    assert(logs_has_cat(dv[i as int].logs, c));
                }
            }
        }
        i = i + 1;
    }
    proof {
        assert(dv.take(file_logs.len() as int) =~= dv);
    }
    (headers, rows_list)
}

/// One category's table: its column names and its accumulated rows.
pub struct Table {
    pub names: Vec<String>,
    pub rows: Vec<Vec<String>>,
}

impl DeepView for Table {
    type V = TableV;

    open spec fn deep_view(&self) -> TableV {
        TableV { names: self.names.deep_view(), rows: self.rows.deep_view() }
    }
}

/// The accumulated tables, keyed by category name.
pub type Tables = Vec<(String, Table)>;

impl Table {
    /// A table with the given column names and no rows yet.
    pub fn new(names: Vec<String>) -> (t: Table)
        ensures
            t.deep_view() == (TableV {
                names: names.deep_view(),
                rows: Seq::<Seq<Seq<char>>>::empty(),
            }),
    {
        let rows: Vec<Vec<String>> = Vec::new();
        let t = Table { names, rows };
        proof {
            assert(t.rows.deep_view() =~= Seq::<Seq<Seq<char>>>::empty());
        }
        t
    }

    /// Append the given rows, keeping their order, after the present ones.
    pub fn add_rows(&mut self, rows: Vec<Vec<String>>)
        ensures
            final(self).deep_view().names == old(self).deep_view().names,
            final(self).deep_view().rows == old(self).deep_view().rows + rows.deep_view(),
    {
        let ghost added = rows.deep_view();
        let mut rows = rows;
        self.rows.append(&mut rows);
        proof {
            assert(self.rows.deep_view() =~= old(self).rows.deep_view() + added);
        }
    }
}

/// One empty table per derived header, under the same category name.
pub fn make_tables(header: Headers) -> (r: Tables)
    requires
        distinct_keys(header.deep_view()),
    ensures
        distinct_keys(r.deep_view()),
        forall|c: Seq<char>| #![trigger has_key(r.deep_view(), c)]
            has_key(r.deep_view(), c) <==> has_key(header.deep_view(), c),
        forall|c: Seq<char>| #![trigger lookup(r.deep_view(), c)]
            has_key(header.deep_view(), c) ==> lookup(r.deep_view(), c) == (TableV {
                names: lookup(header.deep_view(), c),
                rows: Seq::<Seq<Seq<char>>>::empty(),
            }),
{
    let ghost h_all = header.deep_view();
    let mut header = header;
    let mut tables: Tables = Vec::new();
    let ghost n = h_all.len();
    proof {
        assert(header.deep_view() =~= h_all.skip(0));
    }
    while header.len() > 0
        invariant
            n == h_all.len(),
            tables.len() <= n,
            header.deep_view() =~= h_all.skip(tables.len() as int),
            forall|k: int| #![trigger tables.deep_view()[k]]
                0 <= k < tables.len() ==> tables.deep_view()[k].0 == h_all[k].0
                    && tables.deep_view()[k].1 == (TableV {
                    names: h_all[k].1,
                    rows: Seq::<Seq<Seq<char>>>::empty(),
                }),
        decreases header.len(),
    {
        let ghost pre_t = tables.deep_view();
        let ghost pre_vec = header@;
        let ghost pre_hd = header.deep_view();
        let ghost j = tables.len() as int;
        let entry = header.remove(0);
        tables.push((entry.0, Table::new(entry.1)));
        proof {
            assert(h_all.skip(j).len() == n - j);
            assert(h_all.skip(j)[0] == h_all[j]);
            assert forall|x: int| 0 <= x < header.deep_view().len() implies header.deep_view()[x]
                == pre_hd[x + 1] by {
                assert(header@[x] == pre_vec[x + 1]);
            }
            assert(header.deep_view() =~= h_all.skip(j + 1));
            assert(tables.deep_view() =~= pre_t.push(
                (h_all[j].0, TableV { names: h_all[j].1, rows: Seq::<Seq<Seq<char>>>::empty() }),
            ));
        }
    }
    proof {
        let t_dv = tables.deep_view();
        assert(t_dv.len() == n);
        assert forall|c: Seq<char>| #![trigger has_key(t_dv, c)] #![trigger lookup(t_dv, c)]
            (has_key(t_dv, c) <==> has_key(h_all, c)) && (has_key(h_all, c) ==> lookup(t_dv, c)
                == (TableV { names: lookup(h_all, c), rows: Seq::<Seq<Seq<char>>>::empty() })) by {
            if has_key(h_all, c) {
                let k = choose|k: int| 0 <= k < h_all.len() && h_all[k].0 == c;
                assert(forall|j: int| 0 <= j < k ==> h_all[j].0 != c);
                assert(t_dv[k].0 == c);
                assert(forall|j: int| 0 <= j < k ==> t_dv[j].0 != c);
                lemma_lookup_at(h_all, c, k);
                lemma_lookup_at(t_dv, c, k);
            }
            if has_key(t_dv, c) {
                let k = choose|k: int| 0 <= k < t_dv.len() && t_dv[k].0 == c;
                assert(h_all[k].0 == c);
            }
        }
    }
    tables
}

/// Move one file's rows into the matching tables, in file order. Every
/// category that contributed rows must already have its table.
pub fn append_rows(tables: Tables, rows: Rows) -> (r: Tables)
    requires
        distinct_keys(tables.deep_view()),
        distinct_keys(rows.deep_view()),
        forall|c: Seq<char>| has_key(rows.deep_view(), c) ==> #[trigger] has_key(
            tables.deep_view(),
            c,
        ),
    ensures
        distinct_keys(r.deep_view()),
        forall|c: Seq<char>| #![trigger has_key(r.deep_view(), c)]
            has_key(r.deep_view(), c) <==> has_key(tables.deep_view(), c),
        forall|c: Seq<char>| #![trigger lookup(r.deep_view(), c)]
            has_key(tables.deep_view(), c) ==> lookup(r.deep_view(), c).names == lookup(
                tables.deep_view(),
                c,
            ).names && lookup(r.deep_view(), c).rows == lookup(tables.deep_view(), c).rows
                + map_rows_for(rows.deep_view(), c),
{
    let ghost t0 = tables.deep_view();
    let ghost r_all = rows.deep_view();
    let mut tables = tables;
    let mut rows = rows;
    let ghost mut k: int = 0;
    let ghost n = r_all.len();
    proof {
        assert(rows.deep_view() =~= r_all.skip(0));
        assert(r_all.take(0) =~= Seq::<(Seq<char>, Seq<Seq<Seq<char>>>)>::empty());
    }
    while rows.len() > 0
        invariant
            n == r_all.len(),
            0 <= k <= n,
            rows.deep_view() =~= r_all.skip(k as int),
            distinct_keys(r_all),
            distinct_keys(tables.deep_view()),
            forall|c: Seq<char>| has_key(r_all, c) ==> #[trigger] has_key(t0, c),
            forall|c: Seq<char>| #![trigger has_key(tables.deep_view(), c)]
                has_key(tables.deep_view(), c) <==> has_key(t0, c),
            forall|c: Seq<char>| #![trigger lookup(tables.deep_view(), c)]
                has_key(t0, c) ==> lookup(tables.deep_view(), c).names == lookup(t0, c).names
                    && lookup(tables.deep_view(), c).rows == lookup(t0, c).rows + map_rows_for(
                    r_all.take(k as int),
                    c,
                ),
        decreases rows.len(),
    {
        proof {
            assert(rows.deep_view().len() == rows@.len());
            assert(rows.deep_view().len() == r_all.skip(k as int).len());
            assert(r_all.skip(k as int).len() == r_all.len() - k);
            assert(k < n);
            assert(r_all.skip(k as int)[0] == r_all[k as int]);
            assert(has_key(r_all, r_all[k as int].0)) by {
                assert(r_all[k as int].0 == r_all[k as int].0);
            }
        }
        let ghost pre_t = tables.deep_view();
        let ghost pre_vec = rows@;
        let ghost pre_rd = rows.deep_view();
        let entry = rows.remove(0);
        let found = find_key(&tables, &entry.0);
        let i = match found {
            Some(i) => i,
            None => {
                proof {
                    assert(has_key(t0, r_all[k as int].0));
                }
                unreached()
            },
        };
        let mut tentry = tables.remove(i);
        tentry.1.add_rows(entry.1);
        tables.insert(i, tentry);
        proof {
            let c0 = r_all[k as int].0;
            assert forall|x: int| 0 <= x < rows.deep_view().len() implies rows.deep_view()[x]
                == pre_rd[x + 1] by {
                assert(rows@[x] == pre_vec[x + 1]);
            }
            assert(rows.deep_view() =~= r_all.skip(k + 1));
            lemma_lookup_at(pre_t, c0, i as int);
            let newv = TableV {
                names: lookup(pre_t, c0).names,
                rows: lookup(pre_t, c0).rows + r_all[k as int].1,
            };
            assert(tables.deep_view() =~= pre_t.update(i as int, (c0, newv)));
            assert(r_all.take(k + 1).drop_last() =~= r_all.take(k as int));
            assert(r_all.take(k + 1).last() == r_all[k as int]);
            assert(!has_key(r_all.take(k as int), c0)) by {
                if has_key(r_all.take(k as int), c0) {
                    let j = choose|j: int|
                        0 <= j < r_all.take(k as int).len() && r_all.take(k as int)[j].0 == c0;
                    assert(r_all[j].0 == c0);
                }
            }
            lemma_lookup_at(r_all, c0, k as int);
            assert forall|c: Seq<char>| #![trigger has_key(tables.deep_view(), c)]
                #![trigger lookup(tables.deep_view(), c)]
                (has_key(tables.deep_view(), c) <==> has_key(pre_t, c)) && (has_key(t0, c)
                    ==> lookup(tables.deep_view(), c) == (if c == c0 {
                    newv
                } else {
                    lookup(pre_t, c)
                })) by {
                lemma_lookup_update(pre_t, i as int, newv, c);
            }
            assert forall|c: Seq<char>| has_key(t0, c) implies #[trigger] lookup(
                tables.deep_view(),
                c,
            ).rows == lookup(t0, c).rows + map_rows_for(r_all.take(k + 1), c) by {
                if c == c0 {
                    assert(has_key(r_all.take(k + 1), c)) by {
                        assert(r_all.take(k + 1)[k as int].0 == c);
                    }
                    lemma_lookup_at(r_all.take(k + 1), c, k as int);
                    assert(map_rows_for(r_all.take(k + 1), c) == r_all[k as int].1);
                    assert(lookup(t0, c).rows + map_rows_for(r_all.take(k as int), c)
                        + r_all[k as int].1 =~= lookup(t0, c).rows + map_rows_for(
                        r_all.take(k + 1),
                        c,
                    ));
                } else {
                    assert(map_rows_for(r_all.take(k + 1), c) =~= map_rows_for(
                        r_all.take(k as int),
                        c,
                    )) by {
                        if has_key(r_all.take(k as int), c) {
                            lemma_lookup_take(r_all.take(k + 1), c, k as int);
                            assert(r_all.take(k + 1).take(k as int) =~= r_all.take(k as int));
                        } else {
                            if has_key(r_all.take(k + 1), c) {
                                let j = choose|j: int|
                                    0 <= j < k + 1 && (#[trigger] r_all.take(k + 1)[j]).0 == c;
                                assert(r_all.take(k as int)[j].0 == c);
                            }
                        }
                    }
                }
            }
        }
        proof {
            k = k + 1;
        }
    }
    proof {
        assert(rows.deep_view().len() == rows@.len());
        assert(k == n);
        assert(r_all.take(n as int) =~= r_all);
    }
    tables
}

/// Fold every file's rows into the tables, in file order.
pub fn fill_tables(tables: Tables, rows: Vec<Rows>) -> (r: Tables)
    requires
        distinct_keys(tables.deep_view()),
        forall|i: int| 0 <= i < rows.len() ==> distinct_keys(#[trigger] rows.deep_view()[i]),
        forall|i: int, c: Seq<char>|
            0 <= i < rows.len() && #[trigger] has_key(rows.deep_view()[i], c) ==> has_key(
                tables.deep_view(),
                c,
            ),
    ensures
        distinct_keys(r.deep_view()),
        forall|c: Seq<char>| #![trigger has_key(r.deep_view(), c)]
            has_key(r.deep_view(), c) <==> has_key(tables.deep_view(), c),
        forall|c: Seq<char>| #![trigger lookup(r.deep_view(), c)]
            has_key(tables.deep_view(), c) ==> lookup(r.deep_view(), c).names == lookup(
                tables.deep_view(),
                c,
            ).names && lookup(r.deep_view(), c).rows == lookup(tables.deep_view(), c).rows
                + all_rows_for(rows.deep_view(), c),
{
    let ghost t0 = tables.deep_view();
    let ghost rv_all = rows.deep_view();
    let mut tables = tables;
    let mut rows = rows;
    let ghost mut k: int = 0;
    let ghost n = rv_all.len();
    proof {
        assert(rows.deep_view() =~= rv_all.skip(0));
        assert(rv_all.take(0) =~= Seq::<Seq<(Seq<char>, Seq<Seq<Seq<char>>>)>>::empty());
    }
    while rows.len() > 0
        invariant
            n == rv_all.len(),
            0 <= k <= n,
            rows.deep_view() =~= rv_all.skip(k),
            forall|i: int| 0 <= i < n ==> distinct_keys(#[trigger] rv_all[i]),
            forall|i: int, c: Seq<char>|
                0 <= i < n && #[trigger] has_key(rv_all[i], c) ==> has_key(t0, c),
            distinct_keys(tables.deep_view()),
            forall|c: Seq<char>| #![trigger has_key(tables.deep_view(), c)]
                has_key(tables.deep_view(), c) <==> has_key(t0, c),
            forall|c: Seq<char>| #![trigger lookup(tables.deep_view(), c)]
                has_key(t0, c) ==> lookup(tables.deep_view(), c).names == lookup(t0, c).names
                    && lookup(tables.deep_view(), c).rows == lookup(t0, c).rows + all_rows_for(
                    rv_all.take(k),
                    c,
                ),
        decreases rows.len(),
    {
        proof {
            assert(rows.deep_view().len() == rows@.len());
            assert(k < n);
            assert(rows.deep_view()[0] == rv_all[k]);
        }
        let ghost pre_t = tables.deep_view();
        let ghost pre_vec = rows@;
        let ghost pre_rd = rows.deep_view();
        let entry = rows.remove(0);
        proof {
            assert(entry.deep_view() == rv_all[k]);
            assert forall|c: Seq<char>| has_key(entry.deep_view(), c) implies has_key(
                pre_t,
                c,
            ) by {
                assert(has_key(rv_all[k], c));
            }
        }
        let next = append_rows(tables, entry);
        tables = next;
        proof {
            assert forall|x: int| 0 <= x < rows.deep_view().len() implies rows.deep_view()[x]
                == pre_rd[x + 1] by {
                assert(rows@[x] == pre_vec[x + 1]);
            }
            assert(rows.deep_view() =~= rv_all.skip(k + 1));
            assert(rv_all.take(k + 1).drop_last() =~= rv_all.take(k));
            assert(rv_all.take(k + 1).last() == rv_all[k]);
            assert forall|c: Seq<char>| has_key(t0, c) implies #[trigger] lookup(
                tables.deep_view(),
                c,
            ).rows == lookup(t0, c).rows + all_rows_for(rv_all.take(k + 1), c) by {
                assert(lookup(tables.deep_view(), c).rows == lookup(pre_t, c).rows + map_rows_for(
                    rv_all[k],
                    c,
                ));
                assert(lookup(t0, c).rows + all_rows_for(rv_all.take(k), c) + map_rows_for(
                    rv_all[k],
                    c,
                ) =~= lookup(t0, c).rows + all_rows_for(rv_all.take(k + 1), c));
            }
            k = k + 1;
        }
    }
    proof {
        assert(rows.deep_view().len() == rows@.len());
        assert(k == n);
        assert(rv_all.take(n as int) =~= rv_all);
    }
    tables
}

/// The finished per-category tables, ready to be serialized.
pub struct ExportTable {
    pub tables: Tables,
}

/// Build every category's table from a parsed document: one table per
/// category appearing in it, its header derived from the category's first
/// record in document order, its rows the projections of all the category's
/// records, in source-file-then-record encounter order.
pub fn logs_to_tables(file_logs: &Vec<SourceFileLog>) -> (r: ExportTable)
    ensures
        distinct_keys(r.tables.deep_view()),
        forall|c: Seq<char>| #![trigger has_key(r.tables.deep_view(), c)]
            has_key(r.tables.deep_view(), c) <==> doc_has_cat(file_logs.deep_view(), c),
        forall|c: Seq<char>| #![trigger lookup(r.tables.deep_view(), c)]
            doc_has_cat(file_logs.deep_view(), c) ==> lookup(r.tables.deep_view(), c).names
                == header_of(doc_first_record(file_logs.deep_view(), c)) && lookup(
                r.tables.deep_view(),
                c,
            ).rows == doc_rows_for(file_logs.deep_view(), c),
{
    let ghost dv = file_logs.deep_view();
    let pair = make_headers_and_rows(file_logs);
    let headers = pair.0;
    let rows = pair.1;
    let ghost h_dv = headers.deep_view();
    let ghost rs_dv = rows.deep_view();
    proof {
        assert forall|i: int, c: Seq<char>|
            0 <= i < rows.len() && #[trigger] has_key(rows.deep_view()[i], c) implies has_key(
            h_dv,
            c,
        ) by {
            lemma_file_cat_doc(dv, i, c);
        }
    }
    let tables = make_tables(headers);
    let ghost t1 = tables.deep_view();
    let tables = fill_tables(tables, rows);
    proof {
        assert forall|c: Seq<char>| #![trigger lookup(tables.deep_view(), c)]
            doc_has_cat(dv, c) implies lookup(tables.deep_view(), c).names == header_of(
            doc_first_record(dv, c),
        ) && lookup(tables.deep_view(), c).rows == doc_rows_for(dv, c) by {
            lemma_all_rows_match(rs_dv, dv, c);
            assert(lookup(t1, c).rows + doc_rows_for(dv, c) =~= doc_rows_for(dv, c));
        }
    }
    ExportTable { tables }
}

} // verus!
