//! The laws the pipeline obeys, stated and proved over the document model
//! that the functions' contracts speak of.

use vstd::prelude::*;
use crate::model::{
    doc_cat_count, doc_first_record, doc_has_cat, doc_rows_for, header_of, logs_cat_count,
    logs_rows_for, FileLogV, RecordV,
};

verus! {

/// Header derivation is first-wins: once a document holds a category, a file
/// appended later never changes that category's first record, so the header
/// derived for it stays what the first record in document order gave it.
pub proof fn lemma_header_first_wins(doc: Seq<FileLogV>, later: FileLogV, c: Seq<char>)
    requires
        doc_has_cat(doc, c),
    ensures
        doc_has_cat(doc.push(later), c),
        doc_first_record(doc.push(later), c) == doc_first_record(doc, c),
        header_of(doc_first_record(doc.push(later), c)) == header_of(doc_first_record(doc, c)),
{
    assert(doc.push(later).drop_last() =~= doc);
}

/// One file's contribution to a category holds as many rows as the file has
/// records of that category.
pub proof fn lemma_logs_row_count(file: Seq<char>, logs: Seq<RecordV>, c: Seq<char>)
    ensures
        logs_rows_for(file, logs, c).len() == logs_cat_count(logs, c),
    decreases logs.len(),
{
    if logs.len() == 0 {
    } else {
        lemma_logs_row_count(file, logs.drop_last(), c);
    }
}

/// Each category's row count equals the number of records of that category
/// across all source files of the document.
pub proof fn lemma_row_count(doc: Seq<FileLogV>, c: Seq<char>)
    ensures
        doc_rows_for(doc, c).len() == doc_cat_count(doc, c),
    decreases doc.len(),
{
    if doc.len() == 0 {
    } else {
        lemma_row_count(doc.drop_last(), c);
        lemma_logs_row_count(doc.last().name, doc.last().logs, c);
    }
}

/// Files contributing the same category accumulate into one table: the rows
/// of a document split into two runs of files are the first run's rows
/// followed by the second run's, in order.
pub proof fn lemma_rows_accumulate(d1: Seq<FileLogV>, d2: Seq<FileLogV>, c: Seq<char>)
    ensures
        doc_rows_for(d1 + d2, c) == doc_rows_for(d1, c) + doc_rows_for(d2, c),
    decreases d2.len(),
{
    if d2.len() == 0 {
        assert(d1 + d2 =~= d1);
        assert(doc_rows_for(d1, c) + doc_rows_for(d2, c) =~= doc_rows_for(d1, c));
    } else {
        lemma_rows_accumulate(d1, d2.drop_last(), c);
        assert((d1 + d2).drop_last() =~= d1 + d2.drop_last());
        assert((d1 + d2).last() == d2.last());
        assert(doc_rows_for(d1, c) + doc_rows_for(d2.drop_last(), c) + logs_rows_for(
            d2.last().name,
            d2.last().logs,
            c,
        ) =~= doc_rows_for(d1, c) + doc_rows_for(d2, c));
    }
}

/// A source file with an empty log contributes no category, changes no
/// category's first record, and adds no rows.
pub proof fn lemma_empty_file_no_effect(doc: Seq<FileLogV>, f: FileLogV, c: Seq<char>)
    requires
        f.logs.len() == 0,
    ensures
        doc_has_cat(doc.push(f), c) == doc_has_cat(doc, c),
        doc_has_cat(doc, c) ==> doc_first_record(doc.push(f), c) == doc_first_record(doc, c),
        doc_rows_for(doc.push(f), c) == doc_rows_for(doc, c),
{
    assert(doc.push(f).drop_last() =~= doc);
    assert(doc_rows_for(doc, c) + logs_rows_for(f.name, f.logs, c) =~= doc_rows_for(doc, c));
}

} // verus!
