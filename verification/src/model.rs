//! The mathematical model: ghost mirrors of the record types, the spec-level
//! header and row of a record, the rows a whole document contributes to a
//! category, and a first-match association list with its lemmas.

use vstd::prelude::*;

verus! {

/// Ghost mirror of one key/value update.
pub ghost struct UpdateV {
    pub key: Seq<char>,
    pub value: Seq<char>,
}

/// Ghost mirror of one update record.
pub ghost struct RecordV {
    pub name: Seq<char>,
    pub old: Seq<UpdateV>,
    pub new: Seq<UpdateV>,
    pub info: Seq<UpdateV>,
}

/// Ghost mirror of one source file's log.
pub ghost struct FileLogV {
    pub name: Seq<char>,
    pub logs: Seq<RecordV>,
}

/// Ghost mirror of one category's table.
pub ghost struct TableV {
    pub names: Seq<Seq<char>>,
    pub rows: Seq<Seq<Seq<char>>>,
}

// ---------------------------------------------------------------------------
// Header and row of a single record
// ---------------------------------------------------------------------------

/// The two header columns contributed by each `old` entry: `old_<key>` and
/// `new_<key>`, the key always taken from the `old` entry.
pub open spec fn old_cols(old: Seq<UpdateV>) -> Seq<Seq<char>>
    decreases old.len(),
{
    if old.len() == 0 {
        Seq::empty()
    } else {
        old_cols(old.drop_last()) + seq!["old_"@ + old.last().key, "new_"@ + old.last().key]
    }
}

/// The header columns contributed by the `info` entries: the bare keys.
pub open spec fn info_keys(info: Seq<UpdateV>) -> Seq<Seq<char>> {
    info.map_values(|u: UpdateV| u.key)
}

/// The column header derived from one record: a leading `file-name` column,
/// then an `old_`/`new_` pair per `old` entry, then one column per `info` key.
pub open spec fn header_of(r: RecordV) -> Seq<Seq<char>> {
    seq!["file-name"@] + old_cols(r.old) + info_keys(r.info)
}

/// How many `old`/`new` pairs a record yields: pairing stops at the shorter
/// of the two sequences.
pub open spec fn pair_count(old: Seq<UpdateV>, new: Seq<UpdateV>) -> int {
    if old.len() <= new.len() {
        old.len() as int
    } else {
        new.len() as int
    }
}

/// The interleaved values of positionally paired `old`/`new` entries of equal
/// length: old value, then new value, for each position in order.
pub open spec fn zip_values(old: Seq<UpdateV>, new: Seq<UpdateV>) -> Seq<Seq<char>>
    recommends
        old.len() == new.len(),
    decreases old.len(),
{
    if old.len() == 0 || new.len() == 0 {
        Seq::empty()
    } else {
        zip_values(old.drop_last(), new.drop_last()) + seq![old.last().value, new.last().value]
    }
}

/// The paired values of a record, truncated to the shorter of `old`/`new`.
pub open spec fn paired_values(old: Seq<UpdateV>, new: Seq<UpdateV>) -> Seq<Seq<char>> {
    zip_values(old.take(pair_count(old, new)), new.take(pair_count(old, new)))
}

/// The values contributed by the `info` entries.
pub open spec fn info_values(info: Seq<UpdateV>) -> Seq<Seq<char>> {
    info.map_values(|u: UpdateV| u.value)
}

/// The projected row of one record: the source-file name, the paired
/// `old`/`new` values, then the `info` values.
pub open spec fn row_of(file: Seq<char>, r: RecordV) -> Seq<Seq<char>> {
    seq![file] + paired_values(r.old, r.new) + info_values(r.info)
}

// ---------------------------------------------------------------------------
// Categories, first records, and accumulated rows
// ---------------------------------------------------------------------------

/// Whether some record in `logs` has category `c`.
pub open spec fn logs_has_cat(logs: Seq<RecordV>, c: Seq<char>) -> bool
    decreases logs.len(),
{
    if logs.len() == 0 {
        false
    } else {
        logs_has_cat(logs.drop_last(), c) || logs.last().name == c
    }
}

/// The first record in `logs` whose category is `c`.
pub open spec fn logs_first_record(logs: Seq<RecordV>, c: Seq<char>) -> RecordV
    recommends
        logs_has_cat(logs, c),
    decreases logs.len(),
{
    if logs.len() == 0 {
        arbitrary()
    } else if logs_has_cat(logs.drop_last(), c) {
        logs_first_record(logs.drop_last(), c)
    } else {
        logs.last()
    }
}

/// The rows that `logs` of source file `file` contribute to category `c`,
/// in record order.
pub open spec fn logs_rows_for(file: Seq<char>, logs: Seq<RecordV>, c: Seq<char>) -> Seq<
    Seq<Seq<char>>,
>
    decreases logs.len(),
{
    if logs.len() == 0 {
        Seq::empty()
    } else {
        logs_rows_for(file, logs.drop_last(), c) + if logs.last().name == c {
            seq![row_of(file, logs.last())]
        } else {
            Seq::empty()
        }
    }
}

/// Whether some record anywhere in the document has category `c`.
pub open spec fn doc_has_cat(doc: Seq<FileLogV>, c: Seq<char>) -> bool
    decreases doc.len(),
{
    if doc.len() == 0 {
        false
    } else {
        doc_has_cat(doc.drop_last(), c) || logs_has_cat(doc.last().logs, c)
    }
}

/// The first record of category `c` in document order.
pub open spec fn doc_first_record(doc: Seq<FileLogV>, c: Seq<char>) -> RecordV
    recommends
        doc_has_cat(doc, c),
    decreases doc.len(),
{
    if doc.len() == 0 {
        arbitrary()
    } else if doc_has_cat(doc.drop_last(), c) {
        doc_first_record(doc.drop_last(), c)
    } else {
        logs_first_record(doc.last().logs, c)
    }
}

/// All rows the document contributes to category `c`, in
/// source-file-then-record encounter order.
pub open spec fn doc_rows_for(doc: Seq<FileLogV>, c: Seq<char>) -> Seq<Seq<Seq<char>>>
    decreases doc.len(),
{
    if doc.len() == 0 {
        Seq::empty()
    } else {
        doc_rows_for(doc.drop_last(), c) + logs_rows_for(
            doc.last().name,
            doc.last().logs,
            c,
        )
    }
}

/// How many records of category `c` the document holds.
pub open spec fn doc_cat_count(doc: Seq<FileLogV>, c: Seq<char>) -> int
    decreases doc.len(),
{
    if doc.len() == 0 {
        0int
    } else {
        doc_cat_count(doc.drop_last(), c) + logs_cat_count(doc.last().logs, c)
    }
}

/// How many records of category `c` one file's log holds.
pub open spec fn logs_cat_count(logs: Seq<RecordV>, c: Seq<char>) -> int
    decreases logs.len(),
{
    if logs.len() == 0 {
        0int
    } else {
        logs_cat_count(logs.drop_last(), c) + if logs.last().name == c {
            1int
        } else {
            0int
        }
    }
}

// ---------------------------------------------------------------------------
// First-match association lists keyed by category name
// ---------------------------------------------------------------------------

/// Whether the association list holds key `c`.
pub open spec fn has_key<X>(m: Seq<(Seq<char>, X)>, c: Seq<char>) -> bool {
    exists|i: int| 0 <= i < m.len() && m[i].0 == c
}

/// The value at the first entry whose key is `c`.
pub open spec fn lookup<X>(m: Seq<(Seq<char>, X)>, c: Seq<char>) -> X
    recommends
        has_key(m, c),
    decreases m.len(),
{
    if m.len() == 0 {
        arbitrary()
    } else if m.first().0 == c {
        m.first().1
    } else {
        lookup(m.drop_first(), c)
    }
}

/// No two entries share a key.
pub open spec fn distinct_keys<X>(m: Seq<(Seq<char>, X)>) -> bool {
    forall|i: int, j: int| 0 <= i < j < m.len() ==> m[i].0 != m[j].0
}

/// The rows one per-file row map contributes to category `c`.
pub open spec fn map_rows_for(m: Seq<(Seq<char>, Seq<Seq<Seq<char>>>)>, c: Seq<char>) -> Seq<
    Seq<Seq<char>>,
> {
    if has_key(m, c) {
        lookup(m, c)
    } else {
        Seq::empty()
    }
}

/// The rows a sequence of per-file row maps contributes to category `c`,
/// in file order.
pub open spec fn all_rows_for(
    ms: Seq<Seq<(Seq<char>, Seq<Seq<Seq<char>>>)>>,
    c: Seq<char>,
) -> Seq<Seq<Seq<char>>>
    decreases ms.len(),
{
    if ms.len() == 0 {
        Seq::empty()
    } else {
        all_rows_for(ms.drop_last(), c) + map_rows_for(ms.last(), c)
    }
}

/// A category found in one file's log is found in the document.
pub proof fn lemma_file_cat_doc(doc: Seq<FileLogV>, i: int, c: Seq<char>)
    requires
        0 <= i < doc.len(),
        logs_has_cat(doc[i].logs, c),
    ensures
        doc_has_cat(doc, c),
    decreases doc.len(),
{
    if i == doc.len() - 1 {
    } else {
        lemma_file_cat_doc(doc.drop_last(), i, c);
    }
}

/// Per-file row maps that agree with the document yield, concatenated in
/// file order, exactly the rows the document contributes to a category.
pub proof fn lemma_all_rows_match(
    rs: Seq<Seq<(Seq<char>, Seq<Seq<Seq<char>>>)>>,
    doc: Seq<FileLogV>,
    c: Seq<char>,
)
    requires
        rs.len() == doc.len(),
        forall|i: int|
            0 <= i < doc.len() ==> (has_key(#[trigger] rs[i], c) <==> logs_has_cat(
                doc[i].logs,
                c,
            )),
        forall|i: int|
            0 <= i < doc.len() && logs_has_cat(doc[i].logs, c) ==> lookup(#[trigger] rs[i], c)
                == logs_rows_for(doc[i].name, doc[i].logs, c),
    ensures
        all_rows_for(rs, c) == doc_rows_for(doc, c),
    decreases rs.len(),
{
    if rs.len() == 0 {
        assert(all_rows_for(rs, c) =~= doc_rows_for(doc, c));
    } else {
        assert(forall|i: int| 0 <= i < doc.len() - 1 ==> #[trigger] rs.drop_last()[i] == rs[i]);
        assert(forall|i: int|
            0 <= i < doc.len() - 1 ==> #[trigger] doc.drop_last()[i] == doc[i]);
        lemma_all_rows_match(rs.drop_last(), doc.drop_last(), c);
        if !logs_has_cat(doc.last().logs, c) {
            lemma_no_cat_no_rows(doc.last().name, doc.last().logs, c);
        }
        assert(all_rows_for(rs, c) =~= doc_rows_for(doc, c));
    }
}

/// A log without records of category `c` contributes no rows to it.
pub proof fn lemma_no_cat_no_rows(file: Seq<char>, logs: Seq<RecordV>, c: Seq<char>)
    requires
        !logs_has_cat(logs, c),
    ensures
        logs_rows_for(file, logs, c) == Seq::<Seq<Seq<char>>>::empty(),
    decreases logs.len(),
{
    if logs.len() == 0 {
        assert(logs_rows_for(file, logs, c) =~= Seq::<Seq<Seq<char>>>::empty());
    } else {
        lemma_no_cat_no_rows(file, logs.drop_last(), c);
        assert(logs_rows_for(file, logs, c) =~= Seq::<Seq<Seq<char>>>::empty());
    }
}

/// What deriving a header does to the header list: the first record of a
/// category wins, later records of the same category change nothing.
pub open spec fn spec_insert_header(
    h: Seq<(Seq<char>, Seq<Seq<char>>)>,
    r: RecordV,
) -> Seq<(Seq<char>, Seq<Seq<char>>)> {
    if has_key(h, r.name) {
        h
    } else {
        h.push((r.name, header_of(r)))
    }
}

/// Looking a key up after pushing one entry: an existing key keeps its value,
/// the pushed key gains the pushed value.
pub proof fn lemma_lookup_push<X>(m: Seq<(Seq<char>, X)>, e: (Seq<char>, X), c: Seq<char>)
    ensures
        has_key(m.push(e), c) <==> (has_key(m, c) || e.0 == c),
        has_key(m, c) ==> lookup(m.push(e), c) == lookup(m, c),
        !has_key(m, c) && e.0 == c ==> lookup(m.push(e), c) == e.1,
    decreases m.len(),
{
    if has_key(m.push(e), c) {
        let i = choose|i: int| 0 <= i < m.push(e).len() && m.push(e)[i].0 == c;
        if i < m.len() {
            assert(m[i].0 == c);
        }
    }
    if has_key(m, c) || e.0 == c {
        if has_key(m, c) {
            let i = choose|i: int| 0 <= i < m.len() && m[i].0 == c;
            assert(m.push(e)[i].0 == c);
        } else {
            assert(m.push(e)[m.len() as int].0 == c);
        }
    }
    if m.len() == 0 {
        assert(m.push(e).drop_first() =~= Seq::empty());
    } else {
        assert(m.push(e).drop_first() =~= m.drop_first().push(e));
        lemma_lookup_push(m.drop_first(), e, c);
        if has_key(m, c) && m.first().0 != c {
            let i = choose|i: int| 0 <= i < m.len() && m[i].0 == c;
            assert(m.drop_first()[i - 1].0 == c);
        }
        if has_key(m.drop_first(), c) {
            let i = choose|i: int| 0 <= i < m.drop_first().len() && m.drop_first()[i].0 == c;
            assert(m[i + 1].0 == c);
        }
    }
}

/// Looking a key up at its first matching index.
pub proof fn lemma_lookup_at<X>(m: Seq<(Seq<char>, X)>, c: Seq<char>, i: int)
    requires
        0 <= i < m.len(),
        m[i].0 == c,
        forall|j: int| 0 <= j < i ==> m[j].0 != c,
    ensures
        has_key(m, c),
        lookup(m, c) == m[i].1,
    decreases m.len(),
{
    if i == 0 {
    } else {
        assert(forall|j: int| 0 <= j < i - 1 ==> m.drop_first()[j].0 != c);
        lemma_lookup_at(m.drop_first(), c, i - 1);
    }
}

/// Looking a key up after updating the entry at some other or the same index.
pub proof fn lemma_lookup_update<X>(m: Seq<(Seq<char>, X)>, i: int, x: X, c: Seq<char>)
    requires
        0 <= i < m.len(),
    ensures
        has_key(m.update(i, (m[i].0, x)), c) <==> has_key(m, c),
        distinct_keys(m) ==> distinct_keys(m.update(i, (m[i].0, x))),
        distinct_keys(m) && c == m[i].0 ==> lookup(m.update(i, (m[i].0, x)), c) == x,
        distinct_keys(m) && has_key(m, c) && c != m[i].0 ==> lookup(m.update(i, (m[i].0, x)), c)
            == lookup(m, c),
{
    let m2 = m.update(i, (m[i].0, x));
    assert(forall|j: int| 0 <= j < m.len() ==> m2[j].0 == m[j].0);
    if has_key(m, c) {
        let k = choose|k: int| 0 <= k < m.len() && m[k].0 == c;
        assert(m2[k].0 == c);
    }
    if has_key(m2, c) {
        let k = choose|k: int| 0 <= k < m2.len() && m2[k].0 == c;
        assert(m[k].0 == c);
    }
    if distinct_keys(m) {
        if c == m[i].0 {
            assert(forall|j: int| 0 <= j < i ==> m2[j].0 != c);
            lemma_lookup_at(m2, c, i);
        } else if has_key(m, c) {
            let k = choose|k: int| 0 <= k < m.len() && m[k].0 == c;
            assert(forall|j: int| 0 <= j < k ==> m[j].0 != c);
            lemma_lookup_at(m, c, k);
            assert(forall|j: int| 0 <= j < k ==> m2[j].0 != c);
            lemma_lookup_at(m2, c, k);
        }
    }
}

/// A key found in a prefix is found in the whole list, with the same value.
pub proof fn lemma_lookup_take<X>(m: Seq<(Seq<char>, X)>, c: Seq<char>, k: int)
    requires
        0 <= k <= m.len(),
        has_key(m.take(k), c),
    ensures
        has_key(m, c),
        lookup(m, c) == lookup(m.take(k), c),
    decreases k,
{
    let i = choose|i: int| 0 <= i < m.take(k).len() && m.take(k)[i].0 == c;
    assert(m[i].0 == c);
    if m.first().0 == c {
        assert(m.take(k).first().0 == c);
    } else {
        assert(m.take(k).first().0 != c);
        assert(m.take(k).drop_first() =~= m.drop_first().take(k - 1));
        assert(m.drop_first().take(k - 1)[i - 1].0 == c);
        lemma_lookup_take(m.drop_first(), c, k - 1);
    }
}

} // verus!
