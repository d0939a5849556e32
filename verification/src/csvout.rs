//! Serializing finished tables to CSV: one named byte buffer per category,
//! the header line first, then every row in accumulation order.

use vstd::prelude::*;
use vstd::string::StringExecFns;
use crate::model::TableV;
use crate::tables::{ExportTable, Table};

verus! {

/// The one CSV line that the `csv` crate's writer produces for one record of
/// string fields, under its default configuration.
pub uninterp spec fn csv_line_of(fields: Seq<Seq<char>>) -> Seq<u8>;

/// Relies on csv::Writer::write_record and csv::Writer::into_inner, under the
/// default writer configuration and an in-memory sink: writing one record
/// produces one comma-separated line, quoted where a field needs it and ended
/// by the line terminator, a function of the field strings alone.
#[verifier::external_body]
fn csv_line(fields: &Vec<String>) -> (r: Vec<u8>)
    ensures
        r@ == csv_line_of(fields.deep_view()),
{
    let mut writer = csv::Writer::from_writer(Vec::new());
    writer
        .write_record(fields.iter().map(|f| f.as_bytes()))
        .expect("writing one record to an in-memory buffer cannot fail");
    writer.into_inner().expect("flushing an in-memory buffer cannot fail")
}

/// The CSV lines of a table's rows, in order.
pub open spec fn csv_rows_of(rows: Seq<Seq<Seq<char>>>) -> Seq<u8>
    decreases rows.len(),
{
    if rows.len() == 0 {
        Seq::empty()
    } else {
        csv_rows_of(rows.drop_last()) + csv_line_of(rows.last())
    }
}

/// The whole CSV document of one table: the header line, then the row lines.
pub open spec fn csv_table_of(t: TableV) -> Seq<u8> {
    csv_line_of(t.names) + csv_rows_of(t.rows)
}

impl Table {
    /// The table serialized as CSV bytes: header line first, then each row
    /// in accumulation order.
    pub fn csv_bytes(&self) -> (r: Vec<u8>)
        ensures
            r@ == csv_table_of(self.deep_view()),
    {
        let ghost tv = self.deep_view();
        let mut out = csv_line(&self.names);
        let mut i: usize = 0;
        while i < self.rows.len()
            invariant
                i <= self.rows.len(),
                tv == self.deep_view(),
                out@ =~= csv_line_of(tv.names) + csv_rows_of(tv.rows.take(i as int)),
            decreases self.rows.len() - i,
        {
            let ghost pre = out@;
            let mut line = csv_line(&self.rows[i]);
            out.append(&mut line);
            proof {
                assert(tv.rows.take(i + 1).drop_last() =~= tv.rows.take(i as int));
                assert(tv.rows.take(i + 1).last() == tv.rows[i as int]);
                assert(out@ =~= pre + csv_line_of(tv.rows[i as int]));
            }
            i = i + 1;
        }
        assert(tv.rows.take(self.rows.len() as int) =~= tv.rows);
        out
    }
}

/// The file name and CSV bytes of one category's table: the category name
/// with a `.csv` suffix, and the serialized table.
pub fn export_table(name: &String, table: &Table) -> (r: (String, Vec<u8>))
    ensures
        r.0@ == name@ + ".csv"@,
        r.1@ == csv_table_of(table.deep_view()),
{
    let mut file_name = name.clone();
    file_name.append(".csv");
    let bytes = table.csv_bytes();
    (file_name, bytes)
}

impl ExportTable {
    /// Serialize every table: one `<category>.csv` name and byte buffer per
    /// table, in the tables' order.
    pub fn export_csv(&self) -> (r: Vec<(String, Vec<u8>)>)
        ensures
            r@.len() == self.tables@.len(),
            forall|i: int|
                0 <= i < r@.len() ==> (#[trigger] r.deep_view()[i]).0
                    == self.tables.deep_view()[i].0 + ".csv"@ && r.deep_view()[i].1 == csv_table_of(
                    self.tables.deep_view()[i].1,
                ),
    {
        let mut out: Vec<(String, Vec<u8>)> = Vec::new();
        let mut i: usize = 0;
        while i < self.tables.len()
            invariant
                i <= self.tables.len(),
                out@.len() == i,
                forall|j: int|
                    0 <= j < i ==> (#[trigger] out.deep_view()[j]).0
                        == self.tables.deep_view()[j].0 + ".csv"@ && out.deep_view()[j].1
                        == csv_table_of(self.tables.deep_view()[j].1),
            decreases self.tables.len() - i,
        {
            let ghost pre = out.deep_view();
            let entry = &self.tables[i];
            let named = export_table(&entry.0, &entry.1);
            proof {
                assert(named.1.deep_view() =~= named.1@);
            }
            out.push(named);
            proof {
                assert(out.deep_view() =~= pre.push(
                    (self.tables.deep_view()[i as int].0 + ".csv"@, csv_table_of(
                        self.tables.deep_view()[i as int].1,
                    )),
                ));
            }
            i = i + 1;
        }
        out
    }
}

/// Serialize every accumulated table to its named CSV byte buffer; writing
/// the buffers and creating the destination directory are the caller's part.
pub fn export_convertion(exports: &ExportTable) -> (r: Vec<(String, Vec<u8>)>)
    ensures
        r@.len() == exports.tables@.len(),
        forall|i: int|
            0 <= i < r@.len() ==> (#[trigger] r.deep_view()[i]).0
                == exports.tables.deep_view()[i].0 + ".csv"@ && r.deep_view()[i].1 == csv_table_of(
                exports.tables.deep_view()[i].1,
            ),
{
    exports.export_csv()
}

} // verus!
