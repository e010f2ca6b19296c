//! The delimited record-file format (`;` between fields, csv quoting),
//! read and written through the csv crate.
use vstd::prelude::*;

verus! {

#[verifier::external_type_specification]
#[verifier::external_body]
pub struct ExCsvError(csv::Error);

/// The text of each field of a row.
pub open spec fn fields_view(v: Seq<String>) -> Seq<Seq<char>> {
    v.map_values(|s: String| s@)
}

/// The text of each row that could be read, `None` for each that could not.
pub open spec fn rows_view(v: Seq<Option<Vec<String>>>) -> Seq<Option<Seq<Seq<char>>>> {
    v.map_values(
        |r: Option<Vec<String>>|
            match r {
                Some(f) => Some(fields_view(f@)),
                None => None,
            },
    )
}

/// The header row and the data rows that the csv crate reads from `text`,
/// or `None` when it cannot read the header.
pub uninterp spec fn csv_table(text: Seq<u8>) -> Option<(Seq<Seq<char>>, Seq<Option<Seq<Seq<char>>>>)>;

/// The bytes of one row as the csv crate writes it, line end included.
pub uninterp spec fn csv_row(fields: Seq<Seq<char>>) -> Seq<u8>;

/// Relies on csv::Reader (`;` as delimiter, first row the header): its
/// `headers`, then each item of `records`; a record that fails to read is
/// kept as `None`. What comes back depends on the bytes alone.
#[verifier::external_body]
pub(crate) fn read_table(text: &[u8]) -> (r: Result<(Vec<String>, Vec<Option<Vec<String>>>), csv::Error>)
    ensures
        match r {
            Ok((h, rows)) => csv_table(text@) == Some((fields_view(h@), rows_view(rows@))),
            Err(_) => csv_table(text@) is None,
        },
{
    let mut rdr = csv::ReaderBuilder::new().delimiter(b';').from_reader(text);
    let header = rdr.headers()?.iter().map(|f| f.to_string()).collect();
    let rows = rdr.records().map(|r| r.ok().map(|rec| rec.iter().map(|f| f.to_string()).collect())).collect();
    Ok((header, rows))
}

/// Relies on csv::Writer::write_record (`;` as delimiter) followed by
/// `into_inner`: the bytes of one row, which depend on the fields alone.
/// Writing into a `Vec` cannot fail, and the field count of the first
/// record on a fresh writer is never checked against another, so this
/// always succeeds.
#[verifier::external_body]
pub(crate) fn write_row(fields: &Vec<String>) -> (r: Result<Vec<u8>, csv::Error>)
    ensures
        r is Ok,
        r matches Ok(b) ==> b@ == csv_row(fields_view(fields@)),
{
    let mut w = csv::WriterBuilder::new().delimiter(b';').from_writer(Vec::new());
    w.write_record(fields)?;
    w.into_inner().map_err(|e| e.into_error().into())
}

} // verus!
