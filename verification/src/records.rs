//! The delimited-record parser: a byte stream and a single-byte delimiter
//! yield two-column records, with no header row. A record that does not
//! have exactly two columns is a parse failure, distinguished from a
//! failure of the underlying stream.

use vstd::prelude::*;
use crate::error::Error;
use crate::text::views_of;

verus! {

/// Per-record views of a list of decoded records.
pub open spec fn record_views(rs: Seq<Vec<String>>) -> Seq<Seq<Seq<char>>> {
    rs.map_values(|r: Vec<String>| views_of(r@))
}

/// What the record reader yields on a byte stream: `Some(records)` when the
/// stream decodes, `None` when it does not. The reader is a pure function of
/// the bytes and the delimiter, so the outcome is too.
pub uninterp spec fn delimited_records(bytes: Seq<u8>, delimiter: u8) -> Option<
    Seq<Seq<Seq<char>>>,
>;

/// Relies on csv::ReaderBuilder and csv::Reader::records: decodes a
/// headerless delimiter-separated byte stream into its records, each a list
/// of string fields, quoting handled by the reader; deterministic in the
/// input bytes and the delimiter.
#[verifier::external_body]
fn read_delimited(bytes: &[u8], delimiter: u8) -> (r: Result<Vec<Vec<String>>, String>)
    ensures
        match r {
            Ok(records) => delimited_records(bytes@, delimiter) == Some(record_views(records@)),
            Err(_) => delimited_records(bytes@, delimiter) is None,
        },
{
    let mut reader = csv::ReaderBuilder::new()
        .delimiter(delimiter)
        .has_headers(false)
        .flexible(true)
        .from_reader(bytes);
    let mut records: Vec<Vec<String>> = Vec::new();
    for record in reader.records() {
        match record {
            Ok(fields) => records.push(fields.iter().map(|f| f.to_string()).collect()),
            Err(e) => return Err(e.to_string()),
        }
    }
    Ok(records)
}

/// Every record has exactly two columns.
pub open spec fn rows_well_formed(records: Seq<Seq<Seq<char>>>) -> bool {
    forall|i: int| 0 <= i < records.len() ==> (#[trigger] records[i]).len() == 2
}

/// The (left, right) column pairs of well-formed records.
pub open spec fn row_pairs(records: Seq<Seq<Seq<char>>>) -> Seq<(Seq<char>, Seq<char>)> {
    records.map_values(|r: Seq<Seq<char>>| (r[0], r[1]))
}

/// Per-pair views of a list of string pairs.
pub open spec fn pair_views(ps: Seq<(String, String)>) -> Seq<(Seq<char>, Seq<char>)> {
    ps.map_values(|p: (String, String)| (p.0@, p.1@))
}

/// Checks the shape of decoded records: every record must have exactly two
/// columns. Returns the column pairs, or the shape error of an offending
/// record.
pub fn into_two_columns(records: &Vec<Vec<String>>) -> (r: Result<Vec<(String, String)>, Error>)
    ensures
        match r {
            Ok(pairs) => rows_well_formed(record_views(records@)) && pair_views(pairs@)
                == row_pairs(record_views(records@)),
            Err(e) => !rows_well_formed(record_views(records@)) && (exists|i: int|
                0 <= i < records@.len() && (#[trigger] records@[i])@.len() != 2 && e == (
                Error::InvalidRow { columns: records@[i]@.len() as usize })),
        },
{
    let mut pairs: Vec<(String, String)> = Vec::new();
    let n = records.len();
    let mut i: usize = 0;
    while i < n
        invariant
            i <= n,
            n == records@.len(),
            forall|j: int| 0 <= j < i ==> (#[trigger] records@[j])@.len() == 2,
            pair_views(pairs@) == row_pairs(record_views(records@.take(i as int))),
        decreases n - i,
    {
        let rec = &records[i];
        if rec.len() != 2 {
            proof {
                assert(record_views(records@)[i as int] == views_of(records@[i as int]@));
            }
            return Err(Error::InvalidRow { columns: rec.len() });
        }
        pairs.push((rec[0].clone(), rec[1].clone()));
        i += 1;
        proof {
            let rv = record_views(records@.take(i as int));
            assert(records@.take(i as int).drop_last() =~= records@.take(i - 1 as int));
            assert(row_pairs(rv) =~= row_pairs(record_views(records@.take(i - 1 as int))).push(
                (views_of(records@[i - 1]@)[0], views_of(records@[i - 1]@)[1]),
            ));
            assert(pair_views(pairs@) =~= pair_views(pairs@.drop_last()).push(
                (pairs@.last().0@, pairs@.last().1@),
            ));
        }
    }
    proof {
        assert(records@.take(n as int) =~= records@);
        assert(forall|j: int|
            0 <= j < records@.len() ==> #[trigger] record_views(records@)[j] == views_of(
                records@[j]@,
            ));
    }
    Ok(pairs)
}

/// The byte stream decodes and every record has exactly two columns.
pub open spec fn source_ok(bytes: Seq<u8>, delimiter: u8) -> bool {
    delimited_records(bytes, delimiter) is Some && rows_well_formed(
        delimited_records(bytes, delimiter).unwrap(),
    )
}

/// The column pairs of a well-formed two-column source, in stream order.
pub open spec fn source_pairs(bytes: Seq<u8>, delimiter: u8) -> Seq<(Seq<char>, Seq<char>)> {
    row_pairs(delimited_records(bytes, delimiter).unwrap())
}

/// How a failed parse of a source is classified: a stream failure exactly
/// when the stream does not decode, a row-shape failure exactly when it
/// decodes but some record is not two columns.
pub open spec fn source_error(e: Error, bytes: Seq<u8>, delimiter: u8) -> bool {
    match e {
        Error::Source(_) => delimited_records(bytes, delimiter) is None,
        Error::InvalidRow { .. } => delimited_records(bytes, delimiter) is Some
            && !rows_well_formed(delimited_records(bytes, delimiter).unwrap()),
    }
}

/// Decodes a delimited byte stream into its two-column records: the parse
/// succeeds exactly when the stream decodes and every record has two
/// columns, and then returns the records' column pairs in stream order.
pub fn parse_delimited(bytes: &[u8], delimiter: u8) -> (r: Result<Vec<(String, String)>, Error>)
    ensures
        match r {
            Ok(pairs) => source_ok(bytes@, delimiter) && pair_views(pairs@) == source_pairs(
                bytes@,
                delimiter,
            ),
            Err(e) => !source_ok(bytes@, delimiter) && source_error(e, bytes@, delimiter),
        },
{
    match read_delimited(bytes, delimiter) {
        Ok(records) => into_two_columns(&records),
        Err(message) => Err(Error::Source(message)),
    }
}

} // verus!
