//! Encodings the pipeline takes from outside crates: gzip, base64, CSV
//! records, zstd frames and JSON normalization.
//!
//! Each encoder is deterministic — a function of its input alone, at the
//! fixed settings used here — so its result carries a name that the callers'
//! contracts build on; decoders promise to invert the encoders, which their
//! crates document as lossless round-trips.

use vstd::prelude::*;
use std::io::{Read, Write};
use base64::Engine;

verus! {

/// What gzip at the default level makes of the given bytes.
pub uninterp spec fn spec_gzip(data: Seq<u8>) -> Seq<u8>;

/// What gzip decompression makes of the given bytes, when they are a valid
/// gzip stream.
pub uninterp spec fn spec_gunzip(data: Seq<u8>) -> Option<Seq<u8>>;

/// Relies on flate2's `GzEncoder`: compresses the bytes as one gzip stream
/// at the default level; the output depends on the input alone.
#[verifier::external_body]
pub fn gzip_compress(data: &[u8]) -> (r: Vec<u8>)
    ensures
        r@ == spec_gzip(data@),
{
    let mut enc = flate2::write::GzEncoder::new(Vec::new(), flate2::Compression::default());
    enc.write_all(data).unwrap();
    enc.finish().unwrap()
}

/// Relies on flate2's `GzDecoder`: decompresses one gzip stream; fails on
/// malformed input, and inverts `gzip_compress` on its output.
#[verifier::external_body]
pub fn gzip_decompress(data: &[u8]) -> (r: Option<Vec<u8>>)
    ensures
        r is Some <==> spec_gunzip(data@) is Some,
        r is Some ==> r->0@ == spec_gunzip(data@)->0,
        forall|x: Seq<u8>| data@ == spec_gzip(x) ==> r is Some && r->0@ == x,
{
    let mut dec = flate2::read::GzDecoder::new(data);
    let mut out = Vec::new();
    match dec.read_to_end(&mut out) {
        Ok(_) => Some(out),
        Err(_) => None,
    }
}

/// What standard base64 makes of the given bytes.
pub uninterp spec fn spec_base64(data: Seq<u8>) -> Seq<char>;

/// What standard base64 decoding makes of the given text, when it is valid.
pub uninterp spec fn spec_base64_decode(s: Seq<char>) -> Option<Seq<u8>>;

/// Relies on the base64 crate's standard engine: encodes with the standard
/// alphabet and padding — letters, digits, `+`, `/` and `=`, so the text
/// never needs CSV quoting; the output depends on the input alone.
#[verifier::external_body]
pub fn base64_encode(data: &[u8]) -> (r: String)
    ensures
        r@ == spec_base64(data@),
        spec_csv_plain(r@),
{
    base64::engine::general_purpose::STANDARD.encode(data)
}

/// Relies on the base64 crate's standard engine: decodes standard base64,
/// failing on malformed input, and inverts `base64_encode` on its output.
#[verifier::external_body]
pub fn base64_decode(s: &str) -> (r: Option<Vec<u8>>)
    ensures
        r is Some <==> spec_base64_decode(s@) is Some,
        r is Some ==> r->0@ == spec_base64_decode(s@)->0,
        forall|x: Seq<u8>| s@ == spec_base64(x) ==> r is Some && r->0@ == x,
{
    match base64::engine::general_purpose::STANDARD.decode(s) {
        Ok(v) => Some(v),
        Err(_) => None,
    }
}

/// A field is plain: no comma, quote or line break, which the writer would
/// quote, and no byte-order mark, which the reader strips at the start of a
/// file.
pub open spec fn spec_csv_plain(s: Seq<char>) -> bool {
    forall|i: int|
        0 <= i < s.len() ==> s[i] != ',' && s[i] != '"' && s[i] != '\n' && (#[trigger] s[i])
            != '\r' && s[i] != '\u{feff}'
}

/// What the csv writer makes of one two-field record.
pub uninterp spec fn spec_csv_line(a: Seq<char>, b: Seq<char>) -> Seq<u8>;

/// Relies on the csv crate's `Writer`: one record of two fields, fields
/// quoted only when they hold a comma, quote or line break, the record
/// ended with a newline. On plain fields (which also carry no byte-order
/// mark) the output is the fields' UTF-8 bytes joined by a comma.
#[verifier::external_body]
pub fn csv_line(a: &str, b: &str) -> (r: Vec<u8>)
    ensures
        r@ == spec_csv_line(a@, b@),
        spec_csv_plain(a@) && spec_csv_plain(b@) ==> r@ == vstd::utf8::encode_utf8(a@)
            + seq![44u8] + vstd::utf8::encode_utf8(b@) + seq![10u8],
{
    let mut wr = csv::WriterBuilder::new().has_headers(false).from_writer(Vec::new());
    wr.write_record(&[a, b]).unwrap();
    wr.into_inner().unwrap()
}

/// What zstd at level 3 makes of the given bytes.
pub uninterp spec fn spec_zstd(data: Seq<u8>) -> Seq<u8>;

/// Relies on `zstd::encode_all`: compresses the bytes as one frame at
/// level 3; the output depends on the input alone, and compressing a byte
/// slice into memory does not fail (the sole error path is allocating the
/// compression context).
#[verifier::external_body]
pub fn zstd_compress(data: &[u8]) -> (r: Vec<u8>)
    ensures
        r@ == spec_zstd(data@),
{
    zstd::encode_all(data, 3).unwrap()
}

/// What zstd decompression makes of the given bytes, when they are a valid
/// frame.
pub uninterp spec fn spec_unzstd(data: Seq<u8>) -> Option<Seq<u8>>;

/// Relies on `zstd::decode_all`: decompresses one frame, failing on
/// malformed input, and inverts `zstd_compress` on its output.
#[verifier::external_body]
pub fn zstd_decompress(data: &[u8]) -> (r: Option<Vec<u8>>)
    ensures
        r is Some <==> spec_unzstd(data@) is Some,
        r is Some ==> r->0@ == spec_unzstd(data@)->0,
        forall|x: Seq<u8>| data@ == spec_zstd(x) ==> r is Some && r->0@ == x,
{
    match zstd::decode_all(data) {
        Ok(v) => Some(v),
        Err(_) => None,
    }
}

/// Relies on `String::from_utf8`: the string whose UTF-8 encoding is the
/// given bytes; fails exactly when they are not UTF-8.
#[verifier::external_body]
pub fn bytes_to_string(v: Vec<u8>) -> (r: Option<String>)
    ensures
        r is Some <==> vstd::utf8::valid_utf8(v@),
        r is Some ==> r->0@ == vstd::utf8::decode_utf8(v@),
{
    match String::from_utf8(v) {
        Ok(s) => Some(s),
        Err(_) => None,
    }
}

/// What the csv reader makes of the given bytes: two-field records, or
/// nothing when they do not parse as such.
pub uninterp spec fn spec_csv_parse(data: Seq<u8>) -> Option<Seq<(Seq<char>, Seq<char>)>>;

/// A file of two-field records, one `spec_csv_line` after another.
pub open spec fn spec_csv_lines(rows: Seq<(Seq<char>, Seq<char>)>) -> Seq<u8>
    decreases rows.len(),
{
    if rows.len() == 0 {
        Seq::empty()
    } else {
        spec_csv_lines(rows.drop_last()) + spec_csv_line(rows.last().0, rows.last().1)
    }
}

/// All fields of all rows are plain.
pub open spec fn spec_csv_rows_plain(rows: Seq<(Seq<char>, Seq<char>)>) -> bool {
    forall|i: int|
        0 <= i < rows.len() ==> spec_csv_plain((#[trigger] rows[i]).0) && spec_csv_plain(rows[i].1)
}

/// Relies on the csv crate's `Reader`: parses records without headers,
/// failing on malformed input or a record that does not have two fields,
/// and reading back what the writer wrote: a file of plain-field records
/// parses to exactly those records. Plain fields carry no byte-order mark,
/// so the reader's stripping of a file-leading mark cannot fire on such a
/// file.
#[verifier::external_body]
pub fn csv_parse(data: &[u8]) -> (r: Option<Vec<(String, String)>>)
    ensures
        r is Some <==> spec_csv_parse(data@) is Some,
        r is Some ==> {
            let rows = spec_csv_parse(data@)->0;
            &&& r->0@.len() == rows.len()
            &&& forall|i: int|
                0 <= i < rows.len() ==> (#[trigger] r->0@[i]).0@ == rows[i].0 && r->0@[i].1@
                    == rows[i].1
        },
        forall|rows: Seq<(Seq<char>, Seq<char>)>|
            data@ == spec_csv_lines(rows) && spec_csv_rows_plain(rows) ==> r is Some && r->0@.len()
                == rows.len() && (forall|i: int|
                0 <= i < rows.len() ==> (#[trigger] r->0@[i]).0@ == rows[i].0 && r->0@[i].1@
                    == rows[i].1),
{
    let mut rdr = csv::ReaderBuilder::new().has_headers(false).from_reader(data);
    let mut out = Vec::new();
    for rec in rdr.records() {
        let rc = rec.ok()?;
        if rc.len() != 2 {
            return None;
        }
        out.push((rc[0].to_string(), rc[1].to_string()));
    }
    Some(out)
}

/// What parsing the text as JSON and writing the value back makes of it:
/// the compact form with object keys sorted, or nothing when the text is
/// not JSON.
pub uninterp spec fn spec_json_norm(s: Seq<char>) -> Option<Seq<char>>;

/// Relies on serde_json's `from_str` and `to_string` over `Value`: parses
/// the text and reserializes it compactly; the outcome depends on the text
/// alone.
#[verifier::external_body]
pub fn normalize_json(s: &str) -> (r: Option<String>)
    ensures
        r is Some <==> spec_json_norm(s@) is Some,
        r is Some ==> r->0@ == spec_json_norm(s@)->0,
{
    match serde_json::from_str::<serde_json::Value>(s) {
        Ok(v) => serde_json::to_string(&v).ok(),
        Err(_) => None,
    }
}

} // verus!
