//! The file of results: comma-separated values, one line for each input and
//! codec, under a heading.

use vstd::prelude::*;

verus! {

/// The byte that ends a line.
pub const LINE_END: u8 = 10;

/// The byte between two fields.
pub const FIELD_END: u8 = 44;

/// How many fields a row has.
pub const N_FIELDS: usize = 5;

/// The pieces of a text between the separators, in order. A text without a
/// separator is one piece, and a separator at either end has an empty piece
/// beside it.
pub open spec fn spec_split(text: Seq<u8>, sep: u8) -> Seq<Seq<u8>>
    decreases text.len(),
{
    if text.len() == 0 {
        seq![Seq::<u8>::empty()]
    } else {
        let front = spec_split(text.drop_last(), sep);
        if text.last() == sep {
            front.push(Seq::<u8>::empty())
        } else {
            front.update(front.len() - 1, front.last().push(text.last()))
        }
    }
}

/// The contents of vectors of bytes.
pub open spec fn spec_views(pieces: Seq<Vec<u8>>) -> Seq<Seq<u8>> {
    Seq::new(pieces.len(), |i: int| pieces[i]@)
}

/// A text is split into at least one piece.
pub proof fn lemma_split_len(text: Seq<u8>, sep: u8)
    ensures
        spec_split(text, sep).len() >= 1,
    decreases text.len(),
{
    if text.len() > 0 {
        lemma_split_len(text.drop_last(), sep);
    }
}

/// Splits a text at every separator.
pub fn split(text: &[u8], sep: u8) -> (r: Vec<Vec<u8>>)
    ensures
        spec_views(r@) == spec_split(text@, sep),
{
    let mut pieces: Vec<Vec<u8>> = Vec::new();
    let mut current: Vec<u8> = Vec::new();
    let mut i: usize = 0;
    assert(text@.take(0) =~= Seq::<u8>::empty());
    assert(spec_views(pieces@).push(current@) =~= seq![Seq::<u8>::empty()]);
    while i < text.len()
        invariant
            i <= text@.len(),
            spec_views(pieces@).push(current@) == spec_split(text@.take(i as int), sep),
        decreases text.len() - i,
    {
        let byte = text[i];
        let ghost front = spec_views(pieces@).push(current@);
        proof {
            assert(text@.take(i + 1).drop_last() =~= text@.take(i as int));
            assert(text@.take(i + 1).last() == byte);
        }
        if byte == sep {
            pieces.push(current);
            current = Vec::new();
            assert(spec_views(pieces@).push(current@) =~= front.push(Seq::<u8>::empty()));
        } else {
            current.push(byte);
            assert(spec_views(pieces@).push(current@) =~= front.update(
                front.len() - 1,
                front.last().push(byte),
            ));
        }
        i += 1;
    }
    assert(text@.take(i as int) =~= text@);
    let ghost front = spec_views(pieces@).push(current@);
    pieces.push(current);
    assert(spec_views(pieces@) =~= front);
    pieces
}

/// A row of the file as it is written: its five fields as text.
#[derive(Clone, Debug)]
pub struct RawRow {
    pub dataset: Vec<u8>,
    pub codec: Vec<u8>,
    pub compress_dt: Vec<u8>,
    pub decompress_dt: Vec<u8>,
    pub compressed_size: Vec<u8>,
}

/// A line of the file that is not a row: it has fewer than five fields.
#[derive(Clone, Copy, Debug, PartialEq, Eq, Structural)]
pub struct CsvError {
    /// The place of the line in the file, the heading being line 0.
    pub line: usize,
    /// How many fields the line has.
    pub n_fields: usize,
}

impl RawRow {
    /// The five fields in order.
    pub open spec fn view(&self) -> Seq<Seq<u8>> {
        seq![
            self.dataset@,
            self.codec@,
            self.compress_dt@,
            self.decompress_dt@,
            self.compressed_size@,
        ]
    }
}

/// The fields of rows.
pub open spec fn spec_row_views(rows: Seq<RawRow>) -> Seq<Seq<Seq<u8>>> {
    Seq::new(rows.len(), |i: int| rows[i]@)
}

/// The rows among the first lines of a file, or the first line that is not a
/// row. The heading and empty lines are passed over, and only the first five
/// fields of a row count.
pub open spec fn spec_rows(lines: Seq<Seq<u8>>) -> Result<Seq<Seq<Seq<u8>>>, CsvError>
    decreases lines.len(),
{
    if lines.len() <= 1 {
        Ok(Seq::empty())
    } else {
        match spec_rows(lines.drop_last()) {
            Err(e) => Err(e),
            Ok(rows) => {
                let line = lines.last();
                let fields = spec_split(line, FIELD_END);
                if line.len() == 0 {
                    Ok(rows)
                } else if fields.len() < N_FIELDS {
                    Err(
                        CsvError {
                            line: (lines.len() - 1) as usize,
                            n_fields: fields.len() as usize,
                        },
                    )
                } else {
                    Ok(rows.push(fields.take(N_FIELDS as int)))
                }
            },
        }
    }
}

/// The rows of a file, or the first line that is not a row.
pub open spec fn spec_parse_results(contents: Seq<u8>) -> Result<Seq<Seq<Seq<u8>>>, CsvError> {
    spec_rows(spec_split(contents, LINE_END))
}

/// Reads the rows of a file of results.
pub fn parse_results(contents: &[u8]) -> (r: Result<Vec<RawRow>, CsvError>)
    ensures
        match r {
            Ok(rows) => spec_parse_results(contents@) == Ok::<Seq<Seq<Seq<u8>>>, CsvError>(
                spec_row_views(rows@),
            ),
            Err(e) => spec_parse_results(contents@) == Err::<Seq<Seq<Seq<u8>>>, CsvError>(e),
        },
{
    let lines = split(contents, LINE_END);
    let ghost all = spec_views(lines@);
    let mut rows: Vec<RawRow> = Vec::new();
    proof {
        lemma_split_len(contents@, LINE_END);
        assert(spec_row_views(rows@) =~= Seq::<Seq<Seq<u8>>>::empty());
        assert(all.take(1).len() == 1);
    }
    let mut i: usize = 1;
    while i < lines.len()
        invariant
            1 <= i <= lines@.len(),
            all == spec_views(lines@),
            all == spec_split(contents@, LINE_END),
            spec_rows(all.take(i as int)) == Ok::<Seq<Seq<Seq<u8>>>, CsvError>(
                spec_row_views(rows@),
            ),
        decreases lines.len() - i,
    {
        let line = &lines[i];
        proof {
            assert(all.take(i + 1).drop_last() =~= all.take(i as int));
            assert(all.take(i + 1).last() == line@);
        }
        if line.len() > 0 {
            let mut fields = split(line.as_slice(), FIELD_END);
            let ghost found = spec_views(fields@);
            if fields.len() < N_FIELDS {
                proof {
                    assert(spec_rows(all.take(i + 1)) == Err::<Seq<Seq<Seq<u8>>>, CsvError>(
                        CsvError { line: i, n_fields: fields.len() },
                    ));
                    lemma_rows_error(all, i as int + 1);
                }
                return Err(CsvError { line: i, n_fields: fields.len() });
            }
            fields.truncate(N_FIELDS);
            let compressed_size = fields.pop().unwrap();
            let decompress_dt = fields.pop().unwrap();
            let compress_dt = fields.pop().unwrap();
            let codec = fields.pop().unwrap();
            let dataset = fields.pop().unwrap();
            let row = RawRow { dataset, codec, compress_dt, decompress_dt, compressed_size };
            assert(row@ =~= found.take(N_FIELDS as int));
            let ghost before = spec_row_views(rows@);
            rows.push(row);
            assert(spec_row_views(rows@) =~= before.push(found.take(N_FIELDS as int)));
        }
        i += 1;
    }
    assert(all.take(i as int) =~= all);
    Ok(rows)
}

/// A line that is not a row among the first lines is the failure of the whole
/// file.
proof fn lemma_rows_error(lines: Seq<Seq<u8>>, k: int)
    requires
        1 <= k <= lines.len(),
        spec_rows(lines.take(k)) is Err,
    ensures
        spec_rows(lines) == spec_rows(lines.take(k)),
    decreases lines.len(),
{
    if k == lines.len() {
        assert(lines.take(k) =~= lines);
    } else {
        assert(lines.drop_last().take(k) =~= lines.take(k));
        lemma_rows_error(lines.drop_last(), k);
    }
}

} // verus!
