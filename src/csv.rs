use std::str::FromStr;

use vstd::prelude::*;

verus! {

/// One line of a table: its fields, trimmed.
pub type CSVRecord = Vec<String>;

/// `s` cut at every `sep`: the pieces between the separators, in order. A
/// string without `sep` is one piece; the empty string is one empty piece.
pub open spec fn split_on(s: Seq<char>, sep: char) -> Seq<Seq<char>>
    decreases s.len(),
{
    if s.len() == 0 {
        seq![Seq::empty()]
    } else {
        let pieces = split_on(s.drop_last(), sep);
        if s.last() == sep {
            pieces.push(Seq::empty())
        } else {
            pieces.update(pieces.len() - 1, pieces.last().push(s.last()))
        }
    }
}

/// `c` has the Unicode White_Space property.
pub open spec fn is_white_space(c: char) -> bool {
    let u = c as u32;
    (0x09 <= u && u <= 0x0d) || u == 0x20 || u == 0x85 || u == 0xa0 || u == 0x1680 || (0x2000
        <= u && u <= 0x200a) || u == 0x2028 || u == 0x2029 || u == 0x202f || u == 0x205f || u
        == 0x3000
}

/// `s` without its leading white space.
pub open spec fn trim_start_spec(s: Seq<char>) -> Seq<char>
    decreases s.len(),
{
    if s.len() > 0 && is_white_space(s[0]) {
        trim_start_spec(s.subrange(1, s.len() as int))
    } else {
        s
    }
}

/// `s` without its trailing white space.
pub open spec fn trim_end_spec(s: Seq<char>) -> Seq<char>
    decreases s.len(),
{
    if s.len() > 0 && is_white_space(s.last()) {
        trim_end_spec(s.drop_last())
    } else {
        s
    }
}

/// `s` without its leading and trailing white space.
pub open spec fn trim_of(s: Seq<char>) -> Seq<char> {
    trim_end_spec(trim_start_spec(s))
}

/// The fields of one line: the pieces between semicolons, each trimmed.
pub open spec fn row_spec(line: Seq<char>) -> Seq<Seq<char>> {
    split_on(line, ';').map_values(|piece: Seq<char>| trim_of(piece))
}

/// Relies on `str::split` with a `char` pattern: the pieces of `s` between
/// the occurrences of `sep`, in order.
#[verifier::external_body]
pub(crate) fn split_pieces(s: &str, sep: char) -> (r: Vec<String>)
    ensures
        r@.len() == split_on(s@, sep).len(),
        forall|i: int| 0 <= i < r@.len() ==> #[trigger] r@[i]@ == split_on(s@, sep)[i],
{
    s.split(sep).map(|piece| piece.to_string()).collect()
}

/// Relies on `str::trim`: `s` without its leading and trailing characters
/// of the Unicode White_Space property.
#[verifier::external_body]
fn trimmed(s: &str) -> (r: String)
    ensures
        r@ == trim_of(s@),
{
    s.trim().to_string()
}

/// The trimmed fields of one line.
fn split_record(line: &str) -> (r: CSVRecord)
    ensures
        r.deep_view() == row_spec(line@),
{
    let pieces = split_pieces(line, ';');
    let mut fields: Vec<String> = Vec::new();
    let mut i: usize = 0;
    while i < pieces.len()
        invariant
            pieces@.len() == split_on(line@, ';').len(),
            forall|j: int| 0 <= j < pieces@.len() ==> #[trigger] pieces@[j]@ == split_on(line@, ';')[j],
            i <= pieces@.len(),
            fields@.len() == i,
            row_spec(line@).len() == pieces@.len(),
            fields.deep_view() == row_spec(line@).take(i as int),
        decreases pieces@.len() - i,
    {
        let field = trimmed(pieces[i].as_str());
        let ghost prev = fields@;
        fields.push(field);
        assert(row_spec(line@)[i as int] == trim_of(split_on(line@, ';')[i as int]));
        assert forall|j: int| 0 <= j < i implies fields@[j] == prev[j] by {}
        assert(fields.deep_view() =~= row_spec(line@).take(i + 1));
        i += 1;
    }
    assert(row_spec(line@).take(i as int) =~= row_spec(line@));
    fields
}

/// The digit that `c` is, if it is an ASCII digit.
pub open spec fn is_digit(c: char) -> bool {
    '0' as u32 <= c as u32 && c as u32 <= '9' as u32
}

/// The value of a run of ASCII digits, most significant first.
pub open spec fn digits_value(s: Seq<char>) -> nat
    decreases s.len(),
{
    if s.len() == 0 {
        0
    } else {
        digits_value(s.drop_last()) * 10 + (s.last() as u32 - '0' as u32) as nat
    }
}

/// `s` is one or more ASCII digits.
pub open spec fn is_digits(s: Seq<char>) -> bool {
    s.len() > 0 && forall|i: int| 0 <= i < s.len() ==> is_digit(#[trigger] s[i])
}

/// The number that `s` writes in decimal, as std reads an unsigned integer
/// of at most `max`: an optional `+`, then one or more ASCII digits.
pub open spec fn unsigned_spec(s: Seq<char>, max: nat) -> Option<nat> {
    let d = if s.len() > 0 && s[0] == '+' {
        s.subrange(1, s.len() as int)
    } else {
        s
    };
    if is_digits(d) && digits_value(d) <= max {
        Some(digits_value(d))
    } else {
        None
    }
}

/// The number that `s` writes in decimal, as std reads a signed integer in
/// [`min`, `max`]: an optional `+` or `-`, then one or more ASCII digits.
pub open spec fn signed_spec(s: Seq<char>, min: int, max: int) -> Option<int> {
    if s.len() > 0 && s[0] == '-' {
        let d = s.subrange(1, s.len() as int);
        if is_digits(d) && min <= -digits_value(d) {
            Some(-digits_value(d))
        } else {
            None
        }
    } else {
        match unsigned_spec(s, max as nat) {
            Some(v) => if max >= 0 {
                Some(v as int)
            } else {
                None
            },
            None => None,
        }
    }
}

/// Relies on `u32::from_str`: an optional `+` and decimal digits whose value
/// fits, and nothing else, give a number.
#[verifier::external_body]
pub(crate) fn parse_u32(s: &str) -> (r: Option<u32>)
    ensures
        match unsigned_spec(s@, u32::MAX as nat) {
            Some(v) => r == Some(v as u32),
            None => r is None,
        },
{
    u32::from_str(s).ok()
}

/// Relies on `u64::from_str`: an optional `+` and decimal digits whose value
/// fits, and nothing else, give a number.
#[verifier::external_body]
pub(crate) fn parse_u64(s: &str) -> (r: Option<u64>)
    ensures
        match unsigned_spec(s@, u64::MAX as nat) {
            Some(v) => r == Some(v as u64),
            None => r is None,
        },
{
    u64::from_str(s).ok()
}

/// Relies on `i32::from_str`: an optional sign and decimal digits whose value
/// fits, and nothing else, give a number.
#[verifier::external_body]
pub(crate) fn parse_i32(s: &str) -> (r: Option<i32>)
    ensures
        match signed_spec(s@, i32::MIN as int, i32::MAX as int) {
            Some(v) => r == Some(v as i32),
            None => r is None,
        },
{
    i32::from_str(s).ok()
}

/// A table read from semicolon-separated lines: a header line, then one
/// record per line.
#[derive(Debug)]
pub struct CSVFile {
    headers: Vec<String>,
    records: Vec<CSVRecord>,
}

impl CSVFile {
    /// The header fields.
    pub closed spec fn headers_view(&self) -> Seq<Seq<char>> {
        self.headers.deep_view()
    }

    /// The records, each as its fields.
    pub closed spec fn records_view(&self) -> Seq<Seq<Seq<char>>> {
        self.records.deep_view()
    }

    /// A table with no header and no record.
    pub fn new() -> (r: CSVFile)
        ensures
            r.headers_view().len() == 0,
            r.records_view().len() == 0,
    {
        let r = CSVFile { headers: Vec::new(), records: Vec::new() };
        assert(r.headers_view() =~= Seq::empty());
        assert(r.records_view() =~= Seq::empty());
        r
    }

    /// The header fields.
    pub fn headers(&self) -> (r: &Vec<String>)
        ensures
            r.deep_view() == self.headers_view(),
    {
        &self.headers
    }

    /// The records.
    pub fn records(&self) -> (r: &Vec<CSVRecord>)
        ensures
            r.deep_view() == self.records_view(),
    {
        &self.records
    }

    /// Appends the trimmed fields of `header` to the header.
    fn read_header(&mut self, header: &str)
        ensures
            final(self).headers_view() == old(self).headers_view() + row_spec(header@),
            final(self).records_view() == old(self).records_view(),
    {
        let mut fields = split_record(header);
        let ghost before = self.headers.deep_view();
        self.headers.append(&mut fields);
        assert(self.headers.deep_view() =~= before + row_spec(header@));
    }

    /// Appends the trimmed fields of `raw_record` as a new record.
    pub fn read_record(&mut self, raw_record: String)
        ensures
            final(self).records_view() == old(self).records_view().push(row_spec(raw_record@)),
            final(self).headers_view() == old(self).headers_view(),
    {
        let record = split_record(raw_record.as_str());
        let ghost before = self.records.deep_view();
        self.records.push(record);
        assert(self.records.deep_view() =~= before.push(row_spec(raw_record@)));
    }

    /// The table of `lines`: the first is the header, each other a record.
    /// A table needs its header line: without any line there is none.
    pub fn parse(lines: &Vec<String>) -> (r: Option<CSVFile>)
        ensures
            lines@.len() == 0 <==> r is None,
            r is Some ==> r->0.headers_view() == row_spec(lines@[0]@) && r->0.records_view()
                == lines@.subrange(1, lines@.len() as int).map_values(
                |line: String| row_spec(line@),
            ),
    {
        if lines.len() == 0 {
            return None;
        }
        let mut csv = CSVFile::new();
        csv.read_header(lines[0].as_str());
        assert(csv.headers_view() =~= row_spec(lines@[0]@));
        let mut i: usize = 1;
        while i < lines.len()
            invariant
                1 <= i <= lines@.len(),
                csv.headers_view() == row_spec(lines@[0]@),
                csv.records_view() == lines@.subrange(1, i as int).map_values(
                    |line: String| row_spec(line@),
                ),
            decreases lines@.len() - i,
        {
            csv.read_record(lines[i].clone());
            assert(csv.records_view() =~= lines@.subrange(1, i + 1).map_values(
                |line: String| row_spec(line@),
            ));
            i += 1;
        }
        Some(csv)
    }
}

} // verus!
