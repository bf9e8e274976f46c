//! Position-list parsing and field, byte and character extraction for a
//! column-cutting tool: `"1,7,3-5"` names one-based columns and ranges.

use core::ops::Range;
use vstd::prelude::*;
use vstd::string::StringSliceAdditionalSpecFns;
use vstd::utf8::encode_utf8;

use crate::text::{
    all_digits, dec_digits, dec_string, digits_val, digits_value, find_char, lemma_find_char,
    lemma_find_char_bounds, range_is_digits,
};

verus! {

// ------------------------------------------------------------------
// The position-list grammar

/// The complaint about one malformed list item.
pub open spec fn illegal_msg(s: Seq<char>) -> Seq<char> {
    "illegal list value: \""@ + s + "\""@
}

/// The complaint about a range whose first number is not lower.
pub open spec fn order_msg(a: nat, b: nat) -> Seq<char> {
    "First number in range ("@ + dec_digits(a) + ") must be lower than second number ("@
        + dec_digits(b) + ")"@
}

/// A single one-based index: digits only, value at least 1, fitting a
/// `usize`.
pub open spec fn idx_ok(s: Seq<char>) -> bool {
    s.len() > 0 && all_digits(s) && 1 <= digits_val(s) <= usize::MAX
}

/// Where the dash of a `N-M` item sits (the first dash).
pub open spec fn dash_pos(s: Seq<char>) -> int {
    find_char(s, '-')
}

/// The digits before the dash.
pub open spec fn seg_part1(s: Seq<char>) -> Seq<char> {
    s.take(dash_pos(s))
}

/// The digits after the dash.
pub open spec fn seg_part2(s: Seq<char>) -> Seq<char> {
    s.skip(dash_pos(s) + 1)
}

/// Whether `s` is shaped `digits-digits`, both runs non-empty.
pub open spec fn range_shaped(s: Seq<char>) -> bool {
    let p = dash_pos(s);
    0 < p < s.len() - 1 && all_digits(seg_part1(s)) && all_digits(seg_part2(s))
}

/// Whether one list item is accepted: a single index, or an increasing
/// `N-M` range of two accepted indexes.
pub open spec fn seg_ok(s: Seq<char>) -> bool {
    idx_ok(s) || (range_shaped(s) && idx_ok(seg_part1(s)) && idx_ok(seg_part2(s)) && digits_val(
        seg_part1(s),
    ) < digits_val(seg_part2(s)))
}

/// The half-open zero-based range an accepted item selects.
pub open spec fn seg_range(s: Seq<char>) -> (int, int) {
    if idx_ok(s) {
        (digits_val(s) - 1, digits_val(s) as int)
    } else {
        (digits_val(seg_part1(s)) - 1, digits_val(seg_part2(s)) as int)
    }
}

/// The complaint a rejected item earns: the item itself when it is not
/// shaped like a range, else its first bad half, else the order.
pub open spec fn seg_err(s: Seq<char>) -> Seq<char> {
    if !range_shaped(s) {
        illegal_msg(s)
    } else if !idx_ok(seg_part1(s)) {
        illegal_msg(seg_part1(s))
    } else if !idx_ok(seg_part2(s)) {
        illegal_msg(seg_part2(s))
    } else {
        order_msg(digits_val(seg_part1(s)), digits_val(seg_part2(s)))
    }
}

/// The comma-separated items of a list; an empty list is one empty item.
pub open spec fn split_commas(s: Seq<char>) -> Seq<Seq<char>>
    decreases s.len(),
    via split_commas_decreases
{
    let p = find_char(s, ',');
    if p >= s.len() {
        seq![s]
    } else {
        seq![s.take(p)] + split_commas(s.skip(p + 1))
    }
}

#[via_fn]
proof fn split_commas_decreases(s: Seq<char>) {
    lemma_find_char_bounds(s, ',');
}

/// Whether a whole position list is accepted.
pub open spec fn pos_ok(s: Seq<char>) -> bool {
    forall|i: int| 0 <= i < split_commas(s).len() ==> seg_ok(#[trigger] split_commas(s)[i])
}

/// Whether `v` holds exactly the ranges the accepted list `s` selects.
pub open spec fn ranges_match(v: Seq<Range<usize>>, s: Seq<char>) -> bool {
    let segs = split_commas(s);
    v.len() == segs.len() && forall|i: int|
        0 <= i < segs.len() ==> (#[trigger] v[i]).start == seg_range(segs[i]).0 && v[i].end
            == seg_range(segs[i]).1
}

/// The complaint of the first rejected item of the list `s`.
pub open spec fn pos_err_is(s: Seq<char>, msg: Seq<char>) -> bool {
    exists|i: int|
        0 <= i < split_commas(s).len() && !seg_ok(#[trigger] split_commas(s)[i]) && msg == seg_err(
            split_commas(s)[i],
        ) && (forall|j: int| 0 <= j < i ==> seg_ok(split_commas(s)[j]))
}

// ------------------------------------------------------------------
// Parsing

/// Splits a list on commas.
fn split_list(s: &str) -> (r: Vec<String>)
    ensures
        r.deep_view() == split_commas(s@),
{
    let n = s.unicode_len();
    let mut out: Vec<String> = Vec::new();
    let mut start: usize = 0;
    let mut i: usize = 0;
    proof {
        assert(s@.skip(0) =~= s@);
        assert(out.deep_view() + split_commas(s@) =~= split_commas(s@));
    }
    while i < n
        invariant
            start <= i <= n,
            n == s@.len(),
            split_commas(s@) == out.deep_view() + split_commas(s@.skip(start as int)),
            forall|j: int| start <= j < i ==> s@[j] != ',',
        decreases n - i,
    {
        let c = s.get_char(i);
        if c == ',' {
            let seg = s.substring_char(start, i).to_owned();
            proof {
                let rem = s@.skip(start as int);
                assert(forall|j: int| 0 <= j < i - start ==> #[trigger] rem[j] == s@[j + start]);
                assert(rem[i - start] == s@[i as int]);
                lemma_find_char(rem, ',', i - start);
                assert(rem.take(i - start) =~= s@.subrange(start as int, i as int));
                assert(rem.skip(i - start + 1) =~= s@.skip(i + 1));
                assert(out.deep_view().push(seg@) =~= out.deep_view() + seq![rem.take(i - start)]);
            }
            out.push(seg);
            start = i + 1;
        }
        i = i + 1;
    }
    let seg = s.substring_char(start, n).to_owned();
    proof {
        let rem = s@.skip(start as int);
        assert(forall|j: int| 0 <= j < n - start ==> #[trigger] rem[j] == s@[j + start]);
        lemma_find_char(rem, ',', n - start);
        assert(rem =~= s@.subrange(start as int, n as int));
        assert(out.deep_view().push(seg@) =~= out.deep_view() + seq![rem]);
    }
    out.push(seg);
    proof {
        assert(out.deep_view() =~= split_commas(s@));
    }
    out
}

fn illegal_err(s: &str) -> (r: String)
    ensures
        r@ == illegal_msg(s@),
{
    let mut m = String::from_str("illegal list value: \"");
    m.append(s);
    m.append("\"");
    m
}

/// Reads one one-based index, returning it zero-based.
pub fn parse_index(input: &str) -> (r: Result<usize, String>)
    ensures
        r is Ok <==> idx_ok(input@),
        r is Ok ==> r->Ok_0 == digits_val(input@) - 1,
        r is Err ==> r->Err_0@ == illegal_msg(input@),
{
    proof {
        assert(input@.skip(0) =~= input@);
    }
    match digits_value(input, 0) {
        Some(v) => {
            if 1 <= v && v <= usize::MAX as u64 {
                Ok((v - 1) as usize)
            } else {
                Err(illegal_err(input))
            }
        },
        None => Err(illegal_err(input)),
    }
}

fn parse_segment(seg: &str) -> (r: Result<(usize, usize), String>)
    ensures
        r is Ok <==> seg_ok(seg@),
        r is Ok ==> r->Ok_0.0 == seg_range(seg@).0 && r->Ok_0.1 == seg_range(seg@).1,
        r is Err ==> r->Err_0@ == seg_err(seg@),
{
    let n = seg.unicode_len();
    proof {
        assert(seg@.skip(0) =~= seg@);
    }
    // A single index.
    match digits_value(seg, 0) {
        Some(v) => {
            if 1 <= v && v <= usize::MAX as u64 {
                proof {
                    assert(idx_ok(seg@));
                }
                return Ok(((v - 1) as usize, v as usize));
            }
        },
        None => {},
    }
    // Not a single index: it must be digits-dash-digits.
    proof {
        assert(!idx_ok(seg@));
    }
    // Find the first dash.
    let mut p: usize = 0;
    while p < n && !(seg.get_char(p) == '-')
        invariant
            p <= n,
            n == seg@.len(),
            forall|j: int| 0 <= j < p ==> seg@[j] != '-',
        decreases n - p,
    {
        p = p + 1;
    }
    proof {
        if p < n {
            lemma_find_char(seg@, '-', p as int);
        } else {
            lemma_find_char(seg@, '-', n as int);
        }
        assert(dash_pos(seg@) == p as int);
    }
    if p == 0 || p >= n || p == n - 1 {
        proof {
            assert(!range_shaped(seg@));
        }
        return Err(illegal_err(seg));
    }
    let digits1 = range_is_digits(seg, 0, p);
    let digits2 = range_is_digits(seg, p + 1, n);
    proof {
        assert(seg@.subrange(0, p as int) =~= seg_part1(seg@));
        assert(seg@.subrange(p + 1, n as int) =~= seg_part2(seg@));
    }
    if !(digits1 && digits2) {
        proof {
            assert(!range_shaped(seg@));
        }
        return Err(illegal_err(seg));
    }
    proof {
        assert(range_shaped(seg@));
    }
    let part1 = seg.substring_char(0, p).to_owned();
    let part2 = seg.substring_char(p + 1, n).to_owned();
    proof {
        assert(part1@ == seg_part1(seg@));
        assert(part2@ == seg_part2(seg@));
        assert(part1@.skip(0) =~= part1@);
        assert(part2@.skip(0) =~= part2@);
    }
    let v1 = match digits_value(part1.as_str(), 0) {
        Some(v) if 1 <= v && v <= usize::MAX as u64 => v,
        _ => {
            return Err(illegal_err(part1.as_str()));
        },
    };
    let v2 = match digits_value(part2.as_str(), 0) {
        Some(v) if 1 <= v && v <= usize::MAX as u64 => v,
        _ => {
            return Err(illegal_err(part2.as_str()));
        },
    };
    if v1 >= v2 {
        let mut m = String::from_str("First number in range (");
        let d1 = dec_string(v1);
        m.append(d1.as_str());
        m.append(") must be lower than second number (");
        let d2 = dec_string(v2);
        m.append(d2.as_str());
        m.append(")");
        proof {
            assert(m@ == order_msg(digits_val(seg_part1(seg@)), digits_val(seg_part2(seg@))));
        }
        Err(m)
    } else {
        Ok(((v1 - 1) as usize, v2 as usize))
    }
}

/// Reads a comma-separated list of one-based indexes and `N-M` ranges
/// into zero-based half-open ranges, complaining about the first bad
/// item.
pub fn parse_pos(range: String) -> (r: Result<Vec<Range<usize>>, String>)
    ensures
        r is Ok <==> pos_ok(range@),
        r is Ok ==> ranges_match(r->Ok_0@, range@),
        r is Err ==> pos_err_is(range@, r->Err_0@),
{
    let segs = split_list(range.as_str());
    let ghost sv = split_commas(range@);
    let mut out: Vec<Range<usize>> = Vec::new();
    let mut i: usize = 0;
    while i < segs.len()
        invariant
            i <= segs@.len(),
            segs.deep_view() == sv,
            sv == split_commas(range@),
            segs@.len() == sv.len(),
            out@.len() == i,
            forall|j: int| 0 <= j < i ==> seg_ok(#[trigger] sv[j]),
            forall|j: int|
                0 <= j < i ==> (#[trigger] out@[j]).start == seg_range(sv[j]).0 && out@[j].end
                    == seg_range(sv[j]).1,
        decreases segs@.len() - i,
    {
        proof {
            assert(segs@[i as int]@ == sv[i as int]);
        }
        match parse_segment((&segs[i]).as_str()) {
            Ok((a, b)) => {
                let rg: Range<usize> = a..b;
                proof {
                    assert(rg.start == a && rg.end == b);
                }
                out.push(rg);
            },
            Err(e) => {
                return Err(e);
            },
        }
        i = i + 1;
    }
    Ok(out)
}

// ------------------------------------------------------------------
// Extraction

/// What `String::from_utf8_lossy` returns for a given byte sequence;
/// the result depends on the bytes alone.
pub uninterp spec fn lossy_of(bytes: Seq<u8>) -> Seq<char>;

/// Relies on `String::from_utf8_lossy`: decodes UTF-8, replacing
/// invalid sequences; a function of the bytes alone.
#[verifier::external_body]
fn utf8_lossy(bytes: &[u8]) -> (r: String)
    ensures
        r@ == lossy_of(bytes@),
{
    String::from_utf8_lossy(bytes).to_string()
}

/// The characters a byte-range selection produces: each range decoded
/// on its own, ranges that leave the text selecting nothing.
pub open spec fn extracted_bytes(bytes: Seq<u8>, ranges: Seq<Range<usize>>) -> Seq<char>
    decreases ranges.len(),
{
    if ranges.len() == 0 {
        Seq::empty()
    } else {
        let rg = ranges[0];
        (if rg.start <= rg.end && rg.end <= bytes.len() {
            lossy_of(bytes.subrange(rg.start as int, rg.end as int))
        } else {
            Seq::empty()
        }) + extracted_bytes(bytes, ranges.skip(1))
    }
}

/// Selects byte ranges of a line, each decoded leniently on its own.
pub fn extract_bytes(line: &str, byte_pos: &[Range<usize>]) -> (r: String)
    ensures
        r@ == extracted_bytes(line.spec_bytes(), byte_pos@),
{
    let bytes = line.as_bytes();
    let nb = bytes.len();
    let mut res = String::new();
    let mut i: usize = 0;
    proof {
        assert(byte_pos@.skip(0) =~= byte_pos@);
        assert(res@ + extracted_bytes(bytes@, byte_pos@) =~= extracted_bytes(bytes@, byte_pos@));
    }
    while i < byte_pos.len()
        invariant
            i <= byte_pos@.len(),
            nb == bytes@.len(),
            bytes@ == line.spec_bytes(),
            res@ + extracted_bytes(bytes@, byte_pos@.skip(i as int)) == extracted_bytes(
                bytes@,
                byte_pos@,
            ),
        decreases byte_pos@.len() - i,
    {
        proof {
            assert(byte_pos@.skip(i as int)[0] == byte_pos@[i as int]);
            assert(byte_pos@.skip(i as int).skip(1) =~= byte_pos@.skip(i + 1));
        }
        let start = byte_pos[i].start;
        let end = byte_pos[i].end;
        if start <= end && end <= nb {
            let piece = utf8_lossy(&bytes[start..end]);
            res.append(piece.as_str());
        }
        i = i + 1;
    }
    proof {
        assert(byte_pos@.skip(byte_pos@.len() as int).len() == 0);
        assert(res@ + Seq::<char>::empty() =~= res@);
    }
    res
}

/// The characters a character-range selection produces: for each range,
/// the characters whose index falls inside it.
pub open spec fn extracted_chars(s: Seq<char>, ranges: Seq<Range<usize>>) -> Seq<char>
    decreases ranges.len(),
{
    if ranges.len() == 0 {
        Seq::empty()
    } else {
        let rg = ranges[0];
        let lo = if rg.start <= s.len() {
            rg.start as int
        } else {
            s.len() as int
        };
        let hi = if rg.end <= s.len() {
            rg.end as int
        } else {
            s.len() as int
        };
        (if lo < hi {
            s.subrange(lo, hi)
        } else {
            Seq::empty()
        }) + extracted_chars(s, ranges.skip(1))
    }
}

/// Selects character ranges of a line, clamped to the line's length.
pub fn extract_chars(line: &str, char_pos: &[Range<usize>]) -> (r: String)
    ensures
        r@ == extracted_chars(line@, char_pos@),
{
    let n = line.unicode_len();
    let mut res = String::new();
    let mut i: usize = 0;
    proof {
        assert(char_pos@.skip(0) =~= char_pos@);
        assert(res@ + extracted_chars(line@, char_pos@) =~= extracted_chars(line@, char_pos@));
    }
    while i < char_pos.len()
        invariant
            i <= char_pos@.len(),
            n == line@.len(),
            res@ + extracted_chars(line@, char_pos@.skip(i as int)) == extracted_chars(
                line@,
                char_pos@,
            ),
        decreases char_pos@.len() - i,
    {
        proof {
            assert(char_pos@.skip(i as int)[0] == char_pos@[i as int]);
            assert(char_pos@.skip(i as int).skip(1) =~= char_pos@.skip(i + 1));
        }
        let lo = if char_pos[i].start <= n {
            char_pos[i].start
        } else {
            n
        };
        let hi = if char_pos[i].end <= n {
            char_pos[i].end
        } else {
            n
        };
        if lo < hi {
            let piece = line.substring_char(lo, hi);
            res.append(piece);
        }
        i = i + 1;
    }
    proof {
        assert(char_pos@.skip(char_pos@.len() as int).len() == 0);
        assert(res@ + Seq::<char>::empty() =~= res@);
    }
    res
}

// ------------------------------------------------------------------
// Field extraction over csv records

#[verifier::external_type_specification]
#[verifier::external_body]
pub struct ExStringRecord(csv::StringRecord);

/// The fields a parsed csv record holds, in order.
pub uninterp spec fn record_fields(rec: csv::StringRecord) -> Seq<Seq<char>>;

/// Relies on `csv::StringRecord::len`: the number of fields.
#[verifier::external_body]
fn record_len(rec: &csv::StringRecord) -> (r: usize)
    ensures
        r == record_fields(*rec).len(),
{
    rec.len()
}

/// Relies on `csv::StringRecord::get`: field `i`, or `None` past the
/// last field.
#[verifier::external_body]
fn record_get(rec: &csv::StringRecord, i: usize) -> (r: Option<String>)
    ensures
        r is Some <==> i < record_fields(*rec).len(),
        r is Some ==> r->0@ == record_fields(*rec)[i as int],
{
    rec.get(i).map(|s| s.to_string())
}

/// The fields a field-range selection produces: for each range, the
/// fields whose index falls inside it.
pub open spec fn extracted_fields(fields: Seq<Seq<char>>, ranges: Seq<Range<usize>>) -> Seq<
    Seq<char>,
>
    decreases ranges.len(),
{
    if ranges.len() == 0 {
        Seq::empty()
    } else {
        let rg = ranges[0];
        let lo = if rg.start <= fields.len() {
            rg.start as int
        } else {
            fields.len() as int
        };
        let hi = if rg.end <= fields.len() {
            rg.end as int
        } else {
            fields.len() as int
        };
        (if lo < hi {
            fields.subrange(lo, hi)
        } else {
            Seq::empty()
        }) + extracted_fields(fields, ranges.skip(1))
    }
}

/// Selects field ranges of a parsed record, clamped to its field count.
pub fn extract_fields(record: &csv::StringRecord, field_pos: &[Range<usize>]) -> (r: Vec<String>)
    ensures
        r.deep_view() == extracted_fields(record_fields(*record), field_pos@),
{
    let ghost fields = record_fields(*record);
    let n = record_len(record);
    let mut res: Vec<String> = Vec::new();
    let mut i: usize = 0;
    proof {
        assert(field_pos@.skip(0) =~= field_pos@);
        assert(res.deep_view() + extracted_fields(fields, field_pos@) =~= extracted_fields(
            fields,
            field_pos@,
        ));
    }
    while i < field_pos.len()
        invariant
            i <= field_pos@.len(),
            n == fields.len(),
            fields == record_fields(*record),
            res.deep_view() + extracted_fields(fields, field_pos@.skip(i as int))
                == extracted_fields(fields, field_pos@),
        decreases field_pos@.len() - i,
    {
        proof {
            assert(field_pos@.skip(i as int)[0] == field_pos@[i as int]);
            assert(field_pos@.skip(i as int).skip(1) =~= field_pos@.skip(i + 1));
        }
        let lo = if field_pos[i].start <= n {
            field_pos[i].start
        } else {
            n
        };
        let hi = if field_pos[i].end <= n {
            field_pos[i].end
        } else {
            n
        };
        let ghost rest = extracted_fields(fields, field_pos@.skip(i + 1));
        if lo < hi {
            proof {
                assert(extracted_fields(fields, field_pos@.skip(i as int)) == fields.subrange(
                    lo as int,
                    hi as int,
                ) + rest);
            }
            let mut j: usize = lo;
            while j < hi
                invariant
                    lo <= j <= hi,
                    hi <= n,
                    n == fields.len(),
                    fields == record_fields(*record),
                    rest == extracted_fields(fields, field_pos@.skip(i + 1)),
                    res.deep_view() + (fields.subrange(j as int, hi as int) + rest)
                        == extracted_fields(fields, field_pos@),
                decreases hi - j,
            {
                let ghost before = res.deep_view();
                match record_get(record, j) {
                    Some(f) => {
                        res.push(f);
                    },
                    None => {
                        proof {
                            assert(false);
                        }
                    },
                }
                proof {
                    assert(res.deep_view() =~= before.push(fields[j as int]));
                    assert(fields.subrange(j as int, hi as int) =~= seq![fields[j as int]]
                        + fields.subrange(j + 1, hi as int));
                    assert(before + (seq![fields[j as int]] + fields.subrange(j + 1, hi as int)
                        + rest) =~= before.push(fields[j as int]) + (fields.subrange(
                        j + 1,
                        hi as int,
                    ) + rest));
                    assert(before + (fields.subrange(j as int, hi as int) + rest) =~= before + (
                    seq![fields[j as int]] + fields.subrange(j + 1, hi as int) + rest));
                }
                j = j + 1;
            }
            proof {
                assert(fields.subrange(hi as int, hi as int) =~= Seq::<Seq<char>>::empty());
                assert(res.deep_view() + (Seq::<Seq<char>>::empty() + rest) =~= res.deep_view()
                    + rest);
            }
        } else {
            proof {
                assert(extracted_fields(fields, field_pos@.skip(i as int)) == Seq::<
                    Seq<char>,
                >::empty() + rest);
                assert(Seq::<Seq<char>>::empty() + rest =~= rest);
            }
        }
        i = i + 1;
    }
    proof {
        assert(field_pos@.skip(field_pos@.len() as int).len() == 0);
        assert(res.deep_view() + Seq::<Seq<char>>::empty() =~= res.deep_view());
    }
    res
}

// ------------------------------------------------------------------
// Configuration

/// Which kind of selection a run makes, with its ranges.
#[derive(Debug)]
pub enum Extract {
    Fields(Vec<Range<usize>>),
    Bytes(Vec<Range<usize>>),
    Chars(Vec<Range<usize>>),
}

/// The raw selection flags, as handed in from the command line. The
/// three selection kinds exclude one another.
#[derive(Debug)]
pub struct Args {
    pub files: Option<Vec<String>>,
    pub delimiter: String,
    pub fields: Option<String>,
    pub bytes: Option<String>,
    pub chars: Option<String>,
}

/// A validated request: inputs, field delimiter, and one selection.
#[derive(Debug)]
pub struct Config {
    pub files: Option<Vec<String>>,
    pub delimiter: u8,
    pub extract: Extract,
}

impl Args {
    /// Validates the flags: the delimiter must be one byte, and exactly
    /// one selection kind must be present (fields tried first, then
    /// bytes, then chars) with a well-formed position list.
    pub fn to_config(self) -> (r: Result<Config, String>)
        ensures
            r is Ok <==> (encode_utf8(self.delimiter@).len() == 1 && (match self.fields {
                Some(f) => pos_ok(f@),
                None => (match self.bytes {
                    Some(b) => pos_ok(b@),
                    None => (match self.chars {
                        Some(c) => pos_ok(c@),
                        None => false,
                    }),
                }),
            })),
            r is Ok ==> r->Ok_0.files == self.files && r->Ok_0.delimiter
                == encode_utf8(self.delimiter@)[0],
            r is Ok ==> (match self.fields {
                Some(f) => r->Ok_0.extract matches Extract::Fields(v) && ranges_match(v@, f@),
                None => (match self.bytes {
                    Some(b) => r->Ok_0.extract matches Extract::Bytes(v) && ranges_match(v@, b@),
                    None => (match self.chars {
                        Some(c) => r->Ok_0.extract matches Extract::Chars(v) && ranges_match(
                            v@,
                            c@,
                        ),
                        None => false,
                    }),
                }),
            }),
            (encode_utf8(self.delimiter@).len() != 1) ==> (r is Err && r->Err_0@ == "--delim \""@
                + self.delimiter@ + "\" must be a single byte"@),
            (encode_utf8(self.delimiter@).len() == 1 && self.fields is None && self.bytes is None
                && self.chars is None) ==> (r is Err && r->Err_0@
                == "Must have --fields, --bytes, or --chars"@),
            (encode_utf8(self.delimiter@).len() == 1 && r is Err) ==> (match self.fields {
                Some(f) => pos_err_is(f@, r->Err_0@),
                None => (match self.bytes {
                    Some(b) => pos_err_is(b@, r->Err_0@),
                    None => (match self.chars {
                        Some(c) => pos_err_is(c@, r->Err_0@),
                        None => r->Err_0@ == "Must have --fields, --bytes, or --chars"@,
                    }),
                }),
            }),
    {
        let delim_bytes = self.delimiter.as_str().as_bytes();
        if delim_bytes.len() != 1 {
            let mut m = String::from_str("--delim \"");
            m.append(self.delimiter.as_str());
            m.append("\" must be a single byte");
            proof {
                assert(m@ == "--delim \""@ + self.delimiter@ + "\" must be a single byte"@);
            }
            return Err(m);
        }
        let delimiter: u8 = delim_bytes[0];
        let extract = if let Some(f) = self.fields {
            match parse_pos(f) {
                Ok(v) => Extract::Fields(v),
                Err(e) => {
                    return Err(e);
                },
            }
        } else if let Some(b) = self.bytes {
            match parse_pos(b) {
                Ok(v) => Extract::Bytes(v),
                Err(e) => {
                    return Err(e);
                },
            }
        } else if let Some(c) = self.chars {
            match parse_pos(c) {
                Ok(v) => Extract::Chars(v),
                Err(e) => {
                    return Err(e);
                },
            }
        } else {
            return Err(String::from_str("Must have --fields, --bytes, or --chars"));
        };
        Ok(Config { files: self.files, delimiter, extract })
    }
}

} // verus!
