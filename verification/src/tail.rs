//! The numeric flag grammar and start-position arithmetic of a
//! file-tail tool: counts are negative offsets from the end unless
//! written with a leading plus.

use vstd::prelude::*;

use crate::text::{digits_value, int_form};

verus! {

/// How many lines or bytes to take: `PlusZero` is the literal `+0`
/// (everything), `TakeNum(n)` a count from the start (positive) or
/// from the end (negative).
#[derive(Debug, PartialEq, Eq, Structural, Clone, Copy)]
pub enum TakeValue {
    PlusZero,
    TakeNum(i64),
}

/// The value a tail count names: an unsigned count is taken from the
/// end, so it reads as negative; a leading plus keeps it positive.
pub open spec fn tail_num_val(s: Seq<char>) -> int {
    if s.len() > 0 && s[0] == '+' {
        crate::text::digits_val(s.skip(1)) as int
    } else if s.len() > 0 && s[0] == '-' {
        -(crate::text::digits_val(s.skip(1)) as int)
    } else {
        -(crate::text::digits_val(s) as int)
    }
}

/// Reads a tail count: an optionally signed run of digits, where no
/// sign means counting from the end. `+0` is the special whole-input
/// value. Anything else is rejected with the input itself as message.
pub fn parse_num(val: &str) -> (r: Result<TakeValue, String>)
    ensures
        r is Ok <==> (int_form(val@) && i64::MIN <= tail_num_val(val@) <= i64::MAX),
        r is Ok ==> r->Ok_0 == (if val@[0] == '+' && tail_num_val(val@) == 0 {
            TakeValue::PlusZero
        } else {
            TakeValue::TakeNum(tail_num_val(val@) as i64)
        }),
        r is Err ==> r->Err_0@ == val@,
{
    let n = val.unicode_len();
    if n == 0 {
        return Err(val.to_owned());
    }
    let c0 = val.get_char(0);
    let (plus, start): (bool, usize) = if c0 == '+' {
        (true, 1)
    } else if c0 == '-' {
        (false, 1)
    } else {
        (false, 0)
    };
    proof {
        if start == 1 {
            assert(val@.skip(1) == val@.skip(start as int));
        } else {
            assert(val@.skip(0) =~= val@);
        }
    }
    match digits_value(val, start) {
        None => Err(val.to_owned()),
        Some(mag) => {
            if plus {
                if mag <= 9223372036854775807 {
                    if mag == 0 {
                        Ok(TakeValue::PlusZero)
                    } else {
                        Ok(TakeValue::TakeNum(mag as i64))
                    }
                } else {
                    Err(val.to_owned())
                }
            } else {
                if mag <= 9223372036854775807 {
                    Ok(TakeValue::TakeNum(-(mag as i64)))
                } else if mag == 9223372036854775808 {
                    Ok(TakeValue::TakeNum(i64::MIN))
                } else {
                    Err(val.to_owned())
                }
            }
        },
    }
}

/// The one-based position reading starts from, if anything is to be
/// read at all.
pub open spec fn start_index(tv: TakeValue, total: int) -> Option<int> {
    match tv {
        TakeValue::PlusZero => Some(1),
        TakeValue::TakeNum(n) => {
            if n == 0 {
                None
            } else if n > 0 {
                if n <= total {
                    Some(n as int)
                } else {
                    None
                }
            } else {
                let idx = total + 1 + n;
                if idx <= 0 {
                    Some(1)
                } else {
                    Some(idx)
                }
            }
        },
    }
}

/// Turns a tail count and the input's total size into the one-based
/// position to start printing from: `None` means print nothing, a
/// negative count further back than the start clamps to 1.
pub fn get_start_index(take_val: &TakeValue, total: usize) -> (r: Option<usize>)
    requires
        total <= i64::MAX,
    ensures
        r is Some <==> start_index(*take_val, total as int) is Some,
        r is Some ==> r->0 == start_index(*take_val, total as int)->0,
{
    match take_val {
        TakeValue::PlusZero => Some(1),
        TakeValue::TakeNum(num) => {
            let num = *num;
            if num == 0 {
                None
            } else if num > 0 {
                if num <= total as i64 {
                    Some(num as usize)
                } else {
                    None
                }
            } else {
                let t = total as i64 + num;
                if t < 0 {
                    Some(1)
                } else {
                    Some((t + 1) as usize)
                }
            }
        },
    }
}

/// How many newline bytes `s` holds.
pub open spec fn newline_bytes(s: Seq<u8>) -> nat
    decreases s.len(),
{
    if s.len() == 0 {
        0
    } else {
        newline_bytes(s.drop_last()) + (if s.last() == 10 {
            1nat
        } else {
            0nat
        })
    }
}

/// How many newline-terminated chunks a reader sees in `s`: one per
/// newline byte, plus a final unterminated chunk when bytes follow the
/// last newline.
pub open spec fn byte_chunks(s: Seq<u8>) -> nat {
    newline_bytes(s) + (if s.len() > 0 && s.last() != 10 {
        1nat
    } else {
        0nat
    })
}

proof fn lemma_newline_bytes_bound(s: Seq<u8>)
    ensures
        newline_bytes(s) <= s.len(),
    decreases s.len(),
{
    if s.len() > 0 {
        lemma_newline_bytes_bound(s.drop_last());
    }
}

/// Counts an input's lines (newline-terminated chunks, a trailing
/// unterminated one included) and its bytes.
pub fn count_lines_bytes(data: &Vec<u8>) -> (r: (usize, usize))
    ensures
        r.0 == byte_chunks(data@),
        r.1 == data@.len(),
{
    let n = data.len();
    let mut newlines: usize = 0;
    let mut i: usize = 0;
    while i < n
        invariant
            i <= n,
            n == data@.len(),
            newlines == newline_bytes(data@.take(i as int)),
            newlines <= i,
        decreases n - i,
    {
        proof {
            assert(data@.take(i + 1).drop_last() =~= data@.take(i as int));
            assert(data@.take(i + 1).last() == data@[i as int]);
        }
        if data[i] == 10 {
            newlines = newlines + 1;
        }
        i = i + 1;
    }
    proof {
        assert(data@.take(n as int) =~= data@);
    }
    let lines = if n > 0 && !(data[n - 1] == 10) {
        proof {
            lemma_newline_bytes_bound(data@.drop_last());
            assert(newline_bytes(data@) == newline_bytes(data@.drop_last()));
        }
        newlines + 1
    } else {
        newlines
    };
    (lines, n)
}

/// Whether the count applies to lines or to bytes.
#[derive(Debug, Clone, Copy)]
pub enum TailMode {
    Lines(TakeValue),
    Bytes(TakeValue),
}

/// The raw tail flags, as handed in from the command line.
#[derive(Debug)]
pub struct Args {
    pub files: Vec<String>,
    pub lines: String,
    pub bytes: Option<String>,
    pub quiet: bool,
}

/// A validated request: inputs, what to count, and header suppression.
#[derive(Debug)]
pub struct Config {
    pub files: Vec<String>,
    pub tail_mode: TailMode,
    pub quiet: bool,
}

/// Whether a count flag's text is accepted.
pub open spec fn num_accepted(s: Seq<char>) -> bool {
    int_form(s) && i64::MIN <= tail_num_val(s) <= i64::MAX
}

/// The take value an accepted count flag names.
pub open spec fn num_value(s: Seq<char>) -> TakeValue {
    if s[0] == '+' && tail_num_val(s) == 0 {
        TakeValue::PlusZero
    } else {
        TakeValue::TakeNum(tail_num_val(s) as i64)
    }
}

impl Args {
    /// Validates the flags: a byte count takes precedence over the
    /// line count; a bad count is reported with its kind.
    pub fn to_config(self) -> (r: Result<Config, String>)
        ensures
            r is Ok <==> (match self.bytes {
                Some(b) => num_accepted(b@),
                None => num_accepted(self.lines@),
            }),
            r is Ok ==> r->Ok_0.files == self.files && r->Ok_0.quiet == self.quiet,
            r is Ok ==> (match self.bytes {
                Some(b) => r->Ok_0.tail_mode == TailMode::Bytes(num_value(b@)),
                None => r->Ok_0.tail_mode == TailMode::Lines(num_value(self.lines@)),
            }),
            r is Err ==> (match self.bytes {
                Some(b) => r->Err_0@ == "illegal byte count -- "@ + b@,
                None => r->Err_0@ == "illegal line count -- "@ + self.lines@,
            }),
    {
        let tail_mode = match &self.bytes {
            Some(b) => {
                match parse_num(b.as_str()) {
                    Ok(v) => TailMode::Bytes(v),
                    Err(e) => {
                        let mut m = String::from_str("illegal byte count -- ");
                        m.append(e.as_str());
                        return Err(m);
                    },
                }
            },
            None => {
                match parse_num(self.lines.as_str()) {
                    Ok(v) => TailMode::Lines(v),
                    Err(e) => {
                        let mut m = String::from_str("illegal line count -- ");
                        m.append(e.as_str());
                        return Err(m);
                    },
                }
            },
        };
        Ok(Config { files: self.files, tail_mode, quiet: self.quiet })
    }
}

} // verus!
