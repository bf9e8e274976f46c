//! Taking the first lines or bytes of an input, and the flag
//! resolution of a file-head tool.

use vstd::prelude::*;

verus! {

/// Whether the run prints leading lines or leading bytes, and how many.
#[derive(Debug, PartialEq, Eq, Structural, Clone, Copy)]
pub enum PrintMode {
    LineMode(usize),
    ByteMode(usize),
}

/// The raw head flags, as handed in from the command line; the counts
/// are already numeric and at least 1.
#[derive(Debug)]
pub struct Args {
    pub files: Option<Vec<String>>,
    pub lines: u64,
    pub bytes: Option<u64>,
}

/// A validated request: inputs and what to print of each.
#[derive(Debug)]
pub struct Config {
    pub files: Option<Vec<String>>,
    pub print_mode: PrintMode,
}

impl Args {
    /// Resolves the flags: a byte count takes precedence over the
    /// line count.
    pub fn to_config(self) -> (r: Config)
        requires
            self.lines <= usize::MAX,
            self.bytes matches Some(b) ==> b <= usize::MAX,
        ensures
            r.files == self.files,
            r.print_mode == (match self.bytes {
                Some(b) => PrintMode::ByteMode(b as usize),
                None => PrintMode::LineMode(self.lines as usize),
            }),
    {
        let print_mode = match self.bytes {
            Some(b) => PrintMode::ByteMode(b as usize),
            None => PrintMode::LineMode(self.lines as usize),
        };
        Config { files: self.files, print_mode }
    }
}

/// The first `n` lines of an input, or all of them when it is shorter.
pub fn head_lines(lines: &Vec<String>, n: usize) -> (r: Vec<String>)
    ensures
        r@.len() == (if n <= lines@.len() {
            n as int
        } else {
            lines@.len() as int
        }),
        forall|i: int| 0 <= i < r@.len() ==> r@[i] == lines@[i],
{
    let take = if n <= lines.len() {
        n
    } else {
        lines.len()
    };
    let mut out: Vec<String> = Vec::new();
    let mut i: usize = 0;
    while i < take
        invariant
            i <= take,
            take <= lines@.len(),
            out@.len() == i,
            forall|j: int| 0 <= j < i ==> out@[j] == lines@[j],
        decreases take - i,
    {
        out.push((&lines[i]).clone());
        i = i + 1;
    }
    out
}

/// The first `n` bytes of an input, or all of them when it is shorter.
pub fn head_bytes(bytes: &Vec<u8>, n: usize) -> (r: Vec<u8>)
    ensures
        r@ == bytes@.take(
            if n <= bytes@.len() {
                n as int
            } else {
                bytes@.len() as int
            },
        ),
{
    let take = if n <= bytes.len() {
        n
    } else {
        bytes.len()
    };
    let mut out: Vec<u8> = Vec::new();
    let mut i: usize = 0;
    while i < take
        invariant
            i <= take,
            take <= bytes@.len(),
            out@ == bytes@.take(i as int),
        decreases take - i,
    {
        out.push(bytes[i]);
        proof {
            assert(out@ =~= bytes@.take(i + 1));
        }
        i = i + 1;
    }
    out
}

} // verus!
