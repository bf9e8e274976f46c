//! Line, word, byte and character counting over already-read text, and
//! the fixed-width count lines built from the totals.

use vstd::prelude::*;
use vstd::string::StringSliceAdditionalSpecFns;

use crate::text::{dec_digits, pad_left};

verus! {

/// The Unicode `White_Space` characters, the separators between words.
pub open spec fn is_wspace(c: char) -> bool {
    let v = c as u32;
    (9 <= v <= 13) || v == 32 || v == 0x85 || v == 0xA0 || v == 0x1680 || (0x2000 <= v <= 0x200A)
        || v == 0x2028 || v == 0x2029 || v == 0x202F || v == 0x205F || v == 0x3000
}

/// How many newline characters `s` holds.
pub open spec fn newline_count(s: Seq<char>) -> nat
    decreases s.len(),
{
    if s.len() == 0 {
        0
    } else {
        newline_count(s.drop_last()) + (if s.last() == '\n' {
            1nat
        } else {
            0nat
        })
    }
}

/// How many lines a reader sees in `s`: one per newline, plus a final
/// unterminated line when text follows the last newline.
pub open spec fn line_chunks(s: Seq<char>) -> nat {
    newline_count(s) + (if s.len() > 0 && s.last() != '\n' {
        1nat
    } else {
        0nat
    })
}

/// How many words (maximal runs of non-whitespace) `s` holds.
pub open spec fn word_count(s: Seq<char>) -> nat
    decreases s.len(),
{
    if s.len() == 0 {
        0
    } else {
        word_count(s.drop_last()) + (if !is_wspace(s.last()) && (s.len() == 1 || is_wspace(
            s[s.len() - 2],
        )) {
            1nat
        } else {
            0nat
        })
    }
}

/// The four counts of one input.
#[derive(Debug, PartialEq, Eq, Structural, Clone, Copy)]
pub struct FileInfo {
    pub num_lines: usize,
    pub num_words: usize,
    pub num_bytes: usize,
    pub num_chars: usize,
}

impl FileInfo {
    /// All four counts at zero; the unit that totals start from.
    pub fn zero() -> (r: FileInfo)
        ensures
            r.num_lines == 0,
            r.num_words == 0,
            r.num_bytes == 0,
            r.num_chars == 0,
    {
        FileInfo { num_lines: 0, num_words: 0, num_bytes: 0, num_chars: 0 }
    }

    /// Field-wise sum of two counts.
    pub fn add(self, rhs: FileInfo) -> (r: FileInfo)
        requires
            self.num_lines + rhs.num_lines <= usize::MAX,
            self.num_words + rhs.num_words <= usize::MAX,
            self.num_bytes + rhs.num_bytes <= usize::MAX,
            self.num_chars + rhs.num_chars <= usize::MAX,
        ensures
            r.num_lines == self.num_lines + rhs.num_lines,
            r.num_words == self.num_words + rhs.num_words,
            r.num_bytes == self.num_bytes + rhs.num_bytes,
            r.num_chars == self.num_chars + rhs.num_chars,
    {
        FileInfo {
            num_lines: self.num_lines + rhs.num_lines,
            num_words: self.num_words + rhs.num_words,
            num_bytes: self.num_bytes + rhs.num_bytes,
            num_chars: self.num_chars + rhs.num_chars,
        }
    }

    /// Field-wise accumulation of another count into this one.
    pub fn add_assign(&mut self, rhs: &FileInfo)
        requires
            old(self).num_lines + rhs.num_lines <= usize::MAX,
            old(self).num_words + rhs.num_words <= usize::MAX,
            old(self).num_bytes + rhs.num_bytes <= usize::MAX,
            old(self).num_chars + rhs.num_chars <= usize::MAX,
        ensures
            final(self).num_lines == old(self).num_lines + rhs.num_lines,
            final(self).num_words == old(self).num_words + rhs.num_words,
            final(self).num_bytes == old(self).num_bytes + rhs.num_bytes,
            final(self).num_chars == old(self).num_chars + rhs.num_chars,
    {
        self.num_lines = self.num_lines + rhs.num_lines;
        self.num_words = self.num_words + rhs.num_words;
        self.num_bytes = self.num_bytes + rhs.num_bytes;
        self.num_chars = self.num_chars + rhs.num_chars;
    }
}

/// Counts the lines, words, bytes and characters of one input's text.
pub fn count(text: &str) -> (r: FileInfo)
    ensures
        r.num_lines == line_chunks(text@),
        r.num_words == word_count(text@),
        r.num_bytes == text.spec_bytes().len() as usize,
        r.num_chars == text@.len(),
{
    let num_bytes = text.len();
    let n = text.unicode_len();
    let mut newlines: usize = 0;
    let mut words: usize = 0;
    let mut prev_ws: bool = true;
    let mut i: usize = 0;
    while i < n
        invariant
            i <= n,
            n == text@.len(),
            newlines == newline_count(text@.take(i as int)),
            words == word_count(text@.take(i as int)),
            newlines <= i,
            words <= i,
            prev_ws == (i == 0 || is_wspace(text@[i - 1])),
        decreases n - i,
    {
        let c = text.get_char(i);
        let ws = is_whitespace_char(c);
        proof {
            assert(text@.take(i + 1).drop_last() =~= text@.take(i as int));
            assert(text@.take(i + 1).last() == text@[i as int]);
            if i > 0 {
                assert(text@.take(i + 1)[i - 1] == text@[i - 1]);
            }
        }
        if c == '\n' {
            newlines = newlines + 1;
        }
        if !ws && prev_ws {
            words = words + 1;
        }
        prev_ws = ws;
        i = i + 1;
    }
    proof {
        assert(text@.take(n as int) =~= text@);
    }
    let has_tail: bool = if n > 0 {
        !(text.get_char(n - 1) == '\n')
    } else {
        false
    };
    let num_lines = if has_tail {
        proof {
            lemma_newline_bound(text@.drop_last());
            assert(newline_count(text@) == newline_count(text@.drop_last()));
        }
        newlines + 1
    } else {
        newlines
    };
    FileInfo { num_lines, num_words: words, num_bytes, num_chars: n }
}

proof fn lemma_newline_bound(s: Seq<char>)
    ensures
        newline_count(s) <= s.len(),
    decreases s.len(),
{
    if s.len() > 0 {
        lemma_newline_bound(s.drop_last());
    }
}

fn is_whitespace_char(c: char) -> (r: bool)
    ensures
        r == is_wspace(c),
{
    let v = c as u32;
    (9 <= v && v <= 13) || v == 32 || v == 0x85 || v == 0xA0 || v == 0x1680 || (0x2000 <= v && v
        <= 0x200A) || v == 0x2028 || v == 0x2029 || v == 0x202F || v == 0x205F || v == 0x3000
}

/// Which of byte and character counts the output shows, if either.
#[derive(Debug, PartialEq, Eq, Structural, Clone, Copy)]
pub enum ByteOrChar {
    Byte,
    Char,
    Neither,
}

/// The raw count flags, as handed in from the command line. The byte
/// and char flags exclude one another.
#[derive(Debug)]
pub struct Args {
    pub files: Option<Vec<String>>,
    pub lines: bool,
    pub words: bool,
    pub bytes: bool,
    pub chars: bool,
}

/// A validated request: which counts to show for which inputs.
#[derive(Debug)]
pub struct Config {
    pub files: Option<Vec<String>>,
    pub lines: bool,
    pub words: bool,
    pub bytes_or_chars: ByteOrChar,
}

impl Args {
    /// Resolves the flags: with no flag at all, lines, words and bytes
    /// are shown; otherwise exactly the flagged counts are.
    pub fn to_config(self) -> (r: Config)
        requires
            !(self.bytes && self.chars),
        ensures
            (!self.lines && !self.words && !self.bytes && !self.chars) ==> (r.lines && r.words
                && r.bytes_or_chars == ByteOrChar::Byte),
            (self.lines || self.words || self.bytes || self.chars) ==> (r.lines == self.lines
                && r.words == self.words && r.bytes_or_chars == (if self.bytes {
                ByteOrChar::Byte
            } else if self.chars {
                ByteOrChar::Char
            } else {
                ByteOrChar::Neither
            })),
    {
        if !self.lines && !self.words && !self.bytes && !self.chars {
            Config {
                files: self.files,
                lines: true,
                words: true,
                bytes_or_chars: ByteOrChar::Byte,
            }
        } else {
            let boc = if self.bytes {
                ByteOrChar::Byte
            } else if self.chars {
                ByteOrChar::Char
            } else {
                ByteOrChar::Neither
            };
            Config { files: self.files, lines: self.lines, words: self.words, bytes_or_chars: boc }
        }
    }
}

/// The counts chosen by the flags, each right-justified in 8 columns.
pub open spec fn counts_text(
    show_lines: bool,
    show_words: bool,
    boc: ByteOrChar,
    info: FileInfo,
) -> Seq<char> {
    (if show_lines {
        pad_left(dec_digits(info.num_lines as nat), 8)
    } else {
        Seq::empty()
    }) + (if show_words {
        pad_left(dec_digits(info.num_words as nat), 8)
    } else {
        Seq::empty()
    }) + (match boc {
        ByteOrChar::Byte => pad_left(dec_digits(info.num_bytes as nat), 8),
        ByteOrChar::Char => pad_left(dec_digits(info.num_chars as nat), 8),
        ByteOrChar::Neither => Seq::empty(),
    })
}

/// One output line: the chosen counts, and the input's name when it has
/// one, separated by a space.
pub fn info_line(config: &Config, info: &FileInfo, filename: Option<&str>) -> (r: String)
    ensures
        (filename matches Some(f) ==> r@ == counts_text(
            config.lines,
            config.words,
            config.bytes_or_chars,
            *info,
        ) + seq![' '] + f@),
        (filename is None ==> r@ == counts_text(
            config.lines,
            config.words,
            config.bytes_or_chars,
            *info,
        )),
{
    let mut s = String::new();
    if config.lines {
        let t = crate::text::dec_string_padded(info.num_lines as u64, 8);
        s.append(t.as_str());
    }
    if config.words {
        let t = crate::text::dec_string_padded(info.num_words as u64, 8);
        s.append(t.as_str());
    }
    match config.bytes_or_chars {
        ByteOrChar::Byte => {
            let t = crate::text::dec_string_padded(info.num_bytes as u64, 8);
            s.append(t.as_str());
        },
        ByteOrChar::Char => {
            let t = crate::text::dec_string_padded(info.num_chars as u64, 8);
            s.append(t.as_str());
        },
        ByteOrChar::Neither => {},
    }
    proof {
        assert(s@ =~= counts_text(config.lines, config.words, config.bytes_or_chars, *info));
    }
    match filename {
        Some(f) => {
            crate::text::push_char(&mut s, ' ');
            s.append(f);
            proof {
                assert(s@ =~= counts_text(config.lines, config.words, config.bytes_or_chars, *info)
                    + seq![' '] + f@);
            }
            s
        },
        None => s,
    }
}

} // verus!
