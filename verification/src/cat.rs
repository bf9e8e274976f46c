//! Line numbering for a file-concatenating tool: plain output,
//! numbering every line, or numbering only the non-blank ones.

use vstd::prelude::*;

use crate::text::{dec_digits, dec_string_padded, pad_left, push_char};

verus! {

/// How lines are printed.
#[derive(Debug, PartialEq, Eq, Structural, Clone, Copy)]
pub enum PrintMode {
    Normal,
    Number,
    NumberAndNonblank,
}

/// Where the text comes from.
#[derive(Debug)]
pub enum Input {
    Stdin,
    Files(Vec<String>),
}

/// The raw flags, as handed in from the command line.
#[derive(Debug)]
pub struct Arg {
    pub files: Option<Vec<String>>,
    pub print_mode: PrintMode,
}

/// A resolved request: the input source and the numbering mode.
#[derive(Debug)]
pub struct Config {
    pub input: Input,
    pub print_mode: PrintMode,
}

impl Arg {
    /// Resolves the files flag: absent means standard input.
    pub fn to_config(self) -> (r: Config)
        ensures
            r.print_mode == self.print_mode,
            self.files is None ==> r.input is Stdin,
            (self.files matches Some(fs) ==> (r.input matches Input::Files(got) && got == fs)),
    {
        Config {
            input: match self.files {
                None => Input::Stdin,
                Some(files) => Input::Files(files),
            },
            print_mode: self.print_mode,
        }
    }
}

/// A numbered line: the number right-justified in six columns, a tab,
/// then the line.
pub open spec fn numbered_line(n: nat, line: Seq<char>) -> Seq<char> {
    pad_left(dec_digits(n), 6) + seq!['\t'] + line
}

/// The printed lines from line `i` on, with `counter` the number the
/// next numbered line gets.
pub open spec fn cat_out(lines: Seq<Seq<char>>, i: int, counter: nat, mode: PrintMode) -> Seq<
    Seq<char>,
>
    decreases lines.len() - i,
{
    if i < 0 || i >= lines.len() {
        Seq::empty()
    } else {
        match mode {
            PrintMode::Normal => seq![lines[i]] + cat_out(lines, i + 1, counter, mode),
            PrintMode::Number => seq![numbered_line(counter, lines[i])] + cat_out(
                lines,
                i + 1,
                counter + 1,
                mode,
            ),
            PrintMode::NumberAndNonblank => {
                if lines[i].len() == 0 {
                    seq![Seq::empty()] + cat_out(lines, i + 1, counter, mode)
                } else {
                    seq![numbered_line(counter, lines[i])] + cat_out(lines, i + 1, counter + 1, mode)
                }
            },
        }
    }
}

/// Prints one already-read input: as-is, numbered, or with only
/// non-blank lines numbered (blank lines print empty). Numbering
/// starts at 1.
pub fn cat_file(mode: PrintMode, lines: &Vec<String>) -> (r: Vec<String>)
    requires
        lines@.len() < usize::MAX,
    ensures
        r.deep_view() == cat_out(lines.deep_view(), 0, 1, mode),
{
    let ghost v = lines.deep_view();
    let mut out: Vec<String> = Vec::new();
    let mut counter: usize = 1;
    let mut i: usize = 0;
    while i < lines.len()
        invariant
            i <= lines@.len(),
            v == lines.deep_view(),
            v.len() == lines@.len(),
            lines@.len() < usize::MAX,
            1 <= counter <= i + 1,
            out.deep_view() + cat_out(v, i as int, counter as nat, mode) == cat_out(v, 0, 1, mode),
        decreases lines@.len() - i,
    {
        proof {
            assert(v[i as int] == lines@[i as int]@);
        }
        let line = &lines[i];
        let ghost before = out.deep_view();
        match mode {
            PrintMode::Normal => {
                out.push(line.clone());
                proof {
                    assert(out.deep_view() =~= before.push(v[i as int]));
                    assert(before.push(v[i as int]) + cat_out(v, i + 1, counter as nat, mode)
                        =~= before + (seq![v[i as int]] + cat_out(v, i + 1, counter as nat, mode)));
                }
            },
            PrintMode::Number => {
                let mut s = dec_string_padded(counter as u64, 6);
                push_char(&mut s, '\t');
                s.append(line.as_str());
                proof {
                    assert(s@ =~= numbered_line(counter as nat, v[i as int]));
                }
                out.push(s);
                proof {
                    assert(out.deep_view() =~= before.push(
                        numbered_line(counter as nat, v[i as int]),
                    ));
                    assert(before.push(numbered_line(counter as nat, v[i as int])) + cat_out(
                        v,
                        i + 1,
                        counter as nat + 1,
                        mode,
                    ) =~= before + (seq![numbered_line(counter as nat, v[i as int])] + cat_out(
                        v,
                        i + 1,
                        counter as nat + 1,
                        mode,
                    )));
                }
                counter = counter + 1;
            },
            PrintMode::NumberAndNonblank => {
                if line.as_str().unicode_len() == 0 {
                    out.push(String::new());
                    proof {
                        assert(v[i as int] =~= Seq::<char>::empty());
                        assert(out.deep_view() =~= before.push(Seq::<char>::empty()));
                        assert(before.push(Seq::<char>::empty()) + cat_out(
                            v,
                            i + 1,
                            counter as nat,
                            mode,
                        ) =~= before + (seq![Seq::<char>::empty()] + cat_out(
                            v,
                            i + 1,
                            counter as nat,
                            mode,
                        )));
                    }
                } else {
                    let mut s = dec_string_padded(counter as u64, 6);
                    push_char(&mut s, '\t');
                    s.append(line.as_str());
                    proof {
                        assert(s@ =~= numbered_line(counter as nat, v[i as int]));
                    }
                    out.push(s);
                    proof {
                        assert(out.deep_view() =~= before.push(
                            numbered_line(counter as nat, v[i as int]),
                        ));
                        assert(before.push(numbered_line(counter as nat, v[i as int])) + cat_out(
                            v,
                            i + 1,
                            counter as nat + 1,
                            mode,
                        ) =~= before + (seq![numbered_line(counter as nat, v[i as int])] + cat_out(
                            v,
                            i + 1,
                            counter as nat + 1,
                            mode,
                        )));
                    }
                    counter = counter + 1;
                }
            },
        }
        i = i + 1;
    }
    proof {
        assert(out.deep_view() + Seq::<Seq<char>>::empty() =~= out.deep_view());
    }
    out
}

} // verus!
