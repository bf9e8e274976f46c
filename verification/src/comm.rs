//! Merging two sorted line lists into the three `comm` columns: lines
//! only in the first input, lines only in the second, and common lines.

use vstd::prelude::*;

verus! {

/// What `str::to_lowercase` returns for a given character sequence; the
/// result depends on the characters alone.
pub uninterp spec fn lower_of(s: Seq<char>) -> Seq<char>;

/// Relies on `str::to_lowercase`: Unicode lower-casing, a function of
/// the input characters alone.
#[verifier::external_body]
fn to_lowercase(s: &str) -> (r: String)
    ensures
        r@ == lower_of(s@),
{
    s.to_lowercase()
}

/// Strict lexicographic order on character sequences, by code point —
/// the order `str` comparison uses.
pub open spec fn lex_lt(a: Seq<char>, b: Seq<char>) -> bool
    decreases a.len(),
{
    if b.len() == 0 {
        false
    } else if a.len() == 0 {
        true
    } else if a[0] != b[0] {
        a[0] < b[0]
    } else {
        lex_lt(a.skip(1), b.skip(1))
    }
}

/// Strict lexicographic comparison of two strings.
pub fn str_lt(a: &str, b: &str) -> (r: bool)
    ensures
        r == lex_lt(a@, b@),
{
    let na = a.unicode_len();
    let nb = b.unicode_len();
    let mut i: usize = 0;
    proof {
        assert(a@.skip(0) =~= a@);
        assert(b@.skip(0) =~= b@);
    }
    loop
        invariant
            i <= na,
            i <= nb,
            na == a@.len(),
            nb == b@.len(),
            lex_lt(a@, b@) == lex_lt(a@.skip(i as int), b@.skip(i as int)),
        decreases na - i,
    {
        if i == nb {
            proof {
                assert(b@.skip(i as int).len() == 0);
            }
            return false;
        }
        if i == na {
            proof {
                assert(a@.skip(i as int).len() == 0);
                assert(b@.skip(i as int).len() > 0);
            }
            return true;
        }
        let ca = a.get_char(i);
        let cb = b.get_char(i);
        proof {
            assert(a@.skip(i as int)[0] == a@[i as int]);
            assert(b@.skip(i as int)[0] == b@[i as int]);
            assert(a@.skip(i as int).skip(1) =~= a@.skip(i + 1));
            assert(b@.skip(i as int).skip(1) =~= b@.skip(i + 1));
        }
        if ca != cb {
            return ca < cb;
        }
        i = i + 1;
    }
}

/// The comparison key of a line: the line itself, or its lower-cased
/// form under case-insensitive comparison.
pub open spec fn comm_key(s: Seq<char>, insensitive: bool) -> Seq<char> {
    if insensitive {
        lower_of(s)
    } else {
        s
    }
}

/// The `comm` merge of two line lists, in order: each element tags a
/// line with its column — 1 (only in the first list), 2 (only in the
/// second), or 3 (in both). Lines are consumed head-first, steered by
/// the lexicographic order of their keys, as `comm` does on sorted
/// inputs.
pub open spec fn comm_merge(l1: Seq<Seq<char>>, l2: Seq<Seq<char>>, insensitive: bool) -> Seq<
    (int, Seq<char>),
>
    decreases l1.len() + l2.len(),
{
    if l1.len() == 0 && l2.len() == 0 {
        Seq::empty()
    } else if l1.len() == 0 {
        seq![(2int, l2[0])] + comm_merge(l1, l2.skip(1), insensitive)
    } else if l2.len() == 0 {
        seq![(1int, l1[0])] + comm_merge(l1.skip(1), l2, insensitive)
    } else {
        let k1 = comm_key(l1[0], insensitive);
        let k2 = comm_key(l2[0], insensitive);
        if lex_lt(k1, k2) {
            seq![(1int, l1[0])] + comm_merge(l1.skip(1), l2, insensitive)
        } else if lex_lt(k2, k1) {
            seq![(2int, l2[0])] + comm_merge(l1, l2.skip(1), insensitive)
        } else {
            seq![(3int, l1[0])] + comm_merge(l1.skip(1), l2.skip(1), insensitive)
        }
    }
}

/// The column tags and line texts of the produced pairs.
pub open spec fn out_views(r: Seq<(usize, String)>) -> Seq<(int, Seq<char>)> {
    r.map_values(|p: (usize, String)| (p.0 as int, p.1@))
}

/// The raw `comm` arguments: two input names, the columns to show, the
/// comparison mode, and the column delimiter.
#[derive(Debug)]
pub struct Args {
    pub file1: String,
    pub file2: String,
    pub show_col1: bool,
    pub show_col2: bool,
    pub show_col3: bool,
    pub insensitive: bool,
    pub delimiter: String,
}

fn is_dash(s: &str) -> (r: bool)
    ensures
        r == (s@ == "-"@),
{
    proof {
        reveal_strlit("-");
    }
    if s.unicode_len() == 1 {
        if s.get_char(0) == '-' {
            proof {
                assert(s@ =~= "-"@);
            }
            return true;
        }
    }
    false
}

/// Validates the arguments: at most one of the two inputs may be
/// standard input (named `"-"`).
pub fn get_args(args: Args) -> (r: Result<Args, String>)
    ensures
        r is Ok <==> !(args.file1@ == "-"@ && args.file2@ == "-"@),
        r is Ok ==> r->Ok_0 == args,
        r is Err ==> r->Err_0@ == "Both input files can't be STDIN (\"-\")"@,
{
    if is_dash(args.file1.as_str()) && is_dash(args.file2.as_str()) {
        Err(String::from_str("Both input files can't be STDIN (\"-\")"))
    } else {
        Ok(args)
    }
}

/// Merges two already-read line lists into tagged `comm` columns.
pub fn proc_lines(lines1: &Vec<String>, lines2: &Vec<String>, insensitive: bool) -> (r: Vec<
    (usize, String),
>)
    ensures
        out_views(r@) == comm_merge(lines1.deep_view(), lines2.deep_view(), insensitive),
{
    let ghost v1 = lines1.deep_view();
    let ghost v2 = lines2.deep_view();
    let n1 = lines1.len();
    let n2 = lines2.len();
    let mut res: Vec<(usize, String)> = Vec::new();
    let mut i: usize = 0;
    let mut j: usize = 0;
    proof {
        assert(v1.skip(0) =~= v1);
        assert(v2.skip(0) =~= v2);
    }
    while i < n1 || j < n2
        invariant
            i <= n1,
            j <= n2,
            n1 == v1.len(),
            n2 == v2.len(),
            v1 == lines1.deep_view(),
            v2 == lines2.deep_view(),
            out_views(res@) + comm_merge(v1.skip(i as int), v2.skip(j as int), insensitive)
                == comm_merge(v1, v2, insensitive),
        decreases n1 - i + n2 - j,
    {
        let ghost r1 = v1.skip(i as int);
        let ghost r2 = v2.skip(j as int);
        proof {
            if i < n1 {
                assert(r1[0] == v1[i as int]);
                assert(v1[i as int] == lines1@[i as int]@);
                assert(r1.skip(1) =~= v1.skip(i + 1));
            }
            if j < n2 {
                assert(r2[0] == v2[j as int]);
                assert(v2[j as int] == lines2@[j as int]@);
                assert(r2.skip(1) =~= v2.skip(j + 1));
            }
        }
        if i >= n1 {
            let line = (&lines2[j]).clone();
            res.push((2, line));
            j = j + 1;
        } else if j >= n2 {
            let line = (&lines1[i]).clone();
            res.push((1, line));
            i = i + 1;
        } else {
            let key1: String = if insensitive {
                to_lowercase((&lines1[i]).as_str())
            } else {
                (&lines1[i]).clone()
            };
            let key2: String = if insensitive {
                to_lowercase((&lines2[j]).as_str())
            } else {
                (&lines2[j]).clone()
            };
            if str_lt(key1.as_str(), key2.as_str()) {
                let line = (&lines1[i]).clone();
                res.push((1, line));
                i = i + 1;
            } else if str_lt(key2.as_str(), key1.as_str()) {
                let line = (&lines2[j]).clone();
                res.push((2, line));
                j = j + 1;
            } else {
                let line = (&lines1[i]).clone();
                res.push((3, line));
                i = i + 1;
                j = j + 1;
            }
        }
        proof {
            assert(out_views(res@) =~= out_views(res@.drop_last()).push(
                (res@.last().0 as int, res@.last().1@),
            ));
        }
    }
    proof {
        assert(v1.skip(n1 as int).len() == 0);
        assert(v2.skip(n2 as int).len() == 0);
        assert(comm_merge(v1.skip(n1 as int), v2.skip(n2 as int), insensitive)
            == Seq::<(int, Seq<char>)>::empty());
        assert(out_views(res@) + Seq::<(int, Seq<char>)>::empty() =~= out_views(res@));
    }
    res
}

/// The printed form of one tagged line under the given column flags:
/// nothing when its column is hidden, else the line indented by one
/// delimiter for every visible column before its own.
pub open spec fn formatted_line(
    col: int,
    line: Seq<char>,
    show1: bool,
    show2: bool,
    show3: bool,
    delim: Seq<char>,
) -> Seq<Seq<char>> {
    if col == 1 && show1 {
        seq![line]
    } else if col == 2 && show2 {
        if show1 {
            seq![delim + line]
        } else {
            seq![line]
        }
    } else if col == 3 && show3 {
        if show1 && show2 {
            seq![delim + delim + line]
        } else if show1 || show2 {
            seq![delim + line]
        } else {
            seq![line]
        }
    } else {
        Seq::empty()
    }
}

/// The printed form of a whole tagged-line list.
pub open spec fn formatted_lines(
    merged: Seq<(int, Seq<char>)>,
    show1: bool,
    show2: bool,
    show3: bool,
    delim: Seq<char>,
) -> Seq<Seq<char>>
    decreases merged.len(),
{
    if merged.len() == 0 {
        Seq::empty()
    } else {
        formatted_line(merged[0].0, merged[0].1, show1, show2, show3, delim) + formatted_lines(
            merged.skip(1),
            show1,
            show2,
            show3,
            delim,
        )
    }
}

/// Renders the tagged columns into printable lines, honouring the
/// column-visibility flags and the delimiter of `args`.
pub fn print_result(res: &Vec<(usize, String)>, args: &Args) -> (out: Vec<String>)
    ensures
        out.deep_view() == formatted_lines(
            out_views(res@),
            args.show_col1,
            args.show_col2,
            args.show_col3,
            args.delimiter@,
        ),
{
    let ghost merged = out_views(res@);
    let mut out: Vec<String> = Vec::new();
    let mut i: usize = 0;
    proof {
        assert(merged.skip(0) =~= merged);
    }
    while i < res.len()
        invariant
            i <= res@.len(),
            merged == out_views(res@),
            merged.len() == res@.len(),
            out.deep_view() + formatted_lines(
                merged.skip(i as int),
                args.show_col1,
                args.show_col2,
                args.show_col3,
                args.delimiter@,
            ) == formatted_lines(
                merged,
                args.show_col1,
                args.show_col2,
                args.show_col3,
                args.delimiter@,
            ),
        decreases res@.len() - i,
    {
        let col: usize = res[i].0;
        let line: &String = &res[i].1;
        proof {
            assert(merged.skip(i as int)[0] == (res@[i as int].0 as int, res@[i as int].1@));
            assert(merged.skip(i as int).skip(1) =~= merged.skip(i + 1));
        }
        let ghost before = out.deep_view();
        if col == 1 && args.show_col1 {
            out.push(line.clone());
        } else if col == 2 && args.show_col2 {
            if args.show_col1 {
                let mut s = args.delimiter.clone();
                s.append(line.as_str());
                out.push(s);
            } else {
                out.push(line.clone());
            }
        } else if col == 3 && args.show_col3 {
            if args.show_col1 && args.show_col2 {
                let mut s = args.delimiter.clone();
                s.append(args.delimiter.as_str());
                s.append(line.as_str());
                out.push(s);
            } else if args.show_col1 || args.show_col2 {
                let mut s = args.delimiter.clone();
                s.append(line.as_str());
                out.push(s);
            } else {
                out.push(line.clone());
            }
        }
        proof {
            if out@.len() > before.len() {
                assert(out.deep_view() =~= before.push(out@.last()@));
            } else {
                assert(out.deep_view() =~= before);
            }
        }
        i = i + 1;
    }
    proof {
        assert(formatted_lines(
            merged.skip(res@.len() as int),
            args.show_col1,
            args.show_col2,
            args.show_col3,
            args.delimiter@,
        ) == Seq::<Seq<char>>::empty());
        assert(out.deep_view() + Seq::<Seq<char>>::empty() =~= out.deep_view());
    }
    out
}

/// The whole `comm` computation over already-read inputs: merge the two
/// line lists, then render the visible columns.
pub fn run(lines1: &Vec<String>, lines2: &Vec<String>, args: &Args) -> (out: Vec<String>)
    ensures
        out.deep_view() == formatted_lines(
            comm_merge(lines1.deep_view(), lines2.deep_view(), args.insensitive),
            args.show_col1,
            args.show_col2,
            args.show_col3,
            args.delimiter@,
        ),
{
    let merged = proc_lines(lines1, lines2, args.insensitive);
    print_result(&merged, args)
}

} // verus!
