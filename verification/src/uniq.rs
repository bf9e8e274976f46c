//! Collapsing consecutive duplicate lines, with optional counts, the
//! way `uniq` does: two lines are the same when they differ only in
//! surrounding newline characters.

use vstd::prelude::*;

use crate::text::{dec_digits, dec_string_padded, pad_left, push_char};

verus! {

/// `s` with trailing newline characters removed.
pub open spec fn trim_nl_end(s: Seq<char>) -> Seq<char>
    decreases s.len(),
{
    if s.len() > 0 && s.last() == '\n' {
        trim_nl_end(s.drop_last())
    } else {
        s
    }
}

/// `s` with leading newline characters removed.
pub open spec fn trim_nl_start(s: Seq<char>) -> Seq<char>
    decreases s.len(),
{
    if s.len() > 0 && s[0] == '\n' {
        trim_nl_start(s.skip(1))
    } else {
        s
    }
}

/// `s` with newline characters removed from both ends.
pub open spec fn trim_nl(s: Seq<char>) -> Seq<char> {
    trim_nl_start(trim_nl_end(s))
}

proof fn lemma_trim_nl_end(s: Seq<char>, hi: int)
    requires
        0 <= hi <= s.len(),
        forall|j: int| hi <= j < s.len() ==> s[j] == '\n',
        hi == 0 || s[hi - 1] != '\n',
    ensures
        trim_nl_end(s) == s.take(hi),
    decreases s.len(),
{
    if s.len() > 0 && s.last() == '\n' {
        assert(hi < s.len());
        lemma_trim_nl_end(s.drop_last(), hi);
        assert(s.drop_last().take(hi) =~= s.take(hi));
    } else {
        assert(hi == s.len());
        assert(s.take(hi) =~= s);
    }
}

proof fn lemma_trim_nl_start(s: Seq<char>, lo: int)
    requires
        0 <= lo <= s.len(),
        forall|j: int| 0 <= j < lo ==> s[j] == '\n',
        lo == s.len() || s[lo] != '\n',
    ensures
        trim_nl_start(s) == s.skip(lo),
    decreases lo,
{
    if lo > 0 {
        assert(s[0] == '\n');
        assert(forall|j: int| 0 <= j < lo - 1 ==> #[trigger] s.skip(1)[j] == s[j + 1]);
        if lo - 1 < s.skip(1).len() {
            assert(s.skip(1)[lo - 1] == s[lo as int]);
        }
        lemma_trim_nl_start(s.skip(1), lo - 1);
        assert(s.skip(1).skip(lo - 1) =~= s.skip(lo));
    } else if s.len() > 0 {
        assert(s[0] != '\n');
        assert(s.skip(0) =~= s);
    } else {
        assert(s.skip(0) =~= s);
    }
}

/// The trimmed form of a line, as indexes into it.
fn trim_bounds(s: &str) -> (r: (usize, usize))
    ensures
        r.0 <= r.1 <= s@.len(),
        trim_nl(s@) == s@.subrange(r.0 as int, r.1 as int),
{
    let n = s.unicode_len();
    let mut hi: usize = n;
    while hi > 0 && s.get_char(hi - 1) == '\n'
        invariant
            hi <= n,
            n == s@.len(),
            forall|j: int| hi <= j < n ==> s@[j] == '\n',
        decreases hi,
    {
        hi = hi - 1;
    }
    proof {
        lemma_trim_nl_end(s@, hi as int);
    }
    let mut lo: usize = 0;
    while lo < hi && s.get_char(lo) == '\n'
        invariant
            lo <= hi <= n,
            n == s@.len(),
            forall|j: int| 0 <= j < lo ==> s@[j] == '\n',
            trim_nl_end(s@) == s@.take(hi as int),
        decreases hi - lo,
    {
        lo = lo + 1;
    }
    proof {
        let t = s@.take(hi as int);
        assert(forall|j: int| 0 <= j < lo ==> #[trigger] t[j] == s@[j]);
        if (lo as int) < t.len() {
            assert(t[lo as int] == s@[lo as int]);
            assert(t[lo as int] != '\n');
        } else {
            assert(lo == hi);
        }
        lemma_trim_nl_start(t, lo as int);
        assert(t.skip(lo as int) =~= s@.subrange(lo as int, hi as int));
    }
    (lo, hi)
}

/// Whether two lines are equal once surrounding newlines are dropped.
fn same_trimmed(a: &str, b: &str) -> (r: bool)
    ensures
        r == (trim_nl(a@) == trim_nl(b@)),
{
    let (alo, ahi) = trim_bounds(a);
    let (blo, bhi) = trim_bounds(b);
    let ta = a.substring_char(alo, ahi);
    let tb = b.substring_char(blo, bhi);
    let na = ta.unicode_len();
    let nb = tb.unicode_len();
    if na != nb {
        proof {
            assert(trim_nl(a@).len() != trim_nl(b@).len());
        }
        return false;
    }
    let mut i: usize = 0;
    while i < na
        invariant
            i <= na,
            na == nb,
            na == ta@.len(),
            nb == tb@.len(),
            ta@ == trim_nl(a@),
            tb@ == trim_nl(b@),
            forall|j: int| 0 <= j < i ==> ta@[j] == tb@[j],
        decreases na - i,
    {
        if !(ta.get_char(i) == tb.get_char(i)) {
            return false;
        }
        i = i + 1;
    }
    proof {
        assert(ta@ =~= tb@);
    }
    true
}

/// One output line: the line itself, or prefixed by its occurrence
/// count right-justified in four columns.
pub open spec fn counted_line(with_count: bool, count: nat, line: Seq<char>) -> Seq<char> {
    if with_count {
        pad_left(dec_digits(count), 4) + seq![' '] + line
    } else {
        line
    }
}

/// Renders one output line, with its count when asked for.
pub fn print_line(count_flg: bool, count: usize, line: &String) -> (r: String)
    ensures
        r@ == counted_line(count_flg, count as nat, line@),
{
    if count_flg {
        let mut s = dec_string_padded(count as u64, 4);
        push_char(&mut s, ' ');
        s.append(line.as_str());
        proof {
            assert(s@ =~= counted_line(true, count as nat, line@));
        }
        s
    } else {
        line.clone()
    }
}

/// The output of the duplicate-collapsing pass from line `i` on, given
/// the group collected so far (`prev` seen `count` times; `count` is 0
/// only before any line was seen).
pub open spec fn uniq_out(
    lines: Seq<Seq<char>>,
    i: int,
    prev: Seq<char>,
    count: nat,
    with_count: bool,
) -> Seq<Seq<char>>
    decreases lines.len() - i,
{
    if i < 0 || i >= lines.len() {
        if count > 0 {
            seq![counted_line(with_count, count, prev)]
        } else {
            Seq::empty()
        }
    } else if count == 0 {
        uniq_out(lines, i + 1, lines[i], 1, with_count)
    } else if trim_nl(prev) == trim_nl(lines[i]) {
        uniq_out(lines, i + 1, prev, count + 1, with_count)
    } else {
        seq![counted_line(with_count, count, prev)] + uniq_out(lines, i + 1, lines[i], 1, with_count)
    }
}

/// Collapses consecutive duplicate lines (duplicates up to surrounding
/// newlines), keeping each group's first form, counted when asked.
pub fn uniq_lines(lines: &Vec<String>, count_flg: bool) -> (r: Vec<String>)
    ensures
        r.deep_view() == uniq_out(lines.deep_view(), 0, Seq::empty(), 0, count_flg),
{
    let ghost v = lines.deep_view();
    let mut out: Vec<String> = Vec::new();
    let mut prev: String = String::new();
    let mut count: usize = 0;
    let mut i: usize = 0;
    while i < lines.len()
        invariant
            i <= lines@.len(),
            v == lines.deep_view(),
            v.len() == lines@.len(),
            count <= i,
            i > 0 ==> count > 0,
            out.deep_view() + uniq_out(v, i as int, prev@, count as nat, count_flg) == uniq_out(
                v,
                0,
                Seq::empty(),
                0,
                count_flg,
            ),
        decreases lines@.len() - i,
    {
        proof {
            assert(v[i as int] == lines@[i as int]@);
        }
        let line = &lines[i];
        if count == 0 {
            prev = line.clone();
            count = 1;
        } else if same_trimmed(prev.as_str(), line.as_str()) {
            count = count + 1;
        } else {
            let ghost before = out.deep_view();
            let done = print_line(count_flg, count, &prev);
            out.push(done);
            proof {
                assert(out.deep_view() =~= before.push(
                    counted_line(count_flg, count as nat, prev@),
                ));
                assert(before.push(counted_line(count_flg, count as nat, prev@)) + uniq_out(
                    v,
                    i + 1,
                    v[i as int],
                    1,
                    count_flg,
                ) =~= before + (seq![counted_line(count_flg, count as nat, prev@)] + uniq_out(
                    v,
                    i + 1,
                    v[i as int],
                    1,
                    count_flg,
                )));
            }
            prev = line.clone();
            count = 1;
        }
        i = i + 1;
    }
    if count > 0 {
        let ghost before = out.deep_view();
        let done = print_line(count_flg, count, &prev);
        out.push(done);
        proof {
            assert(out.deep_view() =~= before.push(counted_line(count_flg, count as nat, prev@)));
            assert(before.push(counted_line(count_flg, count as nat, prev@)) =~= before + seq![
                counted_line(count_flg, count as nat, prev@),
            ]);
        }
    } else {
        proof {
            assert(out.deep_view() + Seq::<Seq<char>>::empty() =~= out.deep_view());
        }
    }
    out
}

} // verus!
