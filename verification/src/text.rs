//! Shared text helpers: decimal rendering, padding, and the one
//! `String`-building primitive the rest of the crate uses.

use vstd::prelude::*;

verus! {

/// The character for a single decimal digit value.
pub open spec fn digit_char(d: nat) -> char {
    ((d + 48) as u8) as char
}

/// The decimal digits of `n`, most significant first, no sign, no padding.
pub open spec fn dec_digits(n: nat) -> Seq<char>
    decreases n,
{
    if n < 10 {
        seq![digit_char(n)]
    } else {
        dec_digits(n / 10).push(digit_char(n % 10))
    }
}

/// A run of `n` copies of `c`.
pub open spec fn repeat_char(c: char, n: nat) -> Seq<char>
    decreases n,
{
    if n == 0 {
        Seq::empty()
    } else {
        repeat_char(c, (n - 1) as nat).push(c)
    }
}

/// `s` left-padded with spaces to `width` columns; longer strings are kept.
pub open spec fn pad_left(s: Seq<char>, width: nat) -> Seq<char> {
    if s.len() >= width {
        s
    } else {
        repeat_char(' ', (width - s.len()) as nat) + s
    }
}

pub proof fn lemma_repeat_char_len(c: char, n: nat)
    ensures
        repeat_char(c, n).len() == n,
    decreases n,
{
    if n > 0 {
        lemma_repeat_char_len(c, (n - 1) as nat);
    }
}

/// Number of decimal digits: 1 for 0..=9, and so on.
pub proof fn lemma_dec_digits_len(n: nat)
    ensures
        n < 10 ==> dec_digits(n).len() == 1,
        10 <= n < 100 ==> dec_digits(n).len() == 2,
        100 <= n < 1000 ==> dec_digits(n).len() == 3,
        1000 <= n < 10000 ==> dec_digits(n).len() == 4,
    decreases n,
{
    if n >= 10 {
        lemma_dec_digits_len(n / 10);
    }
}

/// Whether `c` is a decimal digit.
pub open spec fn is_digit(c: char) -> bool {
    '0' <= c && c <= '9'
}

/// The value of a decimal digit character.
pub open spec fn digit_val(c: char) -> nat {
    ((c as u32) - 48) as nat
}

/// Whether every character of `s` is a decimal digit.
pub open spec fn all_digits(s: Seq<char>) -> bool {
    forall|i: int| 0 <= i < s.len() ==> is_digit(#[trigger] s[i])
}

/// The number written by a run of decimal digits, most significant first.
pub open spec fn digits_val(s: Seq<char>) -> nat
    decreases s.len(),
{
    if s.len() == 0 {
        0
    } else {
        digits_val(s.drop_last()) * 10 + digit_val(s.last())
    }
}

/// Whether `s` is the textual form of an integer: an optional sign
/// followed by at least one decimal digit.
pub open spec fn int_form(s: Seq<char>) -> bool {
    if s.len() == 0 {
        false
    } else if s[0] == '+' || s[0] == '-' {
        s.len() > 1 && all_digits(s.skip(1))
    } else {
        all_digits(s)
    }
}

/// The integer written by `s` (meaningful when `int_form(s)` holds).
pub open spec fn int_val(s: Seq<char>) -> int {
    if s.len() > 0 && s[0] == '-' {
        -(digits_val(s.skip(1)) as int)
    } else if s.len() > 0 && s[0] == '+' {
        digits_val(s.skip(1)) as int
    } else {
        digits_val(s) as int
    }
}

/// The decimal rendering of `v`, with a leading minus sign when negative.
pub open spec fn signed_dec(v: int) -> Seq<char> {
    if v < 0 {
        seq!['-'] + dec_digits((-v) as nat)
    } else {
        dec_digits(v as nat)
    }
}

proof fn lemma_digits_val_step(s: Seq<char>, j: int)
    requires
        0 <= j < s.len(),
    ensures
        digits_val(s.take(j + 1)) == digits_val(s.take(j)) * 10 + digit_val(s[j]),
{
    assert(s.take(j + 1).drop_last() =~= s.take(j));
    assert(s.take(j + 1).last() == s[j]);
}

/// Reads the run of decimal digits that starts at character `from` and
/// runs to the end of `s`: the written value, or `None` when the run is
/// empty, a non-digit occurs, or the value exceeds `u64::MAX`.
pub fn digits_value(s: &str, from: usize) -> (r: Option<u64>)
    requires
        from <= s@.len(),
    ensures
        r is Some <==> (from < s@.len() && all_digits(s@.skip(from as int)) && digits_val(
            s@.skip(from as int),
        ) <= u64::MAX),
        r is Some ==> r->0 == digits_val(s@.skip(from as int)),
{
    let ghost t = s@.skip(from as int);
    let n = s.unicode_len();
    if from == n {
        return None;
    }
    let mut acc: u64 = 0;
    let mut over: bool = false;
    let mut i: usize = from;
    while i < n
        invariant
            from <= i <= n,
            n == s@.len(),
            t == s@.skip(from as int),
            t.len() == n - from,
            forall|j: int| 0 <= j < i - from ==> is_digit(#[trigger] t[j]),
            !over ==> acc == digits_val(t.take(i - from)),
            over ==> digits_val(t.take(i - from)) > u64::MAX,
        decreases n - i,
    {
        let c = s.get_char(i);
        let cv = c as u32;
        proof {
            assert(t[i - from] == s@[i as int]);
        }
        if cv < 48 || cv > 57 {
            proof {
                assert(!is_digit(t[i - from]));
            }
            return None;
        }
        let d = (cv - 48) as u64;
        proof {
            lemma_digits_val_step(t, i - from);
        }
        if over {
            proof {
                assert(digits_val(t.take(i - from + 1)) > u64::MAX) by (nonlinear_arith)
                    requires
                        digits_val(t.take(i - from + 1)) == digits_val(t.take(i - from)) * 10
                            + digit_val(t[i - from]),
                        digits_val(t.take(i - from)) > u64::MAX,
                ;
            }
        } else if acc > (u64::MAX - d) / 10 {
            over = true;
            proof {
                assert(digits_val(t.take(i - from + 1)) > u64::MAX) by (nonlinear_arith)
                    requires
                        digits_val(t.take(i - from + 1)) == digits_val(t.take(i - from)) * 10
                            + digit_val(t[i - from]),
                        digits_val(t.take(i - from)) == acc,
                        digit_val(t[i - from]) == d,
                        acc > (u64::MAX - d) / 10,
                        d <= 9,
                ;
            }
        } else {
            proof {
                assert(acc * 10 + d <= u64::MAX) by (nonlinear_arith)
                    requires
                        acc <= (u64::MAX - d) / 10,
                        d <= 9,
                ;
            }
            acc = acc * 10 + d;
        }
        i = i + 1;
    }
    proof {
        assert(t.take(n - from) =~= t);
    }
    if over {
        None
    } else {
        Some(acc)
    }
}

/// The index of the first occurrence of `c` in `s`, or `s.len()` when
/// `c` does not occur.
pub open spec fn find_char(s: Seq<char>, c: char) -> int
    decreases s.len(),
{
    if s.len() == 0 {
        0
    } else if s[0] == c {
        0
    } else {
        1 + find_char(s.skip(1), c)
    }
}

pub proof fn lemma_find_char(s: Seq<char>, c: char, off: int)
    requires
        0 <= off <= s.len(),
        forall|j: int| 0 <= j < off ==> s[j] != c,
        off == s.len() || s[off] == c,
    ensures
        find_char(s, c) == off,
    decreases off,
{
    if s.len() > 0 && off > 0 {
        assert(forall|j: int| 0 <= j < off - 1 ==> #[trigger] s.skip(1)[j] == s[j + 1]);
        if off - 1 < s.skip(1).len() {
            assert(s.skip(1)[off - 1] == s[off]);
        }
        lemma_find_char(s.skip(1), c, off - 1);
    }
}

pub proof fn lemma_find_char_bounds(s: Seq<char>, c: char)
    ensures
        0 <= find_char(s, c) <= s.len(),
        find_char(s, c) < s.len() ==> s[find_char(s, c)] == c,
        forall|j: int| 0 <= j < find_char(s, c) ==> s[j] != c,
    decreases s.len(),
{
    if s.len() > 0 && s[0] != c {
        lemma_find_char_bounds(s.skip(1), c);
        assert forall|j: int| 0 <= j < find_char(s, c) implies s[j] != c by {
            if j > 0 {
                assert(s.skip(1)[j - 1] == s[j]);
            }
        }
        if find_char(s, c) < s.len() {
            assert(s.skip(1)[find_char(s, c) - 1] == s[find_char(s, c)]);
        }
    }
}

/// Whether every character of `s` in `[a, b)` is a decimal digit.
pub fn range_is_digits(s: &str, a: usize, b: usize) -> (r: bool)
    requires
        a <= b <= s@.len(),
    ensures
        r == all_digits(s@.subrange(a as int, b as int)),
{
    let ghost part = s@.subrange(a as int, b as int);
    let mut i: usize = a;
    while i < b
        invariant
            a <= i <= b <= s@.len(),
            part == s@.subrange(a as int, b as int),
            forall|j: int| 0 <= j < i - a ==> is_digit(#[trigger] part[j]),
        decreases b - i,
    {
        let c = s.get_char(i);
        let v = c as u32;
        proof {
            assert(part[i - a] == s@[i as int]);
        }
        if v < 48 || v > 57 {
            proof {
                assert(!is_digit(part[i - a]));
            }
            return false;
        }
        i = i + 1;
    }
    true
}

/// The decimal rendering of `v`, minus sign included when negative.
pub fn signed_dec_string(v: i64) -> (r: String)
    ensures
        r@ == signed_dec(v as int),
{
    if v >= 0 {
        dec_string(v as u64)
    } else {
        let mag: u64 = if v == i64::MIN {
            9223372036854775808
        } else {
            (-v) as u64
        };
        let mut s = String::new();
        push_char(&mut s, '-');
        push_dec(&mut s, mag);
        proof {
            assert(Seq::<char>::empty().push('-') =~= seq!['-']);
        }
        s
    }
}

/// Relies on `String::push`: appends one character to the string.
#[verifier::external_body]
pub fn push_char(s: &mut String, c: char)
    ensures
        final(s)@ == old(s)@.push(c),
{
    s.push(c)
}

/// Appends `n` copies of `c` to `s`.
pub fn push_repeat(s: &mut String, c: char, n: usize)
    ensures
        final(s)@ == old(s)@ + repeat_char(c, n as nat),
{
    let mut i: usize = 0;
    while i < n
        invariant
            i <= n,
            s@ == old(s)@ + repeat_char(c, i as nat),
        decreases n - i,
    {
        push_char(s, c);
        proof {
            assert(repeat_char(c, (i + 1) as nat) == repeat_char(c, i as nat).push(c));
            assert(old(s)@ + repeat_char(c, (i + 1) as nat)
                == (old(s)@ + repeat_char(c, i as nat)).push(c));
        }
        i = i + 1;
    }
    proof {
        assert(s@ == old(s)@ + repeat_char(c, n as nat));
    }
}

/// Appends the decimal digits of `n` to `s`.
pub fn push_dec(s: &mut String, n: u64)
    ensures
        final(s)@ == old(s)@ + dec_digits(n as nat),
    decreases n,
{
    if n < 10 {
        push_char(s, ((n + 48) as u8) as char);
        proof {
            assert(old(s)@.push(digit_char(n as nat)) == old(s)@ + dec_digits(n as nat));
        }
    } else {
        push_dec(s, n / 10);
        push_char(s, ((n % 10 + 48) as u8) as char);
        proof {
            assert((old(s)@ + dec_digits((n / 10) as nat)).push(digit_char((n % 10) as nat))
                == old(s)@ + dec_digits(n as nat));
        }
    }
}

/// The decimal rendering of `n` as a fresh string.
pub fn dec_string(n: u64) -> (r: String)
    ensures
        r@ == dec_digits(n as nat),
{
    let mut s = String::new();
    push_dec(&mut s, n);
    proof {
        assert(Seq::<char>::empty() + dec_digits(n as nat) == dec_digits(n as nat));
    }
    s
}

/// The decimal rendering of `n`, left-padded with spaces to `width` columns.
pub fn dec_string_padded(n: u64, width: usize) -> (r: String)
    ensures
        r@ == pad_left(dec_digits(n as nat), width as nat),
{
    let digits = dec_string(n);
    let len = digits.as_str().unicode_len();
    let mut s = String::new();
    if len < width {
        push_repeat(&mut s, ' ', width - len);
    }
    s.append(digits.as_str());
    proof {
        if len < width {
            assert(Seq::<char>::empty() + repeat_char(' ', (width - len) as nat)
                == repeat_char(' ', (width - len) as nat));
        } else {
            assert(Seq::<char>::empty() + digits@ == digits@);
        }
    }
    s
}

/// The parts joined by one separator between each two neighbours.
pub open spec fn joined(parts: Seq<Seq<char>>, sep: Seq<char>) -> Seq<char>
    decreases parts.len(),
{
    if parts.len() == 0 {
        Seq::empty()
    } else if parts.len() == 1 {
        parts[0]
    } else {
        joined(parts.drop_last(), sep) + sep + parts.last()
    }
}

/// Joins the parts with the separator between each two neighbours.
pub fn join_with(parts: &Vec<String>, sep: &str) -> (r: String)
    ensures
        r@ == joined(parts.deep_view(), sep@),
{
    let ghost v = parts.deep_view();
    let mut s = String::new();
    let mut i: usize = 0;
    while i < parts.len()
        invariant
            i <= parts@.len(),
            v == parts.deep_view(),
            v.len() == parts@.len(),
            s@ == joined(v.take(i as int), sep@),
        decreases parts@.len() - i,
    {
        proof {
            assert(v[i as int] == parts@[i as int]@);
            assert(v.take(i + 1).drop_last() =~= v.take(i as int));
            assert(v.take(i + 1).last() == v[i as int]);
            if i == 0 {
                assert(v.take(1)[0] == v[0]);
            }
        }
        if i > 0 {
            s.append(sep);
        }
        s.append((&parts[i]).as_str());
        i = i + 1;
    }
    proof {
        assert(v.take(v.len() as int) =~= v);
    }
    s
}

} // verus!
