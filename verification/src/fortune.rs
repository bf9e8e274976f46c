//! Splitting fortune files into their `%`-separated sayings and
//! drawing one of them.

use rand::Rng;
use rand::SeedableRng;
use vstd::prelude::*;

use crate::grep::{re_is_match, re_lang};
use crate::text::{digits_value, int_form, int_val, push_char};

verus! {

/// One saying and the name of the file it came from.
#[derive(Debug)]
pub struct Fortune {
    pub source: String,
    pub text: String,
}

/// Reads an unsigned seed value: an optionally plus-signed run of
/// digits fitting a `u64`.
pub fn parse_u64(val: &str) -> (r: Result<u64, String>)
    ensures
        r is Ok <==> (int_form(val@) && val@[0] != '-' && 0 <= int_val(val@) <= u64::MAX),
        r is Ok ==> r->Ok_0 == int_val(val@),
        r is Err ==> r->Err_0@ == "\""@ + val@ + "\" not a valid integer"@,
{
    let n = val.unicode_len();
    let start: usize = if n > 0 && val.get_char(0) == '+' {
        1
    } else {
        0
    };
    proof {
        if start == 1 {
            assert(val@.skip(1) == val@.skip(start as int));
        } else {
            assert(val@.skip(0) =~= val@);
        }
    }
    let parsed: Option<u64> = if n > 0 && val.get_char(0) == '-' {
        None
    } else {
        digits_value(val, start)
    };
    match parsed {
        Some(v) => Ok(v),
        None => {
            let mut m = String::from_str("\"");
            m.append(val);
            m.append("\" not a valid integer");
            Err(m)
        },
    }
}

/// The buffered lines joined with single newlines.
pub open spec fn join_nl(buf: Seq<Seq<char>>) -> Seq<char> {
    crate::text::joined(buf, seq!['\n'])
}

fn join_lines(buf: &Vec<String>) -> (r: String)
    ensures
        r@ == join_nl(buf.deep_view()),
{
    proof {
        reveal_strlit("\n");
        assert("\n"@ =~= seq!['\n']);
    }
    crate::text::join_with(buf, "\n")
}

/// The sayings completed by reading `lines` from position `i` with
/// `buf` already buffered, paired with what stays buffered after: a
/// `%` line closes the buffered lines into one saying (an empty buffer
/// closes nothing), any other line is buffered.
pub open spec fn fortunes_go(lines: Seq<Seq<char>>, i: int, buf: Seq<Seq<char>>) -> (Seq<Seq<char>>, Seq<Seq<char>>)
    decreases lines.len() - i,
{
    if i < 0 || i >= lines.len() {
        (Seq::empty(), buf)
    } else if lines[i] =~= seq!['%'] {
        if buf.len() > 0 {
            let rest = fortunes_go(lines, i + 1, Seq::empty());
            (seq![join_nl(buf)] + rest.0, rest.1)
        } else {
            fortunes_go(lines, i + 1, buf)
        }
    } else {
        fortunes_go(lines, i + 1, buf.push(lines[i]))
    }
}

fn is_percent(s: &str) -> (r: bool)
    ensures
        r == (s@ == seq!['%']),
{
    if s.unicode_len() == 1 {
        if s.get_char(0) == '%' {
            proof {
                assert(s@ =~= seq!['%']);
            }
            return true;
        }
    }
    false
}

/// Folds one file's lines into the running fortune list: sayings are
/// the line groups closed by `%` lines; an unclosed group stays in the
/// buffer, where a following file may still close it.
pub fn collect_fortunes(
    source: &String,
    lines: &Vec<String>,
    buffer: &mut Vec<String>,
    fortunes: &mut Vec<Fortune>,
)
    ensures
        final(buffer).deep_view() == fortunes_go(
            lines.deep_view(),
            0,
            old(buffer).deep_view(),
        ).1,
        final(fortunes)@.len() == old(fortunes)@.len() + fortunes_go(
            lines.deep_view(),
            0,
            old(buffer).deep_view(),
        ).0.len(),
        forall|k: int|
            0 <= k < old(fortunes)@.len() ==> final(fortunes)@[k] == old(fortunes)@[k],
        forall|k: int|
            old(fortunes)@.len() <= k < final(fortunes)@.len() ==> (#[trigger] final(fortunes)@[k]).source@
                == source@ && final(fortunes)@[k].text@ == fortunes_go(
                lines.deep_view(),
                0,
                old(buffer).deep_view(),
            ).0[k - old(fortunes)@.len()],
{
    let ghost v = lines.deep_view();
    let ghost base = fortunes@.len() as int;
    let mut i: usize = 0;
    while i < lines.len()
        invariant
            i <= lines@.len(),
            v == lines.deep_view(),
            v.len() == lines@.len(),
            base == old(fortunes)@.len(),
            fortunes@.len() >= base,
            fortunes_go(v, 0, old(buffer).deep_view()).0 =~= fortunes@.skip(base).map_values(
                |f: Fortune| f.text@,
            ) + fortunes_go(v, i as int, buffer.deep_view()).0,
            fortunes_go(v, 0, old(buffer).deep_view()).1 == fortunes_go(
                v,
                i as int,
                buffer.deep_view(),
            ).1,
            forall|k: int| 0 <= k < base ==> fortunes@[k] == old(fortunes)@[k],
            forall|k: int|
                base <= k < fortunes@.len() ==> (#[trigger] fortunes@[k]).source@ == source@,
        decreases lines@.len() - i,
    {
        proof {
            assert(v[i as int] == lines@[i as int]@);
        }
        let line = &lines[i];
        if is_percent(line.as_str()) {
            if buffer.len() > 0 {
                let ghost bufv = buffer.deep_view();
                let ghost f0 = fortunes@;
                let ghost texts0 = f0.skip(base).map_values(|f: Fortune| f.text@);
                let text = join_lines(buffer);
                fortunes.push(Fortune { source: source.clone(), text });
                buffer.clear();
                proof {
                    assert(buffer.deep_view() =~= Seq::<Seq<char>>::empty());
                    assert(fortunes@.skip(base) =~= f0.skip(base).push(fortunes@.last()));
                    assert(fortunes@.skip(base).map_values(|f: Fortune| f.text@) =~= texts0.push(
                        join_nl(bufv),
                    ));
                    assert(fortunes_go(v, i as int, bufv).0 == seq![join_nl(bufv)] + fortunes_go(
                        v,
                        i + 1,
                        Seq::<Seq<char>>::empty(),
                    ).0);
                    assert(texts0.push(join_nl(bufv)) + fortunes_go(
                        v,
                        i + 1,
                        Seq::<Seq<char>>::empty(),
                    ).0 =~= texts0 + (seq![join_nl(bufv)] + fortunes_go(
                        v,
                        i + 1,
                        Seq::<Seq<char>>::empty(),
                    ).0));
                }
            }
        } else {
            let ghost bv = buffer.deep_view();
            buffer.push(line.clone());
            proof {
                assert(buffer.deep_view() =~= bv.push(v[i as int]));
            }
        }
        i = i + 1;
    }
    proof {
        assert(fortunes_go(v, lines@.len() as int, buffer.deep_view()).0 =~= Seq::<
            Seq<char>,
        >::empty());
        let texts = fortunes@.skip(base).map_values(|f: Fortune| f.text@);
        assert(texts + Seq::<Seq<char>>::empty() =~= texts);
        assert forall|k: int| base <= k < fortunes@.len() implies (#[trigger] fortunes@[k]).text@
            == fortunes_go(v, 0, old(buffer).deep_view()).0[k - base] by {
            assert(texts[k - base] == fortunes@.skip(base)[k - base].text@);
        }
    }
}

/// The index a seeded draw lands on: what a `StdRng` seeded with
/// `seed` yields for a range of `n` indexes, a function of the two
/// alone, so the same seed always picks the same element.
pub uninterp spec fn seeded_choice(seed: u64, n: nat) -> nat;

/// Relies on rand: a `StdRng` seeded with `seed` draws an index below
/// `n`; the draw is a pure function of the seed and the range.
#[verifier::external_body]
fn seeded_index(seed: u64, n: usize) -> (r: usize)
    requires
        n > 0,
    ensures
        r == seeded_choice(seed, n as nat),
        r < n,
{
    rand::rngs::StdRng::seed_from_u64(seed).gen_range(0..n)
}

/// Relies on rand: `thread_rng` draws an index below `n`. Nothing
/// further holds of the draw.
#[verifier::external_body]
fn random_index(n: usize) -> (r: usize)
    requires
        n > 0,
    ensures
        r < n,
{
    rand::thread_rng().gen_range(0..n)
}

/// Draws one saying: some saying of the list whenever it is not empty.
/// With a seed the choice is fixed by the seed and the list length, so
/// equal calls agree; without one it is the thread generator's.
pub fn pick_fortune(fortunes: &Vec<Fortune>, seed: Option<u64>) -> (r: Option<String>)
    ensures
        r is Some <==> fortunes@.len() > 0,
        r is Some ==> exists|i: int|
            0 <= i < fortunes@.len() && r->0@ == (#[trigger] fortunes@[i]).text@,
        fortunes@.len() > 0 ==> (seed matches Some(s) ==> r->0@ == fortunes@[seeded_choice(
            s,
            fortunes@.len(),
        ) as int].text@),
{
    if fortunes.len() == 0 {
        None
    } else {
        let idx = match seed {
            Some(s) => seeded_index(s, fortunes.len()),
            None => random_index(fortunes.len()),
        };
        let text = (&fortunes[idx].text).clone();
        proof {
            assert(text@ == fortunes@[idx as int].text@);
        }
        Some(text)
    }
}

/// The two printed streams of the pattern mode, reading sayings from
/// position `i` with `prev` the source of the last emitted saying:
/// each saying in the pattern's language is emitted as `text` plus a
/// `%` line; when its source differs from the previous emitted one, a
/// `(source)` plus `%` record goes to the side stream first.
pub open spec fn report_go(
    fs: Seq<Fortune>,
    i: int,
    prev: Option<Seq<char>>,
    lang: Set<Seq<char>>,
) -> (Seq<Seq<char>>, Seq<Seq<char>>)
    decreases fs.len() - i,
{
    if i < 0 || i >= fs.len() {
        (Seq::empty(), Seq::empty())
    } else if !lang.contains(fs[i].text@) {
        report_go(fs, i + 1, prev, lang)
    } else {
        let entry = seq![fs[i].text@ + seq!['\n', '%']];
        if prev is None || prev->0 != fs[i].source@ {
            let rest = report_go(fs, i + 1, Some(fs[i].source@), lang);
            (seq![seq!['('] + fs[i].source@ + seq![')', '\n', '%']] + rest.0, entry + rest.1)
        } else {
            let rest = report_go(fs, i + 1, prev, lang);
            (rest.0, entry + rest.1)
        }
    }
}

/// The pattern mode's output: for each saying the pattern matches, in
/// order, its text closed by a `%` line; and, on the side stream, a
/// `(source)` record wherever the source differs from the previously
/// emitted saying's.
pub fn fortune_report(fortunes: &Vec<Fortune>, pattern: &regex::Regex) -> (r: (Vec<String>, Vec<
    String,
>))
    ensures
        r.0.deep_view() == report_go(fortunes@, 0, None, re_lang(*pattern)).0,
        r.1.deep_view() == report_go(fortunes@, 0, None, re_lang(*pattern)).1,
{
    let ghost lang = re_lang(*pattern);
    let mut sources: Vec<String> = Vec::new();
    let mut sayings: Vec<String> = Vec::new();
    let mut prev: Option<String> = None;
    let mut i: usize = 0;
    while i < fortunes.len()
        invariant
            i <= fortunes@.len(),
            lang == re_lang(*pattern),
            sources.deep_view() + (match prev {
                Some(p) => report_go(fortunes@, i as int, Some(p@), lang).0,
                None => report_go(fortunes@, i as int, None, lang).0,
            }) == report_go(fortunes@, 0, None, lang).0,
            sayings.deep_view() + (match prev {
                Some(p) => report_go(fortunes@, i as int, Some(p@), lang).1,
                None => report_go(fortunes@, i as int, None, lang).1,
            }) == report_go(fortunes@, 0, None, lang).1,
        decreases fortunes@.len() - i,
    {
        let ghost p0: Option<Seq<char>> = match &prev {
            Some(p) => Some(p@),
            None => None,
        };
        let ghost full = report_go(fortunes@, 0, None, lang);
        let ghost here = report_go(fortunes@, i as int, p0, lang);
        let f = &fortunes[i];
        proof {
            assert(f.text@ == fortunes@[i as int].text@);
            assert(f.source@ == fortunes@[i as int].source@);
        }
        if re_is_match(pattern, f.text.as_str()) {
            let is_new = match &prev {
                None => true,
                Some(p) => !(*p == f.source),
            };
            proof {
                assert(is_new == (p0 is None || p0->0 != fortunes@[i as int].source@));
            }
            let ghost src = fortunes@[i as int].source@;
            let ghost headv = seq!['('] + src + seq![')', '\n', '%'];
            let ghost entryv = fortunes@[i as int].text@ + seq!['\n', '%'];
            let ghost pnext: Option<Seq<char>> = if is_new {
                Some(src)
            } else {
                p0
            };
            proof {
                if is_new {
                    assert(here.0 == seq![headv] + report_go(fortunes@, i + 1, pnext, lang).0);
                    assert(here.1 == seq![entryv] + report_go(fortunes@, i + 1, pnext, lang).1);
                } else {
                    assert(here.0 == report_go(fortunes@, i + 1, pnext, lang).0);
                    assert(here.1 == seq![entryv] + report_go(fortunes@, i + 1, pnext, lang).1);
                }
            }
            if is_new {
                let ghost before = sources.deep_view();
                let mut head = String::new();
                push_char(&mut head, '(');
                head.append(f.source.as_str());
                push_char(&mut head, ')');
                push_char(&mut head, '\n');
                push_char(&mut head, '%');
                proof {
                    assert(head@ =~= headv);
                }
                sources.push(head);
                prev = Some(f.source.clone());
                proof {
                    assert(sources.deep_view() =~= before.push(headv));
                    assert(before.push(headv) + report_go(fortunes@, i + 1, pnext, lang).0
                        =~= before + (seq![headv] + report_go(fortunes@, i + 1, pnext, lang).0));
                }
            }
            let ghost sbefore = sayings.deep_view();
            let mut entry = f.text.clone();
            push_char(&mut entry, '\n');
            push_char(&mut entry, '%');
            proof {
                assert(entry@ =~= entryv);
            }
            sayings.push(entry);
            proof {
                assert(sayings.deep_view() =~= sbefore.push(entryv));
                assert(sbefore.push(entryv) + report_go(fortunes@, i + 1, pnext, lang).1
                    =~= sbefore + (seq![entryv] + report_go(fortunes@, i + 1, pnext, lang).1));
                assert(pnext == (match prev {
                    Some(p) => Some(p@),
                    None => None,
                }));
            }
        } else {
            proof {
                assert(here.0 == report_go(fortunes@, i + 1, p0, lang).0);
                assert(here.1 == report_go(fortunes@, i + 1, p0, lang).1);
            }
        }
        i = i + 1;
    }
    proof {
        assert(sources.deep_view() + Seq::<Seq<char>>::empty() =~= sources.deep_view());
        assert(sayings.deep_view() + Seq::<Seq<char>>::empty() =~= sayings.deep_view());
    }
    (sources, sayings)
}

} // verus!
