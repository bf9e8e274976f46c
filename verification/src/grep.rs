//! Selecting the lines of an input that match (or do not match) a
//! compiled pattern, and shaping the matched lines for printing.

use vstd::prelude::*;

verus! {

#[verifier::external_type_specification]
#[verifier::external_body]
pub struct ExRegex(regex::Regex);

/// The language of a compiled pattern: the texts somewhere in which it
/// matches. Matching is a function of the pattern and the text alone.
pub uninterp spec fn re_lang(re: regex::Regex) -> Set<Seq<char>>;

/// Relies on `regex::Regex::is_match`: whether the pattern matches
/// somewhere in the text — that is, whether the text lies in the
/// pattern's language.
#[verifier::external_body]
pub(crate) fn re_is_match(re: &regex::Regex, text: &str) -> (r: bool)
    ensures
        r == re_lang(*re).contains(text@),
{
    re.is_match(text)
}

/// Relies on `regex::RegexBuilder`: compiles the pattern, insensitively
/// when asked; `None` when the pattern is rejected. Nothing further is
/// assumed of the answer.
#[verifier::external_body]
fn build_regex(pattern: &str, insensitive: bool) -> Option<regex::Regex> {
    regex::RegexBuilder::new(pattern).case_insensitive(insensitive).build().ok()
}

/// The lines whose flag differs from `invert`: with `invert` false the
/// flagged lines, with `invert` true the others.
pub open spec fn selected_lines(lines: Seq<Seq<char>>, keep: Seq<bool>, invert: bool) -> Seq<
    Seq<char>,
>
    decreases lines.len(),
{
    if lines.len() == 0 {
        Seq::empty()
    } else {
        (if keep[0] != invert {
            seq![lines[0]]
        } else {
            Seq::empty()
        }) + selected_lines(lines.skip(1), keep.skip(1), invert)
    }
}

/// Keeps the lines whose flag differs from `invert`, in order.
pub fn select_lines(lines: &Vec<String>, keep: &Vec<bool>, invert: bool) -> (r: Vec<String>)
    requires
        keep@.len() == lines@.len(),
    ensures
        r.deep_view() == selected_lines(lines.deep_view(), keep@, invert),
{
    let ghost v = lines.deep_view();
    let ghost k = keep@;
    let mut out: Vec<String> = Vec::new();
    let mut i: usize = 0;
    proof {
        assert(v.skip(0) =~= v);
        assert(k.skip(0) =~= k);
        assert(out.deep_view() + selected_lines(v, k, invert) =~= selected_lines(v, k, invert));
    }
    while i < lines.len()
        invariant
            i <= lines@.len(),
            v == lines.deep_view(),
            k == keep@,
            k.len() == v.len(),
            v.len() == lines@.len(),
            out.deep_view() + selected_lines(v.skip(i as int), k.skip(i as int), invert)
                == selected_lines(v, k, invert),
        decreases lines@.len() - i,
    {
        proof {
            assert(v.skip(i as int)[0] == v[i as int]);
            assert(k.skip(i as int)[0] == k[i as int]);
            assert(v.skip(i as int).skip(1) =~= v.skip(i + 1));
            assert(k.skip(i as int).skip(1) =~= k.skip(i + 1));
            assert(v[i as int] == lines@[i as int]@);
        }
        let ghost before = out.deep_view();
        if keep[i] != invert {
            out.push((&lines[i]).clone());
            proof {
                assert(out.deep_view() =~= before.push(v[i as int]));
                assert(before.push(v[i as int]) + selected_lines(
                    v.skip(i + 1),
                    k.skip(i + 1),
                    invert,
                ) =~= before + (seq![v[i as int]] + selected_lines(
                    v.skip(i + 1),
                    k.skip(i + 1),
                    invert,
                )));
            }
        } else {
            proof {
                assert(Seq::<Seq<char>>::empty() + selected_lines(
                    v.skip(i + 1),
                    k.skip(i + 1),
                    invert,
                ) =~= selected_lines(v.skip(i + 1), k.skip(i + 1), invert));
            }
        }
        i = i + 1;
    }
    proof {
        assert(out.deep_view() + Seq::<Seq<char>>::empty() =~= out.deep_view());
    }
    out
}

/// Keeps exactly the lines lying in the pattern's language, or exactly
/// the others under inverted matching.
pub fn find_lines(lines: &Vec<String>, pattern: &regex::Regex, invert_match: bool) -> (r: Vec<
    String,
>)
    ensures
        r.deep_view() == selected_lines(
            lines.deep_view(),
            Seq::new(lines@.len() as nat, |i: int| re_lang(*pattern).contains(lines.deep_view()[i])),
            invert_match,
        ),
{
    let ghost v = lines.deep_view();
    let mut keep: Vec<bool> = Vec::new();
    let mut i: usize = 0;
    while i < lines.len()
        invariant
            i <= lines@.len(),
            v == lines.deep_view(),
            v.len() == lines@.len(),
            keep@.len() == i,
            forall|j: int| 0 <= j < i ==> keep@[j] == re_lang(*pattern).contains(#[trigger] v[j]),
        decreases lines@.len() - i,
    {
        proof {
            assert(v[i as int] == lines@[i as int]@);
        }
        keep.push(re_is_match(pattern, (&lines[i]).as_str()));
        i = i + 1;
    }
    let out = select_lines(lines, &keep, invert_match);
    proof {
        assert(keep@ =~= Seq::new(v.len(), |j: int| re_lang(*pattern).contains(v[j])));
    }
    out
}

/// What a search path turned out to be on disk.
#[derive(Debug, PartialEq, Eq, Structural, Clone, Copy)]
pub enum PathKind {
    File,
    Dir,
    Other,
}

/// Decides what to do with one search path once its kind is known
/// (`None` when even that could not be read, with `err` the system's
/// words): take a file as it is, descend into a directory only under
/// recursive search, and reject everything else by name.
pub fn classify_path(path: &str, kind: &Option<PathKind>, recursive: bool, err: &str) -> (r:
    Result<bool, String>)
    ensures
        (kind matches Some(k) && k == PathKind::File) ==> r == Ok::<bool, String>(true),
        (kind matches Some(k) && k == PathKind::Dir && recursive) ==> r == Ok::<
            bool,
            String,
        >(false),
        (kind matches Some(k) && k == PathKind::Dir && !recursive) ==> (r matches Err(m) && m@
            == path@ + " is a directory"@),
        (kind matches Some(k) && k == PathKind::Other) ==> (r matches Err(m) && m@ == path@
            + " this is not file or dir. Maybe link?"@),
        kind is None ==> (r matches Err(m) && m@ == path@ + ": "@ + err@),
{
    match kind {
        Some(PathKind::File) => Ok(true),
        Some(PathKind::Dir) => {
            if recursive {
                Ok(false)
            } else {
                let mut m = path.to_owned();
                m.append(" is a directory");
                Err(m)
            }
        },
        Some(PathKind::Other) => {
            let mut m = path.to_owned();
            m.append(" this is not file or dir. Maybe link?");
            Err(m)
        },
        None => {
            let mut m = path.to_owned();
            m.append(": ");
            m.append(err);
            Err(m)
        },
    }
}

/// The raw search arguments, as handed in from the command line.
#[derive(Debug)]
pub struct Args {
    pub pattern: String,
    pub files: Option<Vec<String>>,
    pub recursive: bool,
    pub count: bool,
    pub invert_match: bool,
    pub insensitive: bool,
}

/// A validated request: the compiled pattern and the search options.
#[derive(Debug)]
pub struct Config {
    pub pattern: regex::Regex,
    pub files: Option<Vec<String>>,
    pub recursive: bool,
    pub count: bool,
    pub invert_match: bool,
}

impl Args {
    /// Compiles the pattern (case-insensitively when asked). Whether
    /// the pattern text is accepted is the pattern library's decision;
    /// a rejected pattern is reported by name.
    pub fn to_config(self) -> (r: Result<Config, String>)
        ensures
            r is Ok ==> r->Ok_0.files == self.files && r->Ok_0.recursive == self.recursive
                && r->Ok_0.count == self.count && r->Ok_0.invert_match == self.invert_match,
            r is Err ==> r->Err_0@ == "Invalid pattern \""@ + self.pattern@ + "\""@,
    {
        match build_regex(self.pattern.as_str(), self.insensitive) {
            Some(pattern) => Ok(
                Config {
                    pattern,
                    files: self.files,
                    recursive: self.recursive,
                    count: self.count,
                    invert_match: self.invert_match,
                },
            ),
            None => {
                let mut m = String::from_str("Invalid pattern \"");
                m.append(self.pattern.as_str());
                m.append("\"");
                Err(m)
            },
        }
    }
}

/// The printed form of one input's matches: each line prefixed by the
/// header, or a single count line under counting.
pub open spec fn grep_output(
    header: Seq<char>,
    lines: Seq<Seq<char>>,
    count: bool,
) -> Seq<Seq<char>> {
    if count {
        seq![header + crate::text::dec_digits(lines.len())]
    } else {
        lines.map_values(|l: Seq<char>| header + l)
    }
}

/// Shapes one input's matched lines for printing: each line prefixed
/// by `"name:"` when a header name is given, or a single count.
pub fn print_lines(header: Option<&str>, lines: Vec<String>, count: bool) -> (r: Vec<String>)
    ensures
        (header matches Some(h) ==> r.deep_view() == grep_output(
            h@ + seq![':'],
            lines.deep_view(),
            count,
        )),
        (header is None ==> r.deep_view() == grep_output(Seq::empty(), lines.deep_view(), count)),
{
    let ghost v = lines.deep_view();
    let mut head = String::new();
    match header {
        Some(h) => {
            head.append(h);
            crate::text::push_char(&mut head, ':');
            proof {
                assert(head@ =~= h@ + seq![':']);
            }
        },
        None => {},
    }
    if count {
        let mut line = head;
        crate::text::push_dec(&mut line, lines.len() as u64);
        let mut out: Vec<String> = Vec::new();
        out.push(line);
        proof {
            assert(out.deep_view() =~= grep_output(
                match header {
                    Some(h) => h@ + seq![':'],
                    None => Seq::<char>::empty(),
                },
                v,
                true,
            ));
        }
        out
    } else {
        let mut out: Vec<String> = Vec::new();
        let mut i: usize = 0;
        while i < lines.len()
            invariant
                i <= lines@.len(),
                v == lines.deep_view(),
                v.len() == lines@.len(),
                head@ == (match header {
                    Some(h) => h@ + seq![':'],
                    None => Seq::<char>::empty(),
                }),
                out@.len() == i,
                forall|j: int| 0 <= j < i ==> out@[j]@ == head@ + v[j],
            decreases lines@.len() - i,
        {
            let mut line = head.clone();
            line.append((&lines[i]).as_str());
            proof {
                assert(v[i as int] == lines@[i as int]@);
            }
            out.push(line);
            i = i + 1;
        }
        proof {
            assert(out.deep_view() =~= grep_output(head@, v, false));
        }
        out
    }
}

} // verus!
