//! The filtering decision of a file-finding tool: whether a directory
//! entry passes the requested type and name filters.

use vstd::prelude::*;

use crate::grep::re_lang;

verus! {

/// The kinds of directory entry the type filter can name.
#[derive(Debug, PartialEq, Eq, Structural, Clone, Copy)]
pub enum EntryType {
    Dir,
    File,
    Link,
}

/// Whether some listed kind equals `ftype`.
pub open spec fn some_type_matches(ts: Seq<EntryType>, ftype: EntryType) -> bool {
    exists|i: int| 0 <= i < ts.len() && #[trigger] ts[i] == ftype
}

/// Whether an entry of kind `ftype` passes the type filter: no filter
/// accepts everything, otherwise some listed kind must match.
pub open spec fn type_accepts(entry_types: Option<Seq<EntryType>>, ftype: EntryType) -> bool {
    match entry_types {
        None => true,
        Some(ts) => some_type_matches(ts, ftype),
    }
}

/// The raw search arguments: where to look, name patterns, and entry
/// kinds to keep.
#[derive(Debug)]
pub struct Config {
    pub paths: Vec<String>,
    pub names: Option<Vec<regex::Regex>>,
    pub entry_types: Option<Vec<EntryType>>,
}

fn type_matches(entry_types: &Option<Vec<EntryType>>, ftype: EntryType) -> (r: bool)
    ensures
        r == type_accepts(
            match *entry_types {
                Some(ts) => Some(ts@),
                None => None,
            },
            ftype,
        ),
{
    match entry_types {
        None => true,
        Some(ts) => {
            let mut found = false;
            let mut i: usize = 0;
            while i < ts.len()
                invariant
                    i <= ts@.len(),
                    !found ==> forall|j: int| 0 <= j < i ==> ts@[j] != ftype,
                    found ==> some_type_matches(ts@, ftype),
                decreases ts@.len() - i,
            {
                if ts[i] == ftype {
                    found = true;
                    proof {
                        assert(0 <= i < ts@.len() && ts@[i as int] == ftype);
                        assert(some_type_matches(ts@, ftype));
                    }
                }
                i = i + 1;
            }
            proof {
                if !found {
                    assert(forall|j: int| 0 <= j < ts@.len() ==> ts@[j] != ftype);
                }
            }
            found
        },
    }
}

/// Whether some listed pattern's language holds the entry name.
pub open spec fn some_name_matches(ns: Seq<regex::Regex>, text: Seq<char>) -> bool {
    exists|i: int| 0 <= i < ns.len() && re_lang(#[trigger] ns[i]).contains(text)
}

/// Whether an entry named `text` passes the name filter: no filter
/// accepts everything, otherwise some listed pattern must match.
pub open spec fn name_accepts(names: Option<Seq<regex::Regex>>, text: Seq<char>) -> bool {
    match names {
        None => true,
        Some(ns) => some_name_matches(ns, text),
    }
}

/// Whether an entry passes both filters: its kind is accepted by the
/// type filter and its name lies in some name pattern's language.
pub fn keep_entry(
    entry_types: &Option<Vec<EntryType>>,
    names: &Option<Vec<regex::Regex>>,
    ftype: EntryType,
    entry_name: &str,
) -> (r: bool)
    ensures
        r == (type_accepts(
            match *entry_types {
                Some(ts) => Some(ts@),
                None => None,
            },
            ftype,
        ) && name_accepts(
            match *names {
                Some(ns) => Some(ns@),
                None => None,
            },
            entry_name@,
        )),
{
    let by_type = type_matches(entry_types, ftype);
    let by_name = match names {
        None => true,
        Some(ns) => {
            let mut found = false;
            let mut i: usize = 0;
            while i < ns.len()
                invariant
                    i <= ns@.len(),
                    !found ==> forall|j: int| 0 <= j < i ==> !re_lang(#[trigger] ns@[j]).contains(
                        entry_name@,
                    ),
                    found ==> some_name_matches(ns@, entry_name@),
                decreases ns@.len() - i,
            {
                if crate::grep::re_is_match(&ns[i], entry_name) {
                    found = true;
                    proof {
                        assert(0 <= i < ns@.len() && re_lang(ns@[i as int]).contains(entry_name@));
                        assert(some_name_matches(ns@, entry_name@));
                    }
                }
                i = i + 1;
            }
            proof {
                if !found {
                    assert(forall|j: int| 0 <= j < ns@.len() ==> !re_lang(
                        #[trigger] ns@[j],
                    ).contains(entry_name@));
                }
            }
            found
        },
    };
    by_type && by_name
}

} // verus!
