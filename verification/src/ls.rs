//! Rendering a Unix permission word as the classic nine-character
//! `rwxrwxrwx` string, and assembling the cells of a long-listing row.

use vstd::prelude::*;

use crate::text::{dec_digits, dec_string, push_char};

verus! {

/// One permission character: its letter when the bit is set, else `-`.
pub open spec fn mode_char(mode: u32, mask: u32, letter: char) -> char {
    if mode & mask != 0 {
        letter
    } else {
        '-'
    }
}

/// The nine permission characters of a mode word: read, write and
/// execute for user, group and other.
pub open spec fn mode_text(mode: u32) -> Seq<char> {
    seq![
        mode_char(mode, 0o400, 'r'),
        mode_char(mode, 0o200, 'w'),
        mode_char(mode, 0o100, 'x'),
        mode_char(mode, 0o040, 'r'),
        mode_char(mode, 0o020, 'w'),
        mode_char(mode, 0o010, 'x'),
        mode_char(mode, 0o004, 'r'),
        mode_char(mode, 0o002, 'w'),
        mode_char(mode, 0o001, 'x'),
    ]
}

fn push_mode_char(s: &mut String, mode: u32, mask: u32, letter: char)
    ensures
        final(s)@ == old(s)@.push(mode_char(mode, mask, letter)),
{
    if mode & mask != 0 {
        push_char(s, letter);
    } else {
        push_char(s, '-');
    }
}

/// Renders a mode word such as `0o755` as `"rwxr-xr-x"`.
pub fn format_mode(mode: u32) -> (r: String)
    ensures
        r@ == mode_text(mode),
{
    let mut s = String::new();
    push_mode_char(&mut s, mode, 0o400, 'r');
    push_mode_char(&mut s, mode, 0o200, 'w');
    push_mode_char(&mut s, mode, 0o100, 'x');
    push_mode_char(&mut s, mode, 0o040, 'r');
    push_mode_char(&mut s, mode, 0o020, 'w');
    push_mode_char(&mut s, mode, 0o010, 'x');
    push_mode_char(&mut s, mode, 0o004, 'r');
    push_mode_char(&mut s, mode, 0o002, 'w');
    push_mode_char(&mut s, mode, 0o001, 'x');
    proof {
        assert(s@ =~= mode_text(mode));
    }
    s
}

/// One entry of a long listing, with everything the row shows already
/// read into plain values.
#[derive(Debug)]
pub struct LongEntry {
    pub is_dir: bool,
    pub mode: u32,
    pub nlink: u64,
    pub user: String,
    pub group: String,
    pub size: u64,
    pub mtime: String,
    pub path: String,
}

/// The eight cells of an entry's long-listing row: directory marker,
/// permissions, link count, user, group, size, modification time, and
/// the path.
pub fn long_row(e: &LongEntry) -> (r: Vec<String>)
    ensures
        r.deep_view() == seq![
            (if e.is_dir {
                "d"@
            } else {
                "-"@
            }),
            mode_text(e.mode),
            dec_digits(e.nlink as nat),
            e.user@,
            e.group@,
            dec_digits(e.size as nat),
            e.mtime@,
            e.path@,
        ],
{
    let mut r: Vec<String> = Vec::new();
    if e.is_dir {
        r.push(String::from_str("d"));
    } else {
        r.push(String::from_str("-"));
    }
    r.push(format_mode(e.mode));
    r.push(dec_string(e.nlink));
    r.push(e.user.clone());
    r.push(e.group.clone());
    r.push(dec_string(e.size));
    r.push(e.mtime.clone());
    r.push(e.path.clone());
    proof {
        assert(r.deep_view() =~= seq![
            (if e.is_dir {
                "d"@
            } else {
                "-"@
            }),
            mode_text(e.mode),
            dec_digits(e.nlink as nat),
            e.user@,
            e.group@,
            dec_digits(e.size as nat),
            e.mtime@,
            e.path@,
        ]);
    }
    r
}

} // verus!
