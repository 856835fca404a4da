//! What the renaming tools do with one directory entry.

use vstd::prelude::*;
use vstd::utf8::{encode_scalar, encode_utf8};

use crate::text::{push_chars, string_of};

verus! {

/// Why an entry is left alone.
#[derive(Debug, PartialEq, Eq, Structural, Clone, Copy)]
pub enum SkipReason {
    /// A directory that is not entered.
    Directory,
    /// The name has no extension.
    NoExtension,
    /// The name is not of a file kind that the tool handles.
    WrongKind,
    /// The name has nothing to remove.
    NothingToFix,
    /// No new name can be made.
    NoName,
    /// The source or the target path is ten bytes long or shorter.
    PathTooShort,
}

/// What to do with one entry.
#[derive(Debug)]
pub enum EntryAction {
    /// Enter the directory, one level deeper.
    Descend,
    /// Leave the entry alone.
    Skip(SkipReason),
    /// Rename the file at the first path to the second path.
    Rename(String, String),
}

/// `dir`, a `/` and `name`.
pub open spec fn joined(dir: Seq<char>, name: Seq<char>) -> Seq<char> {
    dir + seq!['/'] + name
}

/// Both paths are longer than ten bytes in UTF-8.
pub open spec fn long_enough(from: Seq<char>, to: Seq<char>) -> bool {
    encode_utf8(from).len() > 10 && encode_utf8(to).len() > 10
}

/// What renaming `from` to `dir/name` comes to: the rename, or nothing when a
/// path is too short.
pub open spec fn rename_or_skip(from: Seq<char>, dir: Seq<char>, name: Seq<char>) -> Option<
    (Seq<char>, Seq<char>),
> {
    if long_enough(from, joined(dir, name)) {
        Some((from, joined(dir, name)))
    } else {
        None
    }
}

fn char_width(c: char) -> (r: u64)
    ensures
        r == encode_scalar(c as u32).len(),
{
    proof {
        vstd::utf8::char_is_scalar(c);
    }
    let v = c as u32;
    if v <= 0x7F {
        1
    } else if v <= 0x7FF {
        2
    } else if v <= 0xFFFF {
        3
    } else {
        4
    }
}

/// Whether the UTF-8 encoding of `s` is longer than ten bytes, that is,
/// whether `s.len() > 10`.
pub fn longer_than_ten(s: &str) -> (r: bool)
    ensures
        r == (encode_utf8(s@).len() > 10),
{
    let v = crate::text::chars_of(s);
    let mut i: usize = v.len();
    let mut acc: u64 = 0;
    while i > 0
        invariant
            i <= v@.len(),
            v@ == s@,
            acc <= 10,
            acc == encode_utf8(v@.skip(i as int)).len(),
        decreases i,
    {
        let w = char_width(v[i - 1]);
        assert(v@.skip(i - 1).drop_first() == v@.skip(i as int));
        assert(v@.skip(i - 1)[0] == v@[i - 1]);
        if acc + w > 10 {
            proof {
                lemma_suffix_len_grows(v@, (i - 1) as int);
            }
            return true;
        }
        acc = acc + w;
        i -= 1;
    }
    assert(v@.skip(0) == v@);
    false
}

proof fn lemma_suffix_len_grows(s: Seq<char>, i: int)
    requires
        0 <= i <= s.len(),
    ensures
        encode_utf8(s).len() >= encode_utf8(s.skip(i)).len(),
    decreases i,
{
    if i > 0 {
        assert(s.skip(1).skip(i - 1) == s.skip(i));
        lemma_suffix_len_grows(s.skip(1), i - 1);
        assert(s.drop_first() == s.skip(1));
    } else {
        assert(s.skip(0) == s);
    }
}

/// The path `dir/name`.
pub fn join_path(dir: &str, name: &[char]) -> (r: String)
    ensures
        r@ == joined(dir@, name@),
{
    let mut r = string_of(crate::text::chars_of(dir).as_slice());
    let slash = ['/'];
    push_chars(&mut r, &slash);
    push_chars(&mut r, name);
    assert(slash@ =~= seq!['/']);
    r
}

/// The rename of `from` to `dir/name`, when both paths are longer than ten
/// bytes.
pub fn rename_to(from: &str, dir: &str, name: &[char]) -> (r: EntryAction)
    ensures
        match rename_or_skip(from@, dir@, name@) {
            Some((f, t)) => r matches EntryAction::Rename(a, b) && a@ == f && b@ == t,
            None => r == EntryAction::Skip(SkipReason::PathTooShort),
        },
{
    let target = join_path(dir, name);
    if longer_than_ten(from) && longer_than_ten(target.as_str()) {
        EntryAction::Rename(string_of(crate::text::chars_of(from).as_slice()), target)
    } else {
        EntryAction::Skip(SkipReason::PathTooShort)
    }
}

} // verus!
