//! Renaming pictures: dashes are removed from their names.

use vstd::prelude::*;

use crate::rename::{rename_or_skip, rename_to, EntryAction, SkipReason};
use crate::text::{chars_of, has_char, split_by, split_chars, string_of, views};

verus! {

/// The directory to work in.
#[derive(Debug)]
pub struct AppInfo {
    pub from_path: String,
}

/// Reads the directory from the command line: the first argument after the
/// program name, or `default_path` when there is none.
pub fn get_param(args: &Vec<String>, default_path: &String) -> (r: AppInfo)
    ensures
        r.from_path@ == (if args@.len() > 1 { args@[1]@ } else { default_path@ }),
{
    let from: String = if args.len() > 1 {
        args[1].clone()
    } else {
        default_path.clone()
    };
    AppInfo { from_path: from }
}

/// The extension of a file name (std `Path::extension` on a name without
/// `/`): the text after the last `.`; none when the name has no `.`, when its
/// only `.` comes first, or when the name is `..`.
pub open spec fn extension_of(name: Seq<char>) -> Option<Seq<char>> {
    let p = split_by(name, seq!['.']);
    if name == seq!['.', '.'] || p.len() < 2 || name.len() == p.last().len() + 1 {
        None
    } else {
        Some(p.last())
    }
}

/// The extension of the file name `file_name`.
pub fn name_extension(file_name: &str) -> (r: Option<String>)
    requires
        !file_name@.contains('/'),
    ensures
        match extension_of(file_name@) {
            Some(e) => r matches Some(s) && s@ == e,
            None => r is None,
        },
{
    let name = chars_of(file_name);
    let dot = ['.'];
    assert(dot@ =~= seq!['.']);
    let p = split_chars(name.as_slice(), &dot);
    if name.len() == 2 && name[0] == '.' && name[1] == '.' {
        assert(name@ =~= seq!['.', '.']);
        return None;
    }
    assert(!(name@ =~= seq!['.', '.']));
    if p.len() < 2 {
        return None;
    }
    let last = p[p.len() - 1].as_slice();
    assert(last@ == views(p@).last());
    if name.len() > 0 && name.len() - 1 == last.len() {
        None
    } else {
        Some(string_of(last))
    }
}

/// The extensions of the pictures handled: `jpg`, `jpeg`, `png`, `svg`.
pub open spec fn is_picture_extension(e: Seq<char>) -> bool {
    e == seq!['j', 'p', 'g'] || e == seq!['j', 'p', 'e', 'g'] || e == seq!['p', 'n', 'g'] || e
        == seq!['s', 'v', 'g']
}

fn is_picture_ext(e: &str) -> (r: bool)
    ensures
        r == is_picture_extension(e@),
{
    let v = chars_of(e);
    let s = v.as_slice();
    if s.len() == 3 && s[0] == 'j' && s[1] == 'p' && s[2] == 'g' {
        assert(s@ =~= seq!['j', 'p', 'g']);
        true
    } else if s.len() == 4 && s[0] == 'j' && s[1] == 'p' && s[2] == 'e' && s[3] == 'g' {
        assert(s@ =~= seq!['j', 'p', 'e', 'g']);
        true
    } else if s.len() == 3 && s[0] == 'p' && s[1] == 'n' && s[2] == 'g' {
        assert(s@ =~= seq!['p', 'n', 'g']);
        true
    } else if s.len() == 3 && s[0] == 's' && s[1] == 'v' && s[2] == 'g' {
        assert(s@ =~= seq!['s', 'v', 'g']);
        true
    } else {
        false
    }
}

/// `s` with every `c` removed (std `str::replace(c, "")`).
pub open spec fn without(s: Seq<char>, c: char) -> Seq<char>
    decreases s.len(),
{
    if s.len() == 0 {
        Seq::empty()
    } else if s.last() == c {
        without(s.drop_last(), c)
    } else {
        without(s.drop_last(), c).push(s.last())
    }
}

fn remove_char(s: &[char], c: char) -> (r: Vec<char>)
    ensures
        r@ == without(s@, c),
{
    let mut r: Vec<char> = Vec::new();
    let mut i: usize = 0;
    while i < s.len()
        invariant
            i <= s@.len(),
            r@ == without(s@.take(i as int), c),
        decreases s@.len() - i,
    {
        assert(s@.take(i + 1).drop_last() == s@.take(i as int));
        assert(s@.take(i + 1).last() == s@[i as int]);
        if s[i] != c {
            r.push(s[i]);
        }
        i += 1;
    }
    assert(s@.take(s@.len() as int) == s@);
    r
}

/// The new name of a picture: its name without dashes; `Err` with the reason
/// when the file has no extension, is no picture, has no dash, or the name
/// would be empty.
pub open spec fn picture_name(name: Seq<char>) -> Result<Seq<char>, SkipReason> {
    match extension_of(name) {
        None => Err(SkipReason::NoExtension),
        Some(e) => if !is_picture_extension(e) {
            Err(SkipReason::WrongKind)
        } else if !name.contains('-') {
            Err(SkipReason::NothingToFix)
        } else if without(name, '-').len() == 0 {
            Err(SkipReason::NoName)
        } else {
            Ok(without(name, '-'))
        },
    }
}

/// The new name of the file `file_name`, as [`picture_name`] gives it.
pub fn picture_target_name(file_name: &str) -> (r: Result<Vec<char>, SkipReason>)
    requires
        !file_name@.contains('/'),
    ensures
        match picture_name(file_name@) {
            Ok(n) => r matches Ok(v) && v@ == n,
            Err(e) => r == Err::<Vec<char>, SkipReason>(e),
        },
{
    let ext = match name_extension(file_name) {
        Some(e) => e,
        None => {
            return Err(SkipReason::NoExtension);
        },
    };
    if !is_picture_ext(ext.as_str()) {
        return Err(SkipReason::WrongKind);
    }
    let name = chars_of(file_name);
    if !has_char(name.as_slice(), '-') {
        return Err(SkipReason::NothingToFix);
    }
    let target = remove_char(name.as_slice(), '-');
    if target.len() == 0 {
        return Err(SkipReason::NoName);
    }
    Ok(target)
}

/// What to do with one directory entry: directories are passed by; a
/// picture is renamed within `dir` to its name without dashes when both
/// paths are longer than ten bytes; anything else is left.
pub fn picture_entry_action(is_dir: bool, file_name: &str, entry_path: &str, dir: &str) -> (r:
    EntryAction)
    requires
        !file_name@.contains('/'),
    ensures
        is_dir ==> r == EntryAction::Skip(SkipReason::Directory),
        !is_dir ==> match picture_name(file_name@) {
            Err(e) => r == EntryAction::Skip(e),
            Ok(n) => match rename_or_skip(entry_path@, dir@, n) {
                Some((f, t)) => r matches EntryAction::Rename(a, b) && a@ == f && b@ == t,
                None => r == EntryAction::Skip(SkipReason::PathTooShort),
            },
        },
{
    if is_dir {
        return EntryAction::Skip(SkipReason::Directory);
    }
    match picture_target_name(file_name) {
        Err(reason) => EntryAction::Skip(reason),
        Ok(n) => rename_to(entry_path, dir, n.as_slice()),
    }
}

/// A file with an extension is treated as a picture exactly when that
/// extension is `jpg`, `jpeg`, `png` or `svg`: any other extension is left
/// as the wrong kind of file, and one of these four never is.
pub proof fn lemma_picture_kinds(name: Seq<char>, e: Seq<char>)
    requires
        extension_of(name) == Some(e),
    ensures
        (picture_name(name) == Err::<Seq<char>, SkipReason>(SkipReason::WrongKind)) <==> !(e
            == seq!['j', 'p', 'g'] || e == seq!['j', 'p', 'e', 'g'] || e == seq!['p', 'n', 'g'] || e
            == seq!['s', 'v', 'g']),
{
}

/// Removing a character leaves none of it.
pub proof fn lemma_without_removes(s: Seq<char>, c: char)
    ensures
        !without(s, c).contains(c),
    decreases s.len(),
{
    if s.len() > 0 {
        lemma_without_removes(s.drop_last(), c);
        let w = without(s.drop_last(), c);
        if s.last() != c {
            assert forall|i: int| 0 <= i < w.push(s.last()).len() implies w.push(s.last())[i] != c by {
                if i < w.len() {
                    assert(w.push(s.last())[i] == w[i]);
                }
            }
        }
    }
}

/// A new picture name holds no dash.
pub proof fn lemma_picture_name_has_no_dash(name: Seq<char>)
    ensures
        picture_name(name) matches Ok(n) ==> !n.contains('-'),
{
    lemma_without_removes(name, '-');
}

} // verus!
