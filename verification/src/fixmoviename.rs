//! Renaming downloaded video files: the bracketed site tags are cut out of
//! their names.

use vstd::prelude::*;

use crate::rename::{rename_or_skip, rename_to, EntryAction, SkipReason};
use crate::text::{lemma_split_pieces_free, chars_of, contains_sub, ends_with, ends_with_chars, has_char, has_sub, split_by, split_chars, views};

verus! {

/// The source and target directories.
#[derive(Debug)]
pub struct AppInfo {
    pub from_path: String,
    pub to_path: String,
}

/// Reads the directories from the command line: the first argument after the
/// program name is the source, the second the target; a missing one is
/// `default_path`.
pub fn get_param(args: &Vec<String>, default_path: &String) -> (r: AppInfo)
    ensures
        r.from_path@ == (if args@.len() > 1 { args@[1]@ } else { default_path@ }),
        r.to_path@ == (if args@.len() > 2 { args@[2]@ } else { default_path@ }),
{
    let from: String = if args.len() > 1 {
        args[1].clone()
    } else {
        default_path.clone()
    };
    let to: String = if args.len() > 2 {
        args[2].clone()
    } else {
        default_path.clone()
    };
    AppInfo { from_path: from, to_path: to }
}

/// Directories deeper than the second level are not read.
pub open spec fn depth_allowed(lvl: usize) -> bool {
    lvl <= 2
}

/// Whether a directory at level `lvl` (the start directory is level 1) is
/// read. Levels start at 1: there is no level 0.
pub fn scan_depth_ok(lvl: usize) -> (r: bool)
    requires
        lvl >= 1,
    ensures
        r == depth_allowed(lvl),
{
    lvl <= 2
}

/// The walk reads the start directory (level 1) and the directories in it
/// (level 2), and no directory below them.
pub proof fn lemma_walk_reads_two_levels(lvl: usize)
    ensures
        1 <= lvl <= 2 ==> depth_allowed(lvl),
        lvl > 2 ==> !depth_allowed(lvl),
{
}

/// The name ends in `.mp4` or `.mov`.
pub open spec fn is_video(name: Seq<char>) -> bool {
    ends_with(name, seq!['.', 'm', 'p', '4']) || ends_with(name, seq!['.', 'm', 'o', 'v'])
}

/// A piece of the name that is kept: not empty, and holding neither `www`
/// nor `电影天堂`.
pub open spec fn keep_piece(p: Seq<char>) -> bool {
    p.len() != 0 && !(has_sub(p, seq!['w', 'w', 'w']) || has_sub(
        p,
        seq!['\u{7535}', '\u{5f71}', '\u{5929}', '\u{5802}'],
    ))
}

/// The kept pieces, in order.
pub open spec fn kept(ps: Seq<Seq<char>>) -> Seq<Seq<char>>
    decreases ps.len(),
{
    if ps.len() == 0 {
        Seq::empty()
    } else if keep_piece(ps.last()) {
        kept(ps.drop_last()).push(ps.last())
    } else {
        kept(ps.drop_last())
    }
}

/// The pieces written one after another.
pub open spec fn concat(ps: Seq<Seq<char>>) -> Seq<char>
    decreases ps.len(),
{
    if ps.len() == 0 {
        Seq::empty()
    } else {
        concat(ps.drop_last()) + ps.last()
    }
}

/// The new name of a file: for a video whose name has a `[`, the pieces
/// between `[` and `]` that are kept, joined; `None` when the file is no
/// video, has no `[`, or no piece is kept.
pub open spec fn movie_name(name: Seq<char>) -> Option<Seq<char>> {
    if !is_video(name) || !name.contains('[') {
        None
    } else {
        let k = kept(split_by(name, seq!['[', ']']));
        if k.len() == 0 {
            None
        } else {
            Some(concat(k))
        }
    }
}

/// Why a file is left alone, when [`movie_name`] gives nothing.
pub open spec fn movie_skip(name: Seq<char>) -> SkipReason {
    if !is_video(name) {
        SkipReason::WrongKind
    } else if !name.contains('[') {
        SkipReason::NothingToFix
    } else {
        SkipReason::NoName
    }
}

fn keep_piece_exec(p: &[char]) -> (r: bool)
    ensures
        r == keep_piece(p@),
{
    let www = ['w', 'w', 'w'];
    let tag = ['\u{7535}', '\u{5f71}', '\u{5929}', '\u{5802}'];
    assert(www@ =~= seq!['w', 'w', 'w']);
    assert(tag@ =~= seq!['\u{7535}', '\u{5f71}', '\u{5929}', '\u{5802}']);
    p.len() != 0 && !(contains_sub(p, &www) || contains_sub(p, &tag))
}

/// The new name of the file `file_name`, as [`movie_name`] gives it.
pub fn movie_target_name(file_name: &str) -> (r: Result<Vec<char>, SkipReason>)
    ensures
        match movie_name(file_name@) {
            Some(n) => r matches Ok(v) && v@ == n,
            None => r == Err::<Vec<char>, SkipReason>(movie_skip(file_name@)),
        },
{
    let name = chars_of(file_name);
    let mp4 = ['.', 'm', 'p', '4'];
    let mov = ['.', 'm', 'o', 'v'];
    assert(mp4@ =~= seq!['.', 'm', 'p', '4'] && mov@ =~= seq!['.', 'm', 'o', 'v']);
    if !(ends_with_chars(name.as_slice(), &mp4) || ends_with_chars(name.as_slice(), &mov)) {
        return Err(SkipReason::WrongKind);
    }
    if !has_char(name.as_slice(), '[') {
        return Err(SkipReason::NothingToFix);
    }
    let seps = ['[', ']'];
    assert(seps@ =~= seq!['[', ']']);
    let pieces = split_chars(name.as_slice(), &seps);
    let ghost ps = views(pieces@);
    let mut joined: Vec<char> = Vec::new();
    let mut count: usize = 0;
    let mut i: usize = 0;
    while i < pieces.len()
        invariant
            i <= pieces@.len(),
            ps == views(pieces@),
            count == kept(ps.take(i as int)).len(),
            count <= i,
            joined@ == concat(kept(ps.take(i as int))),
        decreases pieces@.len() - i,
    {
        assert(ps.take(i + 1).drop_last() == ps.take(i as int));
        assert(ps.take(i + 1).last() == pieces@[i as int]@);
        let p = pieces[i].as_slice();
        if keep_piece_exec(p) {
            let ghost before = joined@;
            let mut j: usize = 0;
            while j < p.len()
                invariant
                    j <= p@.len(),
                    joined@ == before + p@.take(j as int),
                decreases p@.len() - j,
            {
                joined.push(p[j]);
                assert(p@.take(j + 1) == p@.take(j as int).push(p@[j as int]));
                j += 1;
            }
            assert(p@.take(p@.len() as int) == p@);
            let ghost k0 = kept(ps.take(i as int));
            assert(kept(ps.take(i + 1)) == k0.push(p@));
            assert(k0.push(p@).drop_last() == k0);
            count = count + 1;
        }
        i += 1;
    }
    assert(ps.take(pieces@.len() as int) == ps);
    if count == 0 {
        Err(SkipReason::NoName)
    } else {
        Ok(joined)
    }
}

/// What to do with one directory entry: enter a directory; rename a video
/// file to `target_dir/` and its new name, when both paths are longer than
/// ten bytes; else leave it.
pub fn movie_entry_action(is_dir: bool, file_name: &str, entry_path: &str, target_dir: &str) -> (r:
    EntryAction)
    ensures
        is_dir ==> r == EntryAction::Descend,
        !is_dir ==> match movie_name(file_name@) {
            None => r == EntryAction::Skip(movie_skip(file_name@)),
            Some(n) => match rename_or_skip(entry_path@, target_dir@, n) {
                Some((f, t)) => r matches EntryAction::Rename(a, b) && a@ == f && b@ == t,
                None => r == EntryAction::Skip(SkipReason::PathTooShort),
            },
        },
{
    if is_dir {
        return EntryAction::Descend;
    }
    match movie_target_name(file_name) {
        Err(reason) => EntryAction::Skip(reason),
        Ok(n) => rename_to(entry_path, target_dir, n.as_slice()),
    }
}

/// Every character of the kept pieces comes from some piece of the list.
proof fn lemma_kept_chars(ps: Seq<Seq<char>>, c: char)
    requires
        forall|i: int, j: int| 0 <= i < ps.len() && 0 <= j < ps[i].len() ==> #[trigger] ps[i][j] != c,
    ensures
        !concat(kept(ps)).contains(c),
    decreases ps.len(),
{
    if ps.len() > 0 {
        let init = ps.drop_last();
        assert forall|i: int, j: int| 0 <= i < init.len() && 0 <= j < init[i].len() implies #[trigger] init[i][j]
            != c by {
            assert(init[i] == ps[i]);
        }
        lemma_kept_chars(init, c);
        if keep_piece(ps.last()) {
            let k = kept(init).push(ps.last());
            assert(k.drop_last() == kept(init));
            assert forall|x: int| 0 <= x < concat(k).len() implies concat(k)[x] != c by {
                if x >= concat(kept(init)).len() {
                    assert(ps[ps.len() - 1][x - concat(kept(init)).len()] != c);
                }
            }
        }
    }
}

/// A new name holds no bracket: the tags are cut out with the brackets
/// around them.
pub proof fn lemma_movie_name_has_no_brackets(name: Seq<char>)
    ensures
        movie_name(name) matches Some(n) ==> !n.contains('[') && !n.contains(']'),
{
    let seps = seq!['[', ']'];
    let ps = split_by(name, seps);
    lemma_split_pieces_free(name, seps);
    assert(seps.contains('[') && seps.contains(']'));
    assert forall|i: int, j: int| 0 <= i < ps.len() && 0 <= j < ps[i].len() implies #[trigger] ps[i][j]
        != '[' by {
        assert(!seps.contains(ps[i][j]));
    }
    assert forall|i: int, j: int| 0 <= i < ps.len() && 0 <= j < ps[i].len() implies #[trigger] ps[i][j]
        != ']' by {
        assert(!seps.contains(ps[i][j]));
    }
    lemma_kept_chars(ps, '[');
    lemma_kept_chars(ps, ']');
}

} // verus!
