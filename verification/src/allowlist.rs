//! The list of directories that output may be written to, as the user's
//! configuration file gives it.
//!
//! The file holds one directory per line. White space round a line is
//! ignored, and so are empty lines and lines that start with `#`. A line may
//! name the home directory as `~` or a path below it as `~/...`.

use crate::text::{trim_bounds, trimmed};
use vstd::prelude::*;

verus! {

/// One directory of the configuration file.
#[derive(Debug, PartialEq, Eq)]
pub enum AllowedDir {
    /// The home directory itself: the line `~`.
    Home,
    /// A path below the home directory: what follows `~/` on the line.
    UnderHome(String),
    /// Any other line, taken as a path as it stands.
    Path(String),
}

/// One directory of the configuration file, as a mathematical value.
pub enum DirView {
    Home,
    UnderHome(Seq<char>),
    Path(Seq<char>),
}

impl View for AllowedDir {
    type V = DirView;

    open spec fn view(&self) -> DirView {
        match self {
            AllowedDir::Home => DirView::Home,
            AllowedDir::UnderHome(rest) => DirView::UnderHome(rest@),
            AllowedDir::Path(path) => DirView::Path(path@),
        }
    }
}

/// The directories of a list, as mathematical values.
pub open spec fn views_of(dirs: Seq<AllowedDir>) -> Seq<DirView> {
    Seq::new(dirs.len(), |i: int| dirs[i]@)
}

/// The lines of a text: the pieces between its line feeds. A text with `n`
/// line feeds has `n + 1` lines, the last of them possibly empty.
pub open spec fn lines_of(text: Seq<char>) -> Seq<Seq<char>>
    decreases text.len(),
{
    if text.len() == 0 {
        seq![Seq::empty()]
    } else {
        let before = lines_of(text.drop_last());
        if text.last() == '\n' {
            before.push(Seq::empty())
        } else {
            before.drop_last().push(before.last().push(text.last()))
        }
    }
}

/// Lines joined again, with a line feed between each two.
pub open spec fn joined_lines(lines: Seq<Seq<char>>) -> Seq<char>
    decreases lines.len(),
{
    if lines.len() == 0 {
        Seq::empty()
    } else if lines.len() == 1 {
        lines[0]
    } else {
        joined_lines(lines.drop_last()).push('\n') + lines.last()
    }
}

/// What one line of the file says: nothing, if it is empty or a comment once
/// trimmed, else the directory it names.
pub open spec fn entry_of(line: Seq<char>) -> Option<DirView> {
    let name = trimmed(line);
    if name.len() == 0 || name[0] == '#' {
        None
    } else if name.len() >= 2 && name[0] == '~' && name[1] == '/' {
        Some(DirView::UnderHome(name.skip(2)))
    } else if name.len() == 1 && name[0] == '~' {
        Some(DirView::Home)
    } else {
        Some(DirView::Path(name))
    }
}

/// The directories that a run of lines names, in the order of the lines.
pub open spec fn entries_of(lines: Seq<Seq<char>>) -> Seq<DirView>
    decreases lines.len(),
{
    if lines.len() == 0 {
        Seq::empty()
    } else {
        match entry_of(lines.last()) {
            Some(dir) => entries_of(lines.drop_last()).push(dir),
            None => entries_of(lines.drop_last()),
        }
    }
}

/// The lines of a text are the text cut at its line feeds and at nothing
/// else: no line holds a line feed, and the lines joined by line feeds are
/// the text again.
pub proof fn lemma_lines_partition_text(text: Seq<char>)
    ensures
        lines_of(text).len() >= 1,
        forall|i: int, j: int|
            0 <= i < lines_of(text).len() && 0 <= j < lines_of(text)[i].len() ==> (
            #[trigger] lines_of(text)[i][j]) != '\n',
        joined_lines(lines_of(text)) == text,
    decreases text.len(),
{
    if text.len() == 0 {
        assert(joined_lines(lines_of(text)) =~= text);
    } else {
        let shorter = text.drop_last();
        let before = lines_of(shorter);
        let lines = lines_of(text);
        lemma_lines_partition_text(shorter);
        if text.last() == '\n' {
            assert(lines.drop_last() =~= before);
            assert(joined_lines(lines) =~= text);
        } else {
            let open = before.last().push(text.last());
            if before.len() == 1 {
                assert(lines =~= seq![open]);
                assert(shorter.push(text.last()) =~= text);
            } else {
                assert(lines.drop_last() =~= before.drop_last());
                let head = joined_lines(before.drop_last()).push('\n');
                assert(joined_lines(lines) == head + open);
                assert(shorter == head + before.last());
                assert(text =~= shorter.push(text.last()));
                assert(head + open =~= (head + before.last()).push(text.last()));
            }
        }
    }
}

/// Copies the characters of `chars` from `from` up to `to` into a string.
fn string_of(chars: &Vec<char>, from: usize, to: usize) -> (s: String)
    requires
        from <= to <= chars.len(),
    ensures
        s@ == chars@.subrange(from as int, to as int),
{
    let mut s = String::new();
    let mut i: usize = from;
    while i < to
        invariant
            from <= i <= to <= chars.len(),
            s@ == chars@.subrange(from as int, i as int),
        decreases to - i,
    {
        s.push(chars[i]);
        assert(s@ =~= chars@.subrange(from as int, i + 1));
        i = i + 1;
    }
    s
}

/// Reads one line of the file.
pub fn parse_line(line: &Vec<char>) -> (dir: Option<AllowedDir>)
    ensures
        match dir {
            Some(d) => entry_of(line@) == Some(d@),
            None => entry_of(line@) is None,
        },
{
    let (start, end) = trim_bounds(line);
    let ghost name = trimmed(line@);
    if start == end || line[start] == '#' {
        None
    } else if end - start >= 2 && line[start] == '~' && line[start + 1] == '/' {
        let rest = string_of(line, start + 2, end);
        assert(rest@ =~= name.skip(2));
        Some(AllowedDir::UnderHome(rest))
    } else if end - start == 1 && line[start] == '~' {
        Some(AllowedDir::Home)
    } else {
        Some(AllowedDir::Path(string_of(line, start, end)))
    }
}

/// Reads the configuration file: the directories that its lines name, in the
/// order of the lines.
pub fn parse_allowed_dirs(contents: &str) -> (dirs: Vec<AllowedDir>)
    ensures
        views_of(dirs@) == entries_of(lines_of(contents@)),
{
    let mut dirs: Vec<AllowedDir> = Vec::new();
    let mut line: Vec<char> = Vec::new();
    assert(views_of(dirs@) =~= entries_of(lines_of(contents@.take(0)).drop_last()));
    for c in it: contents.chars()
        invariant
            it.seq() == contents@,
            lines_of(contents@.take(it.index() as int)).len() >= 1,
            line@ == lines_of(contents@.take(it.index() as int)).last(),
            views_of(dirs@) == entries_of(lines_of(contents@.take(it.index() as int)).drop_last()),
    {
        let ghost seen = contents@.take(it.index() as int);
        let ghost more = contents@.take(it.index() + 1);
        assert(more.drop_last() =~= seen);
        assert(more.last() == c);
        if c == '\n' {
            let ghost before = dirs@;
            match parse_line(&line) {
                Some(dir) => {
                    dirs.push(dir);
                    assert(views_of(dirs@) =~= views_of(before).push(dir@));
                },
                None => {},
            }
            line = Vec::new();
            assert(lines_of(more).drop_last() =~= lines_of(seen));
        } else {
            line.push(c);
            assert(lines_of(more).drop_last() =~= lines_of(seen).drop_last());
        }
    }
    let ghost before = dirs@;
    assert(contents@.take(contents@.len() as int) =~= contents@);
    match parse_line(&line) {
        Some(dir) => {
            dirs.push(dir);
            assert(views_of(dirs@) =~= views_of(before).push(dir@));
        },
        None => {},
    }
    dirs
}

} // verus!
