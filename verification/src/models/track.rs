//! Work tracks: a frontmatter plus a markdown table of items.
use vstd::prelude::*;

use crate::error::ForjaError;
use crate::sorting::{char_codes, first_index, is_stable_sort, stable_sort_by_key, str_sort_key, take_first, Keyed, SortKey};
use crate::text::{chars_of, concat2, contains, find_chars, owned, raw_lines, raw_lines_of, split_chars, split_on, starts_with, string_from_chars, trim, trim_chars, views};

verus! {

/// Lifecycle status of a track.
#[derive(Debug, Clone, Copy, PartialEq, Eq)]
pub enum TrackStatus {
    Draft,
    InProgress,
    Complete,
    Archived,
}

/// The kebab-case name of a track status.
pub open spec fn track_status_name(s: TrackStatus) -> Seq<char> {
    match s {
        TrackStatus::Draft => "draft"@,
        TrackStatus::InProgress => "in-progress"@,
        TrackStatus::Complete => "complete"@,
        TrackStatus::Archived => "archived"@,
    }
}

impl TrackStatus {
    /// The status's kebab-case name.
    pub fn as_str(&self) -> (r: &'static str)
        ensures
            r@ == track_status_name(*self),
    {
        match self {
            TrackStatus::Draft => "draft",
            TrackStatus::InProgress => "in-progress",
            TrackStatus::Complete => "complete",
            TrackStatus::Archived => "archived",
        }
    }
}

/// Priority of a track.
#[derive(Debug, Clone, Copy, PartialEq, Eq)]
pub enum TrackPriority {
    High,
    Medium,
    Low,
}

/// The YAML frontmatter of a track file.
#[derive(Debug, Clone)]
pub struct TrackFrontmatter {
    pub id: String,
    pub title: String,
    pub description: String,
    pub status: TrackStatus,
    pub owner: Option<String>,
    pub priority: Option<TrackPriority>,
    pub created: String,
}

/// A single item row parsed from the track's markdown table.
#[derive(Debug, Clone)]
pub struct TrackItem {
    pub id: String,
    pub task: String,
    pub status: String,
    pub spec: String,
}

/// A parsed track file.
#[derive(Debug, Clone)]
pub struct TrackFile {
    pub frontmatter: TrackFrontmatter,
    pub body: String,
    pub items: Vec<TrackItem>,
}

/// The four columns of an item: id, task, status, spec.
pub open spec fn item_view(i: TrackItem) -> (Seq<char>, Seq<char>, Seq<char>, Seq<char>) {
    (i.id@, i.task@, i.status@, i.spec@)
}

/// The number of items whose status is `done`.
pub open spec fn count_done(items: Seq<TrackItem>) -> nat
    decreases items.len(),
{
    if items.len() == 0 {
        0
    } else {
        count_done(items.drop_last()) + if items.last().status@ == "done"@ {
            1nat
        } else {
            0nat
        }
    }
}

impl TrackFile {
    /// The track's id.
    pub fn id(&self) -> (r: &str)
        ensures
            r@ == self.frontmatter.id@,
    {
        self.frontmatter.id.as_str()
    }

    /// The track's title.
    pub fn title(&self) -> (r: &str)
        ensures
            r@ == self.frontmatter.title@,
    {
        self.frontmatter.title.as_str()
    }

    /// `(done, total)`: how many items are done, out of all items.
    pub fn progress(&self) -> (r: (usize, usize))
        ensures
            r.0 == count_done(self.items@),
            r.1 == self.items@.len(),
    {
        let done_chars = chars_of("done");
        let mut done: usize = 0;
        let mut i: usize = 0;
        while i < self.items.len()
            invariant
                i <= self.items.len(),
                done_chars@ == "done"@,
                done == count_done(self.items@.take(i as int)),
                done <= i,
            decreases self.items.len() - i,
        {
            assert(self.items@.take(i + 1).drop_last() =~= self.items@.take(i as int));
            let st = chars_of(self.items[i].status.as_str());
            if crate::text::chars_eq(&st, &done_chars) {
                done = done + 1;
            }
            i = i + 1;
        }
        assert(self.items@.take(i as int) =~= self.items@);
        (done, self.items.len())
    }
}

/// Whether a trimmed line starts with a pipe.
pub open spec fn is_pipe_row(t: Seq<char>) -> bool {
    starts_with(t, seq!['|'])
}

/// A table header: a pipe row naming the `ID` and `Status` columns.
pub open spec fn is_header_row(t: Seq<char>) -> bool {
    is_pipe_row(t) && contains(t, "ID"@) && contains(t, "Status"@)
}

/// A separator row: a pipe row holding `---`.
pub open spec fn is_separator_row(t: Seq<char>) -> bool {
    is_pipe_row(t) && contains(t, "---"@)
}

/// The trimmed pieces that are not empty, in order.
pub open spec fn nonempty_trimmed(ps: Seq<Seq<char>>) -> Seq<Seq<char>>
    decreases ps.len(),
{
    if ps.len() == 0 {
        Seq::empty()
    } else {
        let r = nonempty_trimmed(ps.drop_last());
        if trim(ps.last()).len() == 0 {
            r
        } else {
            r.push(trim(ps.last()))
        }
    }
}

/// The non-empty cells of a row.
pub open spec fn row_columns(t: Seq<char>) -> Seq<Seq<char>> {
    nonempty_trimmed(split_on(t, '|'))
}

/// The items of the table rows from line `i` on, given whether a header
/// and a separator have been seen.
pub open spec fn table_rows(ls: Seq<Seq<char>>, i: int, in_table: bool, past_sep: bool) -> Seq<
    (Seq<char>, Seq<char>, Seq<char>, Seq<char>),
>
    decreases ls.len() - i,
{
    if i < 0 || i >= ls.len() {
        Seq::empty()
    } else {
        let t = trim(ls[i]);
        if !in_table {
            table_rows(ls, i + 1, is_header_row(t), false)
        } else if !past_sep {
            table_rows(ls, i + 1, true, is_separator_row(t))
        } else if !is_pipe_row(t) {
            Seq::empty()
        } else {
            let cols = row_columns(t);
            let rest = table_rows(ls, i + 1, true, true);
            if cols.len() >= 4 {
                seq![(cols[0], cols[1], cols[2], cols[3])] + rest
            } else {
                rest
            }
        }
    }
}

/// The items of the first table in `body`: after a header row naming `ID` and
/// `Status` and a `---` separator row, every pipe row with at least four
/// non-empty cells, up to the first line that is not a pipe row.
pub open spec fn track_table(body: Seq<char>) -> Seq<(Seq<char>, Seq<char>, Seq<char>, Seq<char>)> {
    table_rows(raw_lines(body), 0, false, false)
}

fn is_pipe(t: &Vec<char>) -> (r: bool)
    ensures
        r == is_pipe_row(t@),
{
    if t.len() == 0 {
        false
    } else {
        proof {
            if t@[0] == '|' {
                assert(t@.subrange(0, 1) =~= seq!['|']);
            } else {
                assert(t@.subrange(0, 1)[0] != seq!['|'][0]);
            }
        }
        t[0] == '|'
    }
}

fn has(t: &Vec<char>, p: &str) -> (r: bool)
    ensures
        r == contains(t@, p@),
{
    let pv = chars_of(p);
    find_chars(t, &pv, 0).is_some()
}

fn columns(t: &Vec<char>) -> (r: Vec<Vec<char>>)
    ensures
        views(r@) == row_columns(t@),
{
    let pieces = split_chars(t, '|');
    let mut cols: Vec<Vec<char>> = Vec::new();
    let mut i: usize = 0;
    while i < pieces.len()
        invariant
            i <= pieces.len(),
            views(pieces@) == split_on(t@, '|'),
            views(cols@) == nonempty_trimmed(views(pieces@).take(i as int)),
        decreases pieces.len() - i,
    {
        assert(views(pieces@).take(i + 1).drop_last() =~= views(pieces@).take(i as int));
        assert(views(pieces@).take(i + 1).last() == pieces@[i as int]@);
        let c = trim_chars(&pieces[i]);
        if c.len() > 0 {
            let ghost before = views(cols@);
            cols.push(c);
            assert(views(cols@) =~= before.push(c@));
        }
        i = i + 1;
    }
    assert(views(pieces@).take(i as int) =~= views(pieces@));
    cols
}

/// Parse track items from the markdown table in a track's body.
///
/// Expected format:
/// ```text
/// | ID  | Task                    | Status      | Spec      |
/// |-----|-------------------------|-------------|-----------|
/// | M1  | Auth & user management  | done        | auth      |
/// ```
pub fn parse_track_table(body: &str) -> (items: Vec<TrackItem>)
    ensures
        items@.map_values(|i: TrackItem| item_view(i)) == track_table(body@),
{
    let chars = chars_of(body);
    let lines = raw_lines_of(&chars);
    let ghost ls = views(lines@);
    let mut items: Vec<TrackItem> = Vec::new();
    let mut in_table = false;
    let mut past_separator = false;
    let mut i: usize = 0;
    while i < lines.len()
        invariant
            i <= lines.len(),
            ls == views(lines@),
            ls == raw_lines(body@),
            !in_table ==> !past_separator,
            items@.map_values(|it: TrackItem| item_view(it)) + table_rows(
                ls,
                i as int,
                in_table,
                past_separator,
            ) == track_table(body@),
        decreases lines.len() - i,
    {
        let ghost before = items@.map_values(|it: TrackItem| item_view(it));
        let t = trim_chars(&lines[i]);
        assert(t@ == trim(ls[i as int]));
        if !in_table {
            in_table = is_pipe(&t) && has(&t, "ID") && has(&t, "Status");
        } else if !past_separator {
            past_separator = is_pipe(&t) && has(&t, "---");
        } else {
            if !is_pipe(&t) {
                assert(table_rows(ls, i as int, in_table, past_separator) =~= Seq::empty());
                assert(items@.map_values(|it: TrackItem| item_view(it)) =~= before);
                return items;
            }
            let cols = columns(&t);
            if cols.len() >= 4 {
                let item = TrackItem {
                    id: string_from_chars(cols[0].as_slice()),
                    task: string_from_chars(cols[1].as_slice()),
                    status: string_from_chars(cols[2].as_slice()),
                    spec: string_from_chars(cols[3].as_slice()),
                };
                items.push(item);
                assert(items@.map_values(|it: TrackItem| item_view(it)) =~= before.push(
                    item_view(item),
                ));
            }
        }
        i = i + 1;
    }
    assert(table_rows(ls, i as int, in_table, past_separator) =~= Seq::empty());
    items
}

/// A track file built from its parsed frontmatter and body: the items are
/// those of the body's table.
pub fn track_from_parts(frontmatter: TrackFrontmatter, body: &str) -> (t: TrackFile)
    ensures
        t.frontmatter == frontmatter,
        t.body@ == body@,
        t.items@.map_values(|i: TrackItem| item_view(i)) == track_table(body@),
{
    let items = parse_track_table(body);
    TrackFile { frontmatter, body: owned(body), items }
}

impl Keyed for TrackFile {
    open spec fn key_of(&self) -> Seq<char> {
        self.frontmatter.id@
    }

    fn key_str(&self) -> (r: &str) {
        self.frontmatter.id.as_str()
    }
}

impl SortKey for TrackFile {
    open spec fn key(&self) -> Seq<int> {
        char_codes(self.frontmatter.id@)
    }

    fn key_exec(&self) -> (k: Vec<u32>) {
        str_sort_key(self.frontmatter.id.as_str())
    }
}

/// The tracks of a directory sorted by id. `loaded` holds the tracks parsed
/// from its `.md` files (an empty list when the directory does not exist),
/// or the error met while listing it, which is passed on.
pub fn discover_tracks(loaded: Result<Vec<TrackFile>, ForjaError>) -> (r: Result<
    Vec<TrackFile>,
    ForjaError,
>)
    ensures
        match loaded {
            Err(e) => r == Err::<Vec<TrackFile>, ForjaError>(e),
            Ok(found) => r is Ok && is_stable_sort(found@, r->Ok_0@),
        },
{
    match loaded {
        Err(e) => Err(e),
        Ok(found) => Ok(stable_sort_by_key(found)),
    }
}

/// What a lookup of `track_id` among `tracks` yields: the first track with
/// that id, or `InvalidArgument("track not found: <id>")`.
pub open spec fn track_lookup(
    tracks: Seq<TrackFile>,
    track_id: Seq<char>,
    r: Result<TrackFile, ForjaError>,
) -> bool {
    match r {
        Ok(t) => exists|i: int|
            first_index(tracks, track_id, Some(i as usize)) && 0 <= i < tracks.len() && tracks[i]
                == t,
        Err(e) => {
            &&& first_index(tracks, track_id, None)
            &&& e is InvalidArgument
            &&& e->InvalidArgument_0@ == "track not found: "@ + track_id
        },
    }
}

/// Find a track by id among the discovered tracks (the first match wins); a
/// discovery error is passed on.
pub fn find_track(discovered: Result<Vec<TrackFile>, ForjaError>, track_id: &str) -> (r: Result<
    TrackFile,
    ForjaError,
>)
    ensures
        match discovered {
            Err(e) => r == Err::<TrackFile, ForjaError>(e),
            Ok(tracks) => track_lookup(tracks@, track_id@, r),
        },
{
    match discovered {
        Err(e) => Err(e),
        Ok(tracks) => match take_first(tracks, track_id) {
            Some(t) => Ok(t),
            None => Err(ForjaError::InvalidArgument(concat2("track not found: ", track_id))),
        },
    }
}

} // verus!
