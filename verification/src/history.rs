//! The history table: which line the editor last left the cursor on, by file path.
//!
//! The editor writes one entry per line, the path and the line number separated by a
//! tab. The line number is kept as text and never read as a number.

use crate::text::{
    find_char, first_index_of, is_whitespace, lemma_first_index_of, lemma_trimmed_is_the_core,
    lemma_trimmed_keeps_clean_text, trim, trimmed,
};
use vstd::hash_map::StringHashMap;
use vstd::prelude::*;

verus! {

/// One entry of the history: a path and the cursor line recorded for it.
pub struct HistoryEntry {
    pub path: String,
    pub linenum: String,
}

impl View for HistoryEntry {
    type V = (Seq<char>, Seq<char>);

    open spec fn view(&self) -> (Seq<char>, Seq<char>) {
        (self.path@, self.linenum@)
    }
}

/// The entry that a line of the history holds: the line is trimmed and split at its
/// first tab. A line without a tab holds none.
pub open spec fn parsed_line(line: Seq<char>) -> Option<(Seq<char>, Seq<char>)> {
    let t = trimmed(line);
    match first_index_of(t, '\t') {
        Some(i) => Some((t.take(i), t.skip(i + 1))),
        None => None,
    }
}

/// The table after `line` has been read into `table`.
pub open spec fn recorded(table: Map<Seq<char>, Seq<char>>, line: Seq<char>) -> Map<
    Seq<char>,
    Seq<char>,
> {
    match parsed_line(line) {
        Some((path, linenum)) => table.insert(path, linenum),
        None => table,
    }
}

/// The table after `lines` have been read into `table`, first to last.
pub open spec fn recorded_all(table: Map<Seq<char>, Seq<char>>, lines: Seq<Seq<char>>) -> Map<
    Seq<char>,
    Seq<char>,
>
    decreases lines.len(),
{
    if lines.len() == 0 {
        table
    } else {
        recorded(recorded_all(table, lines.drop_last()), lines.last())
    }
}

/// The table that a history of `lines` gives.
pub open spec fn table_of(lines: Seq<Seq<char>>) -> Map<Seq<char>, Seq<char>> {
    recorded_all(Map::empty(), lines)
}

/// Reads one line of the history.
pub fn parse_line(line: &str) -> (entry: Option<HistoryEntry>)
    ensures
        match entry {
            Some(e) => parsed_line(line@) == Some(e@),
            None => parsed_line(line@) is None,
        },
{
    let t = trim(line);
    match find_char(t, '\t') {
        Some(i) => {
            proof {
                lemma_first_index_of(t@, '\t');
            }
            let total = t.unicode_len();
            let path = t.substring_char(0, i).to_owned();
            let linenum = t.substring_char(i + 1, total).to_owned();
            Some(HistoryEntry { path, linenum })
        },
        None => None,
    }
}

/// A mapping from path to recorded cursor line.
pub struct HistoryTable {
    entries: StringHashMap<String>,
}

impl View for HistoryTable {
    type V = Map<Seq<char>, Seq<char>>;

    closed spec fn view(&self) -> Map<Seq<char>, Seq<char>> {
        self.entries@.map_values(|linenum: String| linenum@)
    }
}

impl HistoryTable {
    /// A table without entries.
    pub fn new() -> (table: Self)
        ensures
            table@ == Map::<Seq<char>, Seq<char>>::empty(),
    {
        let table = HistoryTable { entries: StringHashMap::new() };
        assert(table@ =~= Map::<Seq<char>, Seq<char>>::empty());
        table
    }

    /// Records `entry`, in place of what the table held for its path.
    pub fn insert(&mut self, entry: HistoryEntry)
        ensures
            final(self)@ == old(self)@.insert(entry.path@, entry.linenum@),
    {
        let ghost path = entry.path@;
        let ghost linenum = entry.linenum@;
        self.entries.insert(entry.path, entry.linenum);
        assert(self@ =~= old(self)@.insert(path, linenum));
    }

    /// Reads one line of the history into the table. Says whether the line held an entry.
    pub fn record_line(&mut self, line: &str) -> (held_entry: bool)
        ensures
            final(self)@ == recorded(old(self)@, line@),
            held_entry == parsed_line(line@) is Some,
    {
        match parse_line(line) {
            Some(entry) => {
                self.insert(entry);
                true
            },
            None => false,
        }
    }

    /// The table that the lines of a history give, read first to last.
    pub fn from_lines(lines: &Vec<String>) -> (table: Self)
        ensures
            table@ == table_of(lines.deep_view()),
    {
        let mut table = HistoryTable::new();
        let mut i: usize = 0;
        while i < lines.len()
            invariant
                i <= lines.len(),
                table@ == table_of(lines.deep_view().take(i as int)),
            decreases lines.len() - i,
        {
            let ghost read = lines.deep_view().take(i as int);
            let ghost next = lines.deep_view().take(i + 1);
            table.record_line(lines[i].as_str());
            proof {
                assert(next.drop_last() =~= read);
                assert(next.last() == lines[i as int]@);
            }
            i += 1;
        }
        proof {
            assert(lines.deep_view().take(i as int) =~= lines.deep_view());
        }
        table
    }

    /// The cursor line recorded for `path`.
    pub fn lookup(&self, path: &str) -> (linenum: Option<&String>)
        ensures
            match linenum {
                Some(l) => self@.contains_key(path@) && self@[path@] == l@,
                None => !self@.contains_key(path@),
            },
    {
        self.entries.get(path)
    }

    /// The number of paths that have an entry.
    pub fn len(&self) -> (n: usize)
        ensures
            n == self@.len(),
    {
        proof {
            assert(self@.dom() =~= self.entries@.dom());
        }
        self.entries.len()
    }

    /// Whether no path has an entry.
    pub fn is_empty(&self) -> (empty: bool)
        ensures
            empty == (self@.len() == 0),
    {
        self.len() == 0
    }
}

/// An entry that a line holds is the trimmed line cut at its first tab: the path holds
/// no tab and does not begin with whitespace, and the cursor line is not empty and does
/// not end with whitespace.
pub proof fn lemma_parsed_line_shape(line: Seq<char>)
    ensures
        match parsed_line(line) {
            Some((path, linenum)) => {
                &&& trimmed(line) == path + seq!['\t'] + linenum
                &&& !path.contains('\t')
                &&& path.len() > 0 ==> !is_whitespace(path.first())
                &&& linenum.len() > 0
                &&& !is_whitespace(linenum.last())
            },
            None => !trimmed(line).contains('\t'),
        },
{
    let t = trimmed(line);
    let bounds = lemma_trimmed_is_the_core(line);
    lemma_first_index_of(t, '\t');
    match first_index_of(t, '\t') {
        Some(i) => {
            let path = t.take(i);
            let linenum = t.skip(i + 1);
            assert(t =~= path + seq!['\t'] + linenum);
            assert(is_whitespace('\t'));
            assert(t.last() == line[bounds.1 - 1]);
            assert(t.first() == line[bounds.0]);
            assert(i != t.len() - 1);
            assert(linenum.last() == t.last());
            if path.len() > 0 {
                assert(path.first() == t.first());
            }
        },
        None => {},
    }
}

/// A path and a cursor line, written with a tab between them, are read back as they
/// were written, as long as the path holds no tab and the whole neither begins nor ends
/// with whitespace.
pub proof fn lemma_parse_round_trip(path: Seq<char>, linenum: Seq<char>)
    requires
        !path.contains('\t'),
        path.len() > 0 && !is_whitespace(path.first()),
        linenum.len() > 0 && !is_whitespace(linenum.last()),
    ensures
        parsed_line(path + seq!['\t'] + linenum) == Some((path, linenum)),
{
    let line = path + seq!['\t'] + linenum;
    assert(line.first() == path.first());
    assert(line.last() == linenum.last());
    lemma_trimmed_keeps_clean_text(line);
    lemma_first_index_of(line, '\t');
    let at = path.len() as int;
    assert(line[at] == '\t');
    assert forall|k: int| 0 <= k < at implies line[k] != '\t' by {
        assert(line[k] == path[k]);
    }
    assert(first_index_of(line, '\t') == Some(at));
    assert(line.take(at) =~= path);
    assert(line.skip(at + 1) =~= linenum);
}

/// Reading two runs of lines one after the other is reading them as one run.
pub proof fn lemma_recorded_all_concat(
    table: Map<Seq<char>, Seq<char>>,
    first: Seq<Seq<char>>,
    second: Seq<Seq<char>>,
)
    ensures
        recorded_all(table, first + second) == recorded_all(recorded_all(table, first), second),
    decreases second.len(),
{
    if second.len() == 0 {
        assert(first + second =~= first);
    } else {
        lemma_recorded_all_concat(table, first, second.drop_last());
        assert((first + second).drop_last() =~= first + second.drop_last());
        assert((first + second).last() == second.last());
    }
}

/// Last write wins: where line `i` holds an entry for `path` and no later line holds one
/// for the same path, the table holds the cursor line of line `i` for it.
pub proof fn lemma_last_write_wins(
    lines: Seq<Seq<char>>,
    i: int,
    path: Seq<char>,
    linenum: Seq<char>,
)
    requires
        0 <= i < lines.len(),
        parsed_line(lines[i]) == Some((path, linenum)),
        forall|j: int|
            i < j < lines.len() ==> match parsed_line(#[trigger] lines[j]) {
                Some((later, _)) => later != path,
                None => true,
            },
    ensures
        table_of(lines).contains_key(path),
        table_of(lines)[path] == linenum,
    decreases lines.len(),
{
    if i < lines.len() - 1 {
        let earlier = lines.drop_last();
        assert(earlier[i] == lines[i]);
        assert forall|j: int| i < j < earlier.len() implies match parsed_line(
            #[trigger] earlier[j],
        ) {
            Some((later, _)) => later != path,
            None => true,
        } by {
            assert(earlier[j] == lines[j]);
        }
        lemma_last_write_wins(earlier, i, path, linenum);
        assert(lines.last() == lines[lines.len() - 1]);
    }
}

/// The table holds nothing but what the history holds: an entry of the table is the
/// entry of one of the lines.
pub proof fn lemma_table_holds_only_what_was_read(lines: Seq<Seq<char>>, path: Seq<char>)
    requires
        table_of(lines).contains_key(path),
    ensures
        exists|i: int|
            0 <= i < lines.len() && parsed_line(#[trigger] lines[i]) == Some(
                (path, table_of(lines)[path]),
            ),
    decreases lines.len(),
{
    if lines.len() > 0 {
        let earlier = lines.drop_last();
        let last = lines.len() - 1;
        assert(lines.last() == lines[last]);
        if parsed_line(lines[last]) == Some((path, table_of(lines)[path])) {
        } else {
            assert(table_of(earlier).contains_key(path));
            assert(table_of(earlier)[path] == table_of(lines)[path]);
            lemma_table_holds_only_what_was_read(earlier, path);
            let i = choose|i: int|
                0 <= i < earlier.len() && parsed_line(#[trigger] earlier[i]) == Some(
                    (path, table_of(earlier)[path]),
                );
            assert(lines[i] == earlier[i]);
        }
    }
}

/// A line without a tab is skipped: the table is the one that the history gives without
/// that line.
pub proof fn lemma_line_without_tab_is_skipped(
    before: Seq<Seq<char>>,
    line: Seq<char>,
    after: Seq<Seq<char>>,
)
    requires
        !line.contains('\t'),
    ensures
        parsed_line(line) is None,
        table_of(before + seq![line] + after) == table_of(before + after),
{
    let t = trimmed(line);
    let bounds = lemma_trimmed_is_the_core(line);
    lemma_first_index_of(t, '\t');
    if let Some(i) = first_index_of(t, '\t') {
        assert(t[i] == line[bounds.0 + i]);
        assert(false);
    }
    let table = table_of(before);
    lemma_recorded_all_concat(Map::empty(), before, seq![line]);
    assert(seq![line].drop_last() =~= Seq::<Seq<char>>::empty());
    assert(seq![line].last() == line);
    assert(recorded_all(table, Seq::empty()) == table);
    assert(recorded_all(table, seq![line]) == table);
    lemma_recorded_all_concat(Map::empty(), before + seq![line], after);
    lemma_recorded_all_concat(Map::empty(), before, after);
}

} // verus!
