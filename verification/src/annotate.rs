//! The annotator: what is printed for a line of input.
//!
//! A line names a path. Where the path lies outside the target directory nothing is
//! printed. Where nothing on disk bears that name, the path is printed in a warning
//! colour. Otherwise the path is printed, plainly or in its colours, and after it the
//! cursor line that the history holds for it, if it holds one.

use crate::history::{
    lemma_last_write_wins, lemma_parse_round_trip, parsed_line, table_of, HistoryTable,
};
use crate::style::{paint_path, paints};
use crate::target::{displayed, normalized, TargetDir};
use crate::text::{is_whitespace, lemma_trimmed_keeps_clean_text, trim, trimmed};
use lscolors::LsColors;
use std::path::Path;
use vstd::prelude::*;
use vstd::string::StringExecFns;

verus! {

/// Switches on the colour of a path that is not on disk: orange.
pub const NOT_FOUND_ON: &'static str = "\x1b[38;2;255;165;0m";

/// Switches on the colour of a cursor line beside a painted path: dim grey.
pub const LINENUM_ON: &'static str = "\x1b[38;2;90;90;90m";

/// Switches every colour off.
pub const STYLE_OFF: &'static str = "\x1b[0m";

/// What the world outside says of one path: whether it is on disk, and the painted
/// components of the path as it is shown.
pub ghost struct Observation {
    pub on_disk: bool,
    pub painted: Seq<Seq<char>>,
}

/// Whether `seen` can be what is said of a path that is shown as `display`. The
/// components of `display` are painted for a path on disk in colour mode, and nothing
/// is painted otherwise.
pub open spec fn observable(color: bool, display: Seq<char>, seen: Observation) -> bool {
    if color && seen.on_disk {
        paints(display, seen.painted)
    } else {
        seen.painted.len() == 0
    }
}

/// Whether `seen` can be what is said of the path that `line` names, if the line is
/// shown under `target`.
pub open spec fn observable_of(
    target: Seq<char>,
    color: bool,
    line: Seq<char>,
    seen: Observation,
) -> bool {
    match displayed(target, trimmed(line)) {
        Some(display) => observable(color, display, seen),
        None => true,
    }
}

/// `parts` put together, first to last.
pub open spec fn joined(parts: Seq<Seq<char>>) -> Seq<char>
    decreases parts.len(),
{
    if parts.len() == 0 {
        Seq::empty()
    } else {
        joined(parts.drop_last()) + parts.last()
    }
}

/// The cursor line that `table` holds for `path`.
pub open spec fn looked_up(table: Map<Seq<char>, Seq<char>>, path: Seq<char>) -> Option<
    Seq<char>,
> {
    if table.contains_key(path) {
        Some(table[path])
    } else {
        None
    }
}

/// The line for a path that is not on disk.
pub open spec fn missing_text(display: Seq<char>) -> Seq<char> {
    NOT_FOUND_ON@ + display + STYLE_OFF@
}

/// The line for a path on disk, without colours.
pub open spec fn plain_text(display: Seq<char>, linenum: Option<Seq<char>>) -> Seq<char> {
    match linenum {
        Some(l) => display + seq!['\t'] + l,
        None => display,
    }
}

/// The line for a path on disk, in colours.
pub open spec fn colored_text(painted: Seq<Seq<char>>, linenum: Option<Seq<char>>) -> Seq<char> {
    match linenum {
        Some(l) => joined(painted) + seq!['\t'] + LINENUM_ON@ + l + STYLE_OFF@,
        None => joined(painted),
    }
}

/// The line for `path`, shown as `display`.
pub open spec fn rendered(
    table: Map<Seq<char>, Seq<char>>,
    color: bool,
    path: Seq<char>,
    display: Seq<char>,
    seen: Observation,
) -> Seq<char> {
    if !seen.on_disk {
        missing_text(display)
    } else if color {
        colored_text(seen.painted, looked_up(table, path))
    } else {
        plain_text(display, looked_up(table, path))
    }
}

/// What is printed for one line of input, if anything is.
pub open spec fn annotated(
    table: Map<Seq<char>, Seq<char>>,
    target: Seq<char>,
    color: bool,
    line: Seq<char>,
    seen: Observation,
) -> Option<Seq<char>> {
    let path = trimmed(line);
    match displayed(target, path) {
        Some(display) => Some(rendered(table, color, path, display, seen)),
        None => None,
    }
}

/// What is printed for `lines`, in order: one line for each of them that is shown.
/// `seen` holds, for each line, what the world outside says of its path.
pub open spec fn annotated_all(
    table: Map<Seq<char>, Seq<char>>,
    target: Seq<char>,
    color: bool,
    lines: Seq<Seq<char>>,
    seen: Seq<Observation>,
) -> Seq<Seq<char>>
    recommends
        seen.len() == lines.len(),
    decreases lines.len(),
{
    if lines.len() == 0 {
        Seq::empty()
    } else {
        let before = annotated_all(table, target, color, lines.drop_last(), seen.drop_last());
        match annotated(table, target, color, lines.last(), seen.last()) {
            Some(text) => before.push(text),
            None => before,
        }
    }
}

/// A line of input that is shown: the path it names and the text that stands for it.
pub struct Candidate<'a> {
    pub path: &'a str,
    pub display: &'a str,
}

/// What the world outside said of the path of one candidate.
pub struct Probe {
    pub on_disk: bool,
    pub painted: Vec<String>,
}

impl View for Probe {
    type V = Observation;

    open spec fn view(&self) -> Observation {
        Observation { on_disk: self.on_disk, painted: self.painted.deep_view() }
    }
}

/// The path that `line` names and how it is shown under `target`, if it is shown.
pub fn resolve<'a>(target: &TargetDir, line: &'a str) -> (candidate: Option<Candidate<'a>>)
    ensures
        match candidate {
            Some(c) => c.path@ == trimmed(line@) && displayed(target@, trimmed(line@)) == Some(
                c.display@,
            ),
            None => displayed(target@, trimmed(line@)) is None,
        },
{
    let path = trim(line);
    match target.display_path(path) {
        Some(display) => Some(Candidate { path, display }),
        None => None,
    }
}

/// The line for a path that is not on disk.
pub fn render_missing(display: &str) -> (text: String)
    ensures
        text@ == missing_text(display@),
{
    let mut text = String::from_str(NOT_FOUND_ON);
    text.append(display);
    text.append(STYLE_OFF);
    text
}

/// The line for a path on disk, without colours.
pub fn render_plain(display: &str, linenum: Option<&String>) -> (text: String)
    ensures
        text@ == plain_text(
            display@,
            match linenum {
                Some(l) => Some(l@),
                None => None,
            },
        ),
{
    let mut text = display.to_owned();
    match linenum {
        Some(l) => {
            proof {
                reveal_strlit("\t");
            }
            text.append("\t");
            text.append(l.as_str());
            assert(text@ =~= display@ + seq!['\t'] + l@);
        },
        None => {},
    }
    text
}

/// The line for a path on disk, in colours: the painted components of the path, and
/// after a tab the cursor line in dim grey.
pub fn render_colored(painted: &Vec<String>, linenum: Option<&String>) -> (text: String)
    ensures
        text@ == colored_text(
            painted.deep_view(),
            match linenum {
                Some(l) => Some(l@),
                None => None,
            },
        ),
{
    let mut text = String::new();
    let mut i: usize = 0;
    while i < painted.len()
        invariant
            i <= painted.len(),
            text@ == joined(painted.deep_view().take(i as int)),
        decreases painted.len() - i,
    {
        let ghost done = painted.deep_view().take(i as int);
        let ghost next = painted.deep_view().take(i + 1);
        text.append(painted[i].as_str());
        proof {
            assert(next.drop_last() =~= done);
            assert(next.last() == painted[i as int]@);
        }
        i += 1;
    }
    proof {
        assert(painted.deep_view().take(i as int) =~= painted.deep_view());
    }
    match linenum {
        Some(l) => {
            proof {
                reveal_strlit("\t");
            }
            let ghost path = text@;
            text.append("\t");
            text.append(LINENUM_ON);
            text.append(l.as_str());
            text.append(STYLE_OFF);
            assert(text@ =~= path + seq!['\t'] + LINENUM_ON@ + l@ + STYLE_OFF@);
        },
        None => {},
    }
    text
}

/// The line for a candidate, given what the world outside said of its path. The
/// painted components are read only for a path on disk and in colour mode.
pub fn render(table: &HistoryTable, color: bool, candidate: &Candidate, probe: &Probe) -> (text:
    String)
    ensures
        text@ == rendered(table@, color, candidate.path@, candidate.display@, probe@),
{
    if !probe.on_disk {
        render_missing(candidate.display)
    } else {
        let linenum = table.lookup(candidate.path);
        if color {
            render_colored(&probe.painted, linenum)
        } else {
            render_plain(candidate.display, linenum)
        }
    }
}

/// `std::path::Path::exists`: whether something on disk bears the name `path`. Nothing
/// is claimed of the answer: it changes with what is on disk.
#[verifier::external_body]
fn path_exists(path: &str) -> (on_disk: bool) {
    Path::new(path).exists()
}

/// Asks the world outside about a candidate: whether its path is on disk and, for a
/// path on disk in colour mode, how the path as shown is painted, component by
/// component. Otherwise nothing is painted. Whether the path is on disk, and which
/// colour a component gets, is for the disk to say.
pub fn observe(colors: &LsColors, color: bool, candidate: &Candidate) -> (probe: Probe)
    ensures
        observable(color, candidate.display@, probe@),
{
    let on_disk = path_exists(candidate.path);
    let painted = if color && on_disk {
        paint_path(colors, candidate.display)
    } else {
        Vec::new()
    };
    Probe { on_disk, painted }
}

/// What is printed for one line of input, if anything is. For a line that is shown, the
/// disk is asked whether the path exists, and in colour mode what kind of entry each of
/// its components names.
pub fn annotate_line(
    table: &HistoryTable,
    colors: &LsColors,
    target: &TargetDir,
    color: bool,
    line: &str,
) -> (out: Option<String>)
    ensures
        match out {
            Some(text) => exists|seen: Observation|
                {
                    &&& observable_of(target@, color, line@, seen)
                    &&& #[trigger] annotated(table@, target@, color, line@, seen) == Some(text@)
                },
            None => displayed(target@, trimmed(line@)) is None,
        },
{
    match resolve(target, line) {
        Some(candidate) => {
            let probe = observe(colors, color, &candidate);
            let text = render(table, color, &candidate, &probe);
            proof {
                assert(observable_of(target@, color, line@, probe@));
                assert(annotated(table@, target@, color, line@, probe@) == Some(text@));
            }
            Some(text)
        },
        None => None,
    }
}

/// What is printed for `lines`: each line is annotated in turn, and the lines that are
/// shown keep their order.
pub fn annotate_lines(
    table: &HistoryTable,
    colors: &LsColors,
    target: &TargetDir,
    color: bool,
    lines: &Vec<String>,
) -> (out: Vec<String>)
    ensures
        exists|seen: Seq<Observation>|
            {
                &&& seen.len() == lines.len()
                &&& forall|k: int|
                    0 <= k < lines.len() ==> observable_of(
                        target@,
                        color,
                        lines.deep_view()[k],
                        #[trigger] seen[k],
                    )
                &&& out.deep_view() == annotated_all(
                    table@,
                    target@,
                    color,
                    lines.deep_view(),
                    seen,
                )
            },
{
    let mut out: Vec<String> = Vec::new();
    let ghost mut seen: Seq<Observation> = Seq::empty();
    let mut i: usize = 0;
    while i < lines.len()
        invariant
            i <= lines.len(),
            seen.len() == i,
            forall|k: int|
                0 <= k < i ==> observable_of(
                    target@,
                    color,
                    lines.deep_view()[k],
                    #[trigger] seen[k],
                ),
            out.deep_view() == annotated_all(
                table@,
                target@,
                color,
                lines.deep_view().take(i as int),
                seen,
            ),
        decreases lines.len() - i,
    {
        let ghost read = lines.deep_view().take(i as int);
        let ghost next = lines.deep_view().take(i + 1);
        let ghost shown = out.deep_view();
        let ghost seen_before = seen;
        proof {
            assert(next.drop_last() =~= read);
            assert(next.last() == lines[i as int]@);
        }
        match annotate_line(table, colors, target, color, lines[i].as_str()) {
            Some(text) => {
                proof {
                    let here = choose|here: Observation|
                        {
                            &&& observable_of(target@, color, lines[i as int]@, here)
                            &&& #[trigger] annotated(
                                table@,
                                target@,
                                color,
                                lines[i as int]@,
                                here,
                            ) == Some(text@)
                        };
                    seen = seen.push(here);
                }
                out.push(text);
                proof {
                    assert(out.deep_view() =~= shown.push(text@));
                }
            },
            None => {
                proof {
                    seen = seen.push(Observation { on_disk: false, painted: Seq::empty() });
                }
            },
        }
        proof {
            assert(seen.drop_last() =~= seen_before);
        }
        i += 1;
    }
    proof {
        assert(lines.deep_view().take(i as int) =~= lines.deep_view());
    }
    out
}

/// The root as target directory is no target directory: every line is shown, and its
/// path is shown whole.
pub proof fn lemma_root_target_is_no_target(
    table: Map<Seq<char>, Seq<char>>,
    color: bool,
    line: Seq<char>,
    seen: Observation,
)
    ensures
        annotated(table, normalized(seq!['/']), color, line, seen) == annotated(
            table,
            Seq::empty(),
            color,
            line,
            seen,
        ),
        annotated(table, normalized(seq!['/']), color, line, seen) == Some(
            rendered(table, color, trimmed(line), trimmed(line), seen),
        ),
{
}

/// A path that is not on disk is shown in the warning colour, whatever the history
/// holds for it and whether colours are on or off.
pub proof fn lemma_missing_path_ignores_history(
    table: Map<Seq<char>, Seq<char>>,
    target: Seq<char>,
    color: bool,
    line: Seq<char>,
    painted: Seq<Seq<char>>,
)
    ensures
        annotated(table, target, color, line, (Observation { on_disk: false, painted }))
            == match displayed(target, trimmed(line)) {
            Some(display) => Some(missing_text(display)),
            None => None,
        },
{
}

/// Where every line is shown, as many lines are printed as were read, and the line
/// printed at each place is the one for the line read at that place.
pub proof fn lemma_order_is_kept(
    table: Map<Seq<char>, Seq<char>>,
    target: Seq<char>,
    color: bool,
    lines: Seq<Seq<char>>,
    seen: Seq<Observation>,
)
    requires
        seen.len() == lines.len(),
        forall|i: int|
            0 <= i < lines.len() ==> displayed(target, trimmed(#[trigger] lines[i])) is Some,
    ensures
        annotated_all(table, target, color, lines, seen).len() == lines.len(),
        forall|i: int|
            0 <= i < lines.len() ==> annotated(table, target, color, #[trigger] lines[i], seen[i])
                == Some(annotated_all(table, target, color, lines, seen)[i]),
    decreases lines.len(),
{
    if lines.len() > 0 {
        let earlier = lines.drop_last();
        assert forall|i: int| 0 <= i < earlier.len() implies displayed(
            target,
            trimmed(#[trigger] earlier[i]),
        ) is Some by {
            assert(earlier[i] == lines[i]);
        }
        lemma_order_is_kept(table, target, color, earlier, seen.drop_last());
        assert(lines.last() == lines[lines.len() - 1]);
        assert forall|i: int| 0 <= i < lines.len() implies annotated(
            table,
            target,
            color,
            #[trigger] lines[i],
            seen[i],
        ) == Some(annotated_all(table, target, color, lines, seen)[i]) by {
            if i < earlier.len() {
                assert(earlier[i] == lines[i]);
                assert(seen.drop_last()[i] == seen[i]);
            }
        }
    }
}

/// An empty history gives an empty table, and with it a path on disk is shown without a
/// cursor line.
pub proof fn lemma_empty_history_annotates_nothing(
    target: Seq<char>,
    color: bool,
    line: Seq<char>,
    seen: Observation,
)
    requires
        seen.on_disk,
    ensures
        table_of(Seq::empty()) == Map::<Seq<char>, Seq<char>>::empty(),
        annotated(table_of(Seq::empty()), target, color, line, seen) == match displayed(
            target,
            trimmed(line),
        ) {
            Some(display) => Some(
                if color {
                    joined(seen.painted)
                } else {
                    display
                },
            ),
            None => None,
        },
{
}

/// A line of the history is printed as it was written when its path comes in: with no
/// target directory and without colours, a path on disk is annotated to the very line
/// that last recorded it.
pub proof fn lemma_history_line_round_trips(
    lines: Seq<Seq<char>>,
    i: int,
    path: Seq<char>,
    linenum: Seq<char>,
    painted: Seq<Seq<char>>,
)
    requires
        0 <= i < lines.len(),
        lines[i] == path + seq!['\t'] + linenum,
        !path.contains('\t'),
        path.len() > 0 && !is_whitespace(path.first()) && !is_whitespace(path.last()),
        linenum.len() > 0 && !is_whitespace(linenum.last()),
        forall|j: int|
            i < j < lines.len() ==> match parsed_line(#[trigger] lines[j]) {
                Some((later, _)) => later != path,
                None => true,
            },
    ensures
        annotated(
            table_of(lines),
            Seq::empty(),
            false,
            path,
            (Observation { on_disk: true, painted }),
        ) == Some(lines[i]),
{
    lemma_parse_round_trip(path, linenum);
    lemma_last_write_wins(lines, i, path, linenum);
    lemma_trimmed_keeps_clean_text(path);
}

} // verus!
