//! The text of `anigit log` and `anigit reflog`: one block per commit,
//! newest first, and one line per branch-ref move, newest first.
use vstd::prelude::*;

use crate::model::Commit;
use crate::render::lines_view;
use crate::repo::{short_id, ReflogEntry};
use crate::text::{decimal, owned, push_decimal, push_str, push_string};

verus! {

/// The first characters of an id shown in listings: at most eleven.
pub open spec fn short_text(id: Seq<char>) -> Seq<char> {
    id.take(if id.len() < 11 { id.len() as int } else { 11 })
}

/// A commit with two or more parents is a merge.
pub open spec fn is_merge(c: Commit) -> bool {
    c.parent_ids@.len() >= 2
}

/// The lines `anigit log` prints for one commit. `oneline` gives the short
/// id and message; otherwise the full id, date and indented message. With
/// `graph`, each commit is marked `* `, a merge opens a `|\` branch line,
/// and the full form's other lines run along a `| ` rail.
pub open spec fn log_text(c: Commit, oneline: bool, graph: bool) -> Seq<Seq<char>> {
    let star = if graph { "* "@ } else { ""@ };
    let fork = if graph && is_merge(c) { seq!["|\\"@] } else { Seq::empty() };
    if oneline {
        seq![star + short_text(c.id@) + " "@ + c.message@] + fork
    } else {
        let rail = if graph { "| "@ } else { ""@ };
        seq![star + "commit "@ + c.id@ + (if is_merge(c) { " (merge)"@ } else { ""@ })] + fork + seq![
            rail + "Date:   "@ + c.timestamp@,
            rail,
            rail + "    "@ + c.message@,
            rail,
        ]
    }
}

/// Render the lines `anigit log` prints for `c`.
pub fn log_lines(c: &Commit, oneline: bool, graph: bool) -> (lines: Vec<String>)
    ensures
        lines_view(lines@) == log_text(*c, oneline, graph),
{
    proof {
        reveal_strlit("* ");
        reveal_strlit("");
        reveal_strlit("|\\");
        reveal_strlit(" ");
        reveal_strlit("| ");
        reveal_strlit("commit ");
        reveal_strlit(" (merge)");
        reveal_strlit("Date:   ");
        reveal_strlit("    ");
    }
    let merge = c.parent_ids.len() >= 2;
    let star = if graph { "* " } else { "" };
    let mut lines: Vec<String> = Vec::new();
    let mut first = owned(star);
    if oneline {
        let short = short_id(c.id.as_str());
        push_string(&mut first, &short);
        push_str(&mut first, " ");
        push_string(&mut first, &c.message);
    } else {
        push_str(&mut first, "commit ");
        push_string(&mut first, &c.id);
        if merge {
            push_str(&mut first, " (merge)");
        }
    }
    lines.push(first);
    if graph && merge {
        lines.push(owned("|\\"));
    }
    if !oneline {
        let rail = if graph { "| " } else { "" };
        let mut date = owned(rail);
        push_str(&mut date, "Date:   ");
        push_string(&mut date, &c.timestamp);
        lines.push(date);
        lines.push(owned(rail));
        let mut msg = owned(rail);
        push_str(&mut msg, "    ");
        push_string(&mut msg, &c.message);
        lines.push(msg);
        lines.push(owned(rail));
    }
    proof {
        assert(lines_view(lines@) =~= log_text(*c, oneline, graph));
    }
    lines
}

/// How a commit's parents shape its log block: a commit with fewer than two
/// parents is shown plainly, `commit <id>` with no merge mark and no branch
/// line, in one line (`oneline`) or five; a commit with two or more is
/// marked ` (merge)` and, with `graph`, gets the `|\` branch line right
/// after its first line.
pub proof fn law_log_marks_only_merges(c: Commit, oneline: bool, graph: bool)
    ensures
        ({
            let lines = log_text(c, oneline, graph);
            let star = if graph { "* "@ } else { ""@ };
            &&& c.parent_ids@.len() < 2 ==> lines.len() == (if oneline { 1int } else { 5int })
            &&& c.parent_ids@.len() < 2 && !oneline ==> lines[0] == star + "commit "@ + c.id@
            &&& c.parent_ids@.len() >= 2 ==> lines.len() == (if oneline { 1int } else { 5int }) + (if graph { 1int } else { 0int })
            &&& c.parent_ids@.len() >= 2 && !oneline ==> lines[0] == star + "commit "@ + c.id@ + " (merge)"@
            &&& c.parent_ids@.len() >= 2 && graph ==> lines[1] == "|\\"@
        }),
{
    reveal_strlit("");
    assert(("* "@ + "commit "@ + c.id@ + ""@) =~= ("* "@ + "commit "@ + c.id@));
    assert((""@ + "commit "@ + c.id@ + ""@) =~= (""@ + "commit "@ + c.id@));
}

/// One reflog line: the new head's short id, the branch with the move's
/// index (`0` is the newest), why it moved, what it pointed at before, and
/// when.
pub open spec fn reflog_text(e: ReflogEntry, index: nat) -> Seq<char> {
    let was = match e.old_id {
        Some(old) => "was "@ + short_text(old@),
        None => "first commit on branch"@,
    };
    short_text(e.new_id@) + " "@ + e.branch@ + "@{"@ + decimal(index) + "}: "@ + e.reason@ + ": "@ + was + "  ("@
        + e.timestamp@ + ")"@
}

/// Render reflog line number `index` (counting from the newest move).
pub fn reflog_line(e: &ReflogEntry, index: u64) -> (r: String)
    ensures
        r@ == reflog_text(*e, index as nat),
{
    proof {
        reveal_strlit(" ");
        reveal_strlit("@{");
        reveal_strlit("}: ");
        reveal_strlit(": ");
        reveal_strlit("was ");
        reveal_strlit("first commit on branch");
        reveal_strlit("  (");
        reveal_strlit(")");
    }
    let mut s = short_id(e.new_id.as_str());
    push_str(&mut s, " ");
    push_string(&mut s, &e.branch);
    push_str(&mut s, "@{");
    push_decimal(&mut s, index);
    push_str(&mut s, "}: ");
    push_string(&mut s, &e.reason);
    push_str(&mut s, ": ");
    match &e.old_id {
        Some(old) => {
            push_str(&mut s, "was ");
            let short = short_id(old.as_str());
            push_string(&mut s, &short);
        },
        None => {
            push_str(&mut s, "first commit on branch");
        },
    }
    push_str(&mut s, "  (");
    push_string(&mut s, &e.timestamp);
    push_str(&mut s, ")");
    s
}

} // verus!
