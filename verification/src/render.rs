//! Text the commands show about changes: the per-field lines of `status`
//! and `diff`, the side-by-side rows shared by `compare` and merge
//! conflicts, and how an entry is named.
use vstd::prelude::*;

use crate::catalog::{display_title_of, CatalogEntry};
use crate::form::status_text;
use crate::model::{no_changes, ref_key, CatalogRef, Changes, WatchStatus};
use crate::order::{dedup_sorted, key_order, keys_view, sort_keys};
use crate::replay::{key_view, rows_distinct, rows_map, EntryKey, NetChanges};
use crate::text::{decimal, decimal_string, owned, push_decimal, push_signed_decimal, push_str, push_string, signed_decimal};

verus! {

broadcast use vstd::seq_lib::group_to_multiset_ensures;

/// The lower-case name a watch status is shown and stored under.
pub fn status_label(status: WatchStatus) -> (r: &'static str)
    ensures
        r@ == status_text(status),
{
    match status {
        WatchStatus::Dropped => "dropped",
        WatchStatus::Planning => "planning",
        WatchStatus::Watching => "watching",
        WatchStatus::Completed => "completed",
    }
}

/// Names of the four change fields, in display order.
pub open spec fn field_name(i: int) -> Seq<char> {
    if i == 0 {
        "status"@
    } else if i == 1 {
        "episode_progress"@
    } else if i == 2 {
        "score"@
    } else {
        "rewatch_count"@
    }
}

/// The rendered value of field `i` of `c`, if set.
pub open spec fn field_value(c: Changes, i: int) -> Option<Seq<char>> {
    if i == 0 {
        match c.status {
            Some(s) => Some(status_text(s)),
            None => None,
        }
    } else if i == 1 {
        match c.episode_progress {
            Some(v) => Some(decimal(v as nat)),
            None => None,
        }
    } else if i == 2 {
        match c.score {
            Some(v) => Some(decimal(v as nat)),
            None => None,
        }
    } else {
        match c.rewatch_count {
            Some(v) => Some(decimal(v as nat)),
            None => None,
        }
    }
}

/// Name of change field `i`.
pub fn field_name_str(i: usize) -> (r: &'static str)
    requires
        i < 4,
    ensures
        r@ == field_name(i as int),
{
    if i == 0 {
        "status"
    } else if i == 1 {
        "episode_progress"
    } else if i == 2 {
        "score"
    } else {
        "rewatch_count"
    }
}

/// The rendered value of field `i` of `c`, if set.
pub fn field_value_text(c: &Changes, i: usize) -> (r: Option<String>)
    requires
        i < 4,
    ensures
        r is Some == field_value(*c, i as int) is Some,
        r matches Some(t) ==> field_value(*c, i as int) == Some(t@),
{
    if i == 0 {
        match c.status {
            Some(s) => Some(owned(status_label(s))),
            None => None,
        }
    } else if i == 1 {
        match c.episode_progress {
            Some(v) => Some(decimal_string(v as u64)),
            None => None,
        }
    } else if i == 2 {
        match c.score {
            Some(v) => Some(decimal_string(v as u64)),
            None => None,
        }
    } else {
        match c.rewatch_count {
            Some(v) => Some(decimal_string(v as u64)),
            None => None,
        }
    }
}

/// `v`, or `(unset)` when absent.
pub open spec fn or_unset(v: Option<Seq<char>>) -> Seq<char> {
    match v {
        Some(t) => t,
        None => "(unset)"@,
    }
}

fn push_or_unset(s: &mut String, v: &Option<String>)
    ensures
        final(s)@ == old(s)@ + or_unset(match v {
            Some(t) => Some(t@),
            None => None,
        }),
{
    match v {
        Some(t) => push_string(s, t),
        None => push_str(s, "(unset)"),
    }
}

/// The view of an optional string.
pub open spec fn opt_view(v: Option<String>) -> Option<Seq<char>> {
    match v {
        Some(t) => Some(t@),
        None => None,
    }
}

/// One diff line for a field: nothing when both sides agree, else
/// `  name: from -> to` with `(unset)` standing for an absent side.
pub open spec fn field_line_text(name: Seq<char>, from: Option<Seq<char>>, to: Option<Seq<char>>) -> Option<Seq<char>> {
    if from == to {
        None
    } else {
        Some("  "@ + name + ": "@ + or_unset(from) + " -> "@ + or_unset(to))
    }
}

/// One diff line for a single field, or `None` if both sides agree.
pub fn field_line(name: &str, from: Option<String>, to: Option<String>) -> (r: Option<String>)
    ensures
        opt_view(r) == field_line_text(name@, opt_view(from), opt_view(to)),
{
    let same = match (&from, &to) {
        (Some(a), Some(b)) => *a == *b,
        (None, None) => true,
        _ => false,
    };
    if same {
        return None;
    }
    let mut s = owned("  ");
    push_str(&mut s, name);
    push_str(&mut s, ": ");
    push_or_unset(&mut s, &from);
    push_str(&mut s, " -> ");
    push_or_unset(&mut s, &to);
    proof {
        assert(s@ =~= "  "@ + name@ + ": "@ + or_unset(opt_view(from)) + " -> "@ + or_unset(opt_view(to)));
    }
    Some(s)
}

/// Lines `name: value` for fields `0..upto` that are set, in field order.
pub open spec fn set_field_lines(c: Changes, upto: int) -> Seq<Seq<char>>
    decreases upto,
{
    if upto <= 0 {
        Seq::empty()
    } else {
        let prev = set_field_lines(c, upto - 1);
        match field_value(c, upto - 1) {
            Some(v) => prev.push(field_name(upto - 1) + ": "@ + v),
            None => prev,
        }
    }
}

/// The views of a list of strings.
pub open spec fn lines_view(v: Seq<String>) -> Seq<Seq<char>> {
    v.map_values(|s: String| s@)
}

/// Human-readable `name: value` lines for the fields a delta sets, in field
/// order (status, episode_progress, score, rewatch_count).
pub fn changes_lines(changes: &Changes) -> (lines: Vec<String>)
    ensures
        lines_view(lines@) == set_field_lines(*changes, 4),
{
    let mut lines: Vec<String> = Vec::new();
    let mut i: usize = 0;
    while i < 4
        invariant
            i <= 4,
            lines_view(lines@) == set_field_lines(*changes, i as int),
        decreases 4 - i,
    {
        let ghost before = lines@;
        if let Some(v) = field_value_text(changes, i) {
            let mut s = owned(field_name_str(i));
            push_str(&mut s, ": ");
            push_string(&mut s, &v);
            lines.push(s);
            proof {
                assert(lines_view(lines@) =~= lines_view(before).push(s@));
            }
        }
        i = i + 1;
    }
    lines
}

/// Diff lines of fields `0..upto` that differ between the two deltas.
pub open spec fn differing_field_lines(from: Changes, to: Changes, upto: int) -> Seq<Seq<char>>
    decreases upto,
{
    if upto <= 0 {
        Seq::empty()
    } else {
        let prev = differing_field_lines(from, to, upto - 1);
        match field_line_text(field_name(upto - 1), field_value(from, upto - 1), field_value(to, upto - 1)) {
            Some(l) => prev.push(l),
            None => prev,
        }
    }
}

/// `source/id` of a catalog reference.
pub open spec fn ref_text(r: (Seq<char>, i64)) -> Seq<char> {
    r.0 + "/"@ + signed_decimal(r.1 as int)
}

fn push_ref(s: &mut String, source: &String, id: i64)
    ensures
        final(s)@ == old(s)@ + ref_text((source@, id)),
{
    push_string(s, source);
    push_str(s, "/");
    push_signed_decimal(s, id);
    proof {
        assert(final(s)@ =~= old(s)@ + ref_text((source@, id)));
    }
}

/// What `diff` prints for two deltas: when the entries differ an
/// `anime: a -> b` header, then one line per differing field; when nothing
/// differs at all, `No changes.`
pub open spec fn diff_text(from_ref: (Seq<char>, i64), from: Changes, to_ref: (Seq<char>, i64), to: Changes) -> Seq<Seq<char>> {
    let header: Seq<Seq<char>> = if from_ref != to_ref {
        seq!["anime: "@ + ref_text(from_ref) + " -> "@ + ref_text(to_ref)]
    } else {
        Seq::empty()
    };
    let fields = differing_field_lines(from, to, 4);
    if fields.len() == 0 && from_ref == to_ref {
        seq!["No changes."@]
    } else {
        header + fields
    }
}

/// The lines `diff` prints for a field-by-field comparison of two deltas.
pub fn diff_lines(from_ref: &CatalogRef, from: &Changes, to_ref: &CatalogRef, to: &Changes) -> (lines: Vec<String>)
    ensures
        lines_view(lines@) == diff_text(ref_key(*from_ref), *from, ref_key(*to_ref), *to),
{
    let same_ref = from_ref.same_as(to_ref);
    let mut lines: Vec<String> = Vec::new();
    if !same_ref {
        let mut h = owned("anime: ");
        push_ref(&mut h, &from_ref.source, from_ref.id);
        push_str(&mut h, " -> ");
        push_ref(&mut h, &to_ref.source, to_ref.id);
        lines.push(h);
        proof {
            assert(h@ =~= "anime: "@ + ref_text(ref_key(*from_ref)) + " -> "@ + ref_text(ref_key(*to_ref)));
        }
    }
    let ghost header = lines_view(lines@);
    let mut count: usize = 0;
    let mut i: usize = 0;
    while i < 4
        invariant
            i <= 4,
            count <= i,
            differing_field_lines(*from, *to, i as int).len() == count,
            lines_view(lines@) == header + differing_field_lines(*from, *to, i as int),
        decreases 4 - i,
    {
        let ghost before = lines@;
        let name = field_name_str(i);
        let a = field_value_text(from, i);
        let b = field_value_text(to, i);
        if let Some(l) = field_line(name, a, b) {
            lines.push(l);
            count = count + 1;
            proof {
                assert(lines_view(lines@) =~= lines_view(before).push(l@));
            }
        }
        i = i + 1;
    }
    if count == 0 && same_ref {
        let mut only: Vec<String> = Vec::new();
        only.push(owned("No changes."));
        proof {
            assert(lines_view(only@) =~= seq!["No changes."@]);
        }
        return only;
    }
    proof {
        if !same_ref {
            assert(header =~= seq!["anime: "@ + ref_text(ref_key(*from_ref)) + " -> "@ + ref_text(ref_key(*to_ref))]);
        } else {
            assert(header =~= Seq::<Seq<char>>::empty());
        }
    }
    lines
}

/// One side-by-side row for field `i`: nothing when both sides are unset,
/// else `    name: L=left R=right`, marked `  << differs` when they differ.
pub open spec fn comparison_row(left_label: Seq<char>, right_label: Seq<char>, left: Changes, right: Changes, i: int) -> Option<Seq<char>> {
    let lv = field_value(left, i);
    let rv = field_value(right, i);
    if lv is None && rv is None {
        None
    } else {
        Some("    "@ + field_name(i) + ": "@ + left_label + "="@ + or_unset(lv) + " "@ + right_label + "="@ + or_unset(rv)
            + (if lv != rv { "  << differs"@ } else { ""@ }))
    }
}

/// Comparison rows for fields `0..upto`.
pub open spec fn comparison_text(left_label: Seq<char>, right_label: Seq<char>, left: Changes, right: Changes, upto: int) -> Seq<Seq<char>>
    decreases upto,
{
    if upto <= 0 {
        Seq::empty()
    } else {
        let prev = comparison_text(left_label, right_label, left, right, upto - 1);
        match comparison_row(left_label, right_label, left, right, upto - 1) {
            Some(l) => prev.push(l),
            None => prev,
        }
    }
}

/// The side-by-side field rows shared by `compare` and merge conflicts.
pub fn comparison_lines(left_label: &str, right_label: &str, left: &Changes, right: &Changes) -> (lines: Vec<String>)
    ensures
        lines_view(lines@) == comparison_text(left_label@, right_label@, *left, *right, 4),
{
    let mut lines: Vec<String> = Vec::new();
    let mut i: usize = 0;
    while i < 4
        invariant
            i <= 4,
            lines_view(lines@) == comparison_text(left_label@, right_label@, *left, *right, i as int),
        decreases 4 - i,
    {
        let ghost before = lines@;
        let lv = field_value_text(left, i);
        let rv = field_value_text(right, i);
        if lv.is_some() || rv.is_some() {
            let differs = match (&lv, &rv) {
                (Some(a), Some(b)) => !(*a == *b),
                (None, None) => false,
                _ => true,
            };
            let mut s = owned("    ");
            push_str(&mut s, field_name_str(i));
            push_str(&mut s, ": ");
            push_str(&mut s, left_label);
            push_str(&mut s, "=");
            push_or_unset(&mut s, &lv);
            push_str(&mut s, " ");
            push_str(&mut s, right_label);
            push_str(&mut s, "=");
            push_or_unset(&mut s, &rv);
            if differs {
                push_str(&mut s, "  << differs");
            }
            lines.push(s);
            proof {
                let l = comparison_row(left_label@, right_label@, *left, *right, i as int);
                assert(l == Some(s@)) by {
                    reveal_strlit("");
                    assert(s@ =~= l->0);
                }
                assert(lines_view(lines@) =~= lines_view(before).push(s@));
            }
        }
        i = i + 1;
    }
    lines
}

/// How an entry is named in reports: `'Title' (source/id)` when the catalog
/// resolved it (anilist entries only), else the bare `source/id`.
pub open spec fn display_name_text(found: Option<CatalogEntry>, key: (Seq<char>, i64)) -> Seq<char> {
    match found {
        Some(e) => if key.0 == "anilist"@ {
            "'"@ + display_title_of(e) + "' ("@ + ref_text(key) + ")"@
        } else {
            ref_text(key)
        },
        None => ref_text(key),
    }
}

/// How an entry is named in reports, given what the catalog found for it.
pub fn display_name(found: Option<&CatalogEntry>, key: &EntryKey) -> (r: String)
    ensures
        r@ == display_name_text(match found {
            Some(e) => Some(*e),
            None => None,
        }, key_view(*key)),
{
    let anilist = owned("anilist");
    if let Some(e) = found {
        if key.0 == anilist {
            let mut s = owned("'");
            push_str(&mut s, e.display_title());
            push_str(&mut s, "' (");
            push_ref(&mut s, &key.0, key.1);
            push_str(&mut s, ")");
            proof {
                assert(s@ =~= "'"@ + display_title_of(*e) + "' ("@ + ref_text(key_view(*key)) + ")"@);
            }
            return s;
        }
    }
    let mut s = String::new();
    push_ref(&mut s, &key.0, key.1);
    proof {
        assert(s@ =~= ref_text(key_view(*key)));
    }
    s
}

/// The keys `compare` walks: every entry either side has state for, sorted
/// by source then id, each once.
pub fn compare_keys(mine: &NetChanges, theirs: &NetChanges) -> (keys: Vec<EntryKey>)
    ensures
        vstd::relations::sorted_by(keys_view(keys@), key_order()),
        keys_view(keys@).no_duplicates(),
        forall|k: (Seq<char>, i64)|
            keys_view(keys@).contains(k) <==> (rows_map_dom(mine@, k) || rows_map_dom(theirs@, k)),
{
    let mut all: Vec<EntryKey> = Vec::new();
    let mut i: usize = 0;
    while i < mine.len()
        invariant
            i <= mine@.len(),
            all@.len() == i,
            forall|m: int| 0 <= m < i ==> key_view(#[trigger] all@[m]) == key_view(mine@[m].0),
        decreases mine@.len() - i,
    {
        all.push((mine[i].0.0.clone(), mine[i].0.1));
        i = i + 1;
    }
    let mut j: usize = 0;
    while j < theirs.len()
        invariant
            i == mine@.len(),
            j <= theirs@.len(),
            all@.len() == i + j,
            forall|m: int| 0 <= m < i ==> key_view(#[trigger] all@[m]) == key_view(mine@[m].0),
            forall|m: int| 0 <= m < j ==> key_view(#[trigger] all@[i + m]) == key_view(theirs@[m].0),
        decreases theirs@.len() - j,
    {
        all.push((theirs[j].0.0.clone(), theirs[j].0.1));
        j = j + 1;
    }
    let ghost allseq = all@;
    let ghost allv = keys_view(all@);
    let sorted = sort_keys(all);
    let keys = dedup_sorted(sorted);
    proof {
        assert forall|k: (Seq<char>, i64)| keys_view(keys@).contains(k) <==> (rows_map_dom(mine@, k) || rows_map_dom(theirs@, k)) by {
            assert(keys_view(keys@).to_set().contains(k) == keys_view(keys@).contains(k));
            assert(keys_view(sorted@).to_multiset().count(k) == allv.to_multiset().count(k));
            assert(keys_view(sorted@).to_set().contains(k) == keys_view(sorted@).contains(k));
            if allv.contains(k) {
                let m = choose|m: int| 0 <= m < allv.len() && allv[m] == k;
                assert(allv[m] == key_view(allseq[m]));
                if m < i {
                    assert(key_view(mine@[m].0) == k);
                } else {
                    let m2 = m - i;
                    assert(allseq[i + m2] == allseq[m]);
                    assert(key_view(theirs@[m2].0) == k);
                    assert(rows_map_dom(theirs@, k));
                }
            }
            if rows_map_dom(mine@, k) {
                let m = choose|m: int| 0 <= m < mine@.len() && key_view(#[trigger] mine@[m].0) == k;
                assert(allv[m] == key_view(allseq[m]));
                assert(allv.contains(k));
            }
            if rows_map_dom(theirs@, k) {
                let m = choose|m: int| 0 <= m < theirs@.len() && key_view(#[trigger] theirs@[m].0) == k;
                assert(allv[i + m] == key_view(allseq[i + m]));
                assert(allv.contains(k));
            }
        }
    }
    keys
}

/// `k` is the key of some row.
pub open spec fn rows_map_dom(rows: Seq<(EntryKey, Changes)>, k: (Seq<char>, i64)) -> bool {
    exists|m: int| 0 <= m < rows.len() && key_view(#[trigger] rows[m].0) == k
}

/// What `compare` prints for one entry named `name`: identical, differing
/// (with the side-by-side rows), or present on one side only (compared
/// against an empty delta).
pub open spec fn compare_entry_text(name: Seq<char>, mine: Option<Changes>, theirs: Option<Changes>) -> Seq<Seq<char>> {
    match (mine, theirs) {
        (Some(m), Some(t)) => if m == t {
            seq!["= "@ + name + " — identical"@]
        } else {
            seq!["~ "@ + name] + comparison_text("yours"@, "theirs"@, m, t, 4)
        },
        (Some(m), None) => seq!["< "@ + name + " — only in yours"@] + comparison_text("yours"@, "theirs"@, m, no_changes(), 4),
        (None, Some(t)) => seq!["> "@ + name + " — only in theirs"@] + comparison_text("yours"@, "theirs"@, no_changes(), t, 4),
        (None, None) => Seq::empty(),
    }
}

/// The lines `compare` prints for one entry, given each side's state.
pub fn compare_entry_lines(name: &str, mine: Option<Changes>, theirs: Option<Changes>) -> (lines: Vec<String>)
    ensures
        lines_view(lines@) == compare_entry_text(name@, mine, theirs),
{
    let mut lines: Vec<String> = Vec::new();
    match (mine, theirs) {
        (Some(m), Some(t)) => {
            if m == t {
                let mut s = owned("= ");
                push_str(&mut s, name);
                push_str(&mut s, " — identical");
                lines.push(s);
                proof {
                    assert(lines_view(lines@) =~= seq!["= "@ + name@ + " — identical"@]);
                }
            } else {
                let mut s = owned("~ ");
                push_str(&mut s, name);
                lines.push(s);
                let mut rows = comparison_lines("yours", "theirs", &m, &t);
                let ghost head = lines@;
                lines.append(&mut rows);
                proof {
                    assert(lines_view(lines@) =~= lines_view(head) + comparison_text("yours"@, "theirs"@, m, t, 4));
                    assert(lines_view(head) =~= seq!["~ "@ + name@]);
                }
            }
        },
        (Some(m), None) => {
            let mut s = owned("< ");
            push_str(&mut s, name);
            push_str(&mut s, " — only in yours");
            lines.push(s);
            let empty = Changes::empty();
            let mut rows = comparison_lines("yours", "theirs", &m, &empty);
            let ghost head = lines@;
            lines.append(&mut rows);
            proof {
                assert(lines_view(lines@) =~= lines_view(head) + comparison_text("yours"@, "theirs"@, m, no_changes(), 4));
                assert(lines_view(head) =~= seq!["< "@ + name@ + " — only in yours"@]);
            }
        },
        (None, Some(t)) => {
            let mut s = owned("> ");
            push_str(&mut s, name);
            push_str(&mut s, " — only in theirs");
            lines.push(s);
            let empty = Changes::empty();
            let mut rows = comparison_lines("yours", "theirs", &empty, &t);
            let ghost head = lines@;
            lines.append(&mut rows);
            proof {
                assert(lines_view(lines@) =~= lines_view(head) + comparison_text("yours"@, "theirs"@, no_changes(), t, 4));
                assert(lines_view(head) =~= seq!["> "@ + name@ + " — only in theirs"@]);
            }
        },
        (None, None) => {
            proof {
                assert(lines_view(lines@) =~= Seq::<Seq<char>>::empty());
            }
        },
    }
    lines
}

/// Two deltas compare identical in `compare` exactly when no side-by-side
/// row is marked as differing.
pub proof fn law_identical_iff_no_differing_rows(m: Changes, t: Changes)
    ensures
        (m == t) <==> (forall|i: int| 0 <= i < 4 ==> field_value(m, i) == field_value(t, i)),
{
    if forall|i: int| 0 <= i < 4 ==> field_value(m, i) == field_value(t, i) {
        assert(field_value(m, 0) == field_value(t, 0));
        assert(field_value(m, 1) == field_value(t, 1));
        assert(field_value(m, 2) == field_value(t, 2));
        assert(field_value(m, 3) == field_value(t, 3));
        lemma_status_text_injective(m.status, t.status);
        lemma_decimal_injective_opt32(m.episode_progress, t.episode_progress);
        lemma_decimal_injective_opt8(m.score, t.score);
        lemma_decimal_injective_opt32(m.rewatch_count, t.rewatch_count);
    }
}

proof fn lemma_status_text_injective(a: Option<WatchStatus>, b: Option<WatchStatus>)
    requires
        match a {
            Some(s) => Some(status_text(s)),
            None => None,
        } == match b {
            Some(s) => Some(status_text(s)),
            None => None,
        },
    ensures
        a == b,
{
    if a is Some && b is Some {
        let x = a->0;
        let y = b->0;
        reveal_strlit("dropped");
        reveal_strlit("planning");
        reveal_strlit("watching");
        reveal_strlit("completed");
        if x != y {
            assert(status_text(x).len() != status_text(y).len() || status_text(x)[0] != status_text(y)[0]
                || status_text(x)[1] != status_text(y)[1]);
        }
    }
}

/// Distinct numbers render to distinct decimal text.
pub proof fn lemma_decimal_injective(a: nat, b: nat)
    requires
        decimal(a) == decimal(b),
    ensures
        a == b,
    decreases a + b,
{
    if a < 10 && b < 10 {
        assert(decimal(a) == seq![crate::text::digit_char(a)]);
        assert(decimal(b) == seq![crate::text::digit_char(b)]);
        assert(decimal(a)[0] == decimal(b)[0]);
        assert(seq![crate::text::digit_char(a)][0] == crate::text::digit_char(a));
        assert(seq![crate::text::digit_char(b)][0] == crate::text::digit_char(b));
        lemma_digit_injective(a, b);
    } else if a >= 10 && b >= 10 {
        assert(decimal(a).drop_last() == decimal(a / 10));
        assert(decimal(b).drop_last() == decimal(b / 10));
        assert(decimal(a) == decimal(a / 10).push(crate::text::digit_char(a % 10)));
        assert(decimal(b) == decimal(b / 10).push(crate::text::digit_char(b % 10)));
        assert(decimal(a).last() == decimal(b).last());
        assert(decimal(a / 10).push(crate::text::digit_char(a % 10)).last() == crate::text::digit_char(a % 10));
        assert(decimal(b / 10).push(crate::text::digit_char(b % 10)).last() == crate::text::digit_char(b % 10));
        lemma_digit_injective(a % 10, b % 10);
        lemma_decimal_injective(a / 10, b / 10);
    } else {
        lemma_decimal_len(a);
        lemma_decimal_len(b);
    }
}

proof fn lemma_digit_injective(a: nat, b: nat)
    requires
        a < 10,
        b < 10,
        crate::text::digit_char(a) == crate::text::digit_char(b),
    ensures
        a == b,
{
}

/// Decimal text has one digit for numbers below ten and more otherwise.
pub proof fn lemma_decimal_len(n: nat)
    ensures
        n < 10 ==> decimal(n).len() == 1,
        n >= 10 ==> decimal(n).len() >= 2,
    decreases n,
{
    if n >= 10 {
        lemma_decimal_len(n / 10);
    }
}

proof fn lemma_decimal_injective_opt32(a: Option<u32>, b: Option<u32>)
    requires
        match a {
            Some(v) => Some(decimal(v as nat)),
            None => None,
        } == match b {
            Some(v) => Some(decimal(v as nat)),
            None => None,
        },
    ensures
        a == b,
{
    if a is Some && b is Some {
        lemma_decimal_injective(a->0 as nat, b->0 as nat);
    }
}

proof fn lemma_decimal_injective_opt8(a: Option<u8>, b: Option<u8>)
    requires
        match a {
            Some(v) => Some(decimal(v as nat)),
            None => None,
        } == match b {
            Some(v) => Some(decimal(v as nat)),
            None => None,
        },
    ensures
        a == b,
{
    if a is Some && b is Some {
        lemma_decimal_injective(a->0 as nat, b->0 as nat);
    }
}

/// `s` ends with `suffix`.
pub open spec fn has_suffix(s: Seq<char>, suffix: Seq<char>) -> bool {
    s.len() >= suffix.len() && s.subrange(s.len() - suffix.len(), s.len() as int) == suffix
}

/// How many of fields `0..n` are set in `c`.
pub open spec fn set_count(c: Changes, n: int) -> int
    decreases n,
{
    if n <= 0 {
        0
    } else {
        set_count(c, n - 1) + if field_value(c, n - 1) is Some { 1int } else { 0int }
    }
}

proof fn lemma_suffix_rows_mine(m: Changes, n: int)
    requires
        0 <= n <= 4,
    ensures
        comparison_text("yours"@, "theirs"@, m, no_changes(), n).len() == set_count(m, n),
        forall|j: int| 0 <= j < comparison_text("yours"@, "theirs"@, m, no_changes(), n).len() ==> has_suffix(
            #[trigger] comparison_text("yours"@, "theirs"@, m, no_changes(), n)[j],
            " theirs=(unset)  << differs"@,
        ),
    decreases n,
{
    if n > 0 {
        lemma_suffix_rows_mine(m, n - 1);
        let i = n - 1;
        let prev = comparison_text("yours"@, "theirs"@, m, no_changes(), i);
        let cur = comparison_text("yours"@, "theirs"@, m, no_changes(), n);
        assert(field_value(no_changes(), i) is None);
        if field_value(m, i) is Some {
            let v = field_value(m, i)->0;
            reveal_strlit(" ");
            reveal_strlit("theirs");
            reveal_strlit("=");
            reveal_strlit("(unset)");
            reveal_strlit("  << differs");
            reveal_strlit(" theirs=(unset)  << differs");
            let suf = " "@ + "theirs"@ + "="@ + "(unset)"@ + "  << differs"@;
            assert(suf =~= " theirs=(unset)  << differs"@);
            let p = "    "@ + field_name(i) + ": "@ + "yours"@ + "="@ + v;
            let row = comparison_row("yours"@, "theirs"@, m, no_changes(), i)->0;
            assert(row =~= p + suf);
            assert(row.subrange(row.len() - suf.len(), row.len() as int) =~= suf);
            assert(cur == prev.push(row));
            assert forall|j: int| 0 <= j < cur.len() implies has_suffix(#[trigger] cur[j], " theirs=(unset)  << differs"@) by {
                if j < prev.len() {
                    assert(cur[j] == prev[j]);
                }
            }
        } else {
            assert(cur == prev);
        }
    }
}

proof fn lemma_suffix_rows_theirs(m: Changes, n: int)
    requires
        0 <= n <= 4,
    ensures
        comparison_text("yours"@, "theirs"@, no_changes(), m, n).len() == set_count(m, n),
        forall|j: int| 0 <= j < comparison_text("yours"@, "theirs"@, no_changes(), m, n).len() ==> has_suffix(
            #[trigger] comparison_text("yours"@, "theirs"@, no_changes(), m, n)[j],
            "  << differs"@,
        ),
    decreases n,
{
    if n > 0 {
        lemma_suffix_rows_theirs(m, n - 1);
        let i = n - 1;
        let prev = comparison_text("yours"@, "theirs"@, no_changes(), m, i);
        let cur = comparison_text("yours"@, "theirs"@, no_changes(), m, n);
        assert(field_value(no_changes(), i) is None);
        if field_value(m, i) is Some {
            let v = field_value(m, i)->0;
            let d = "  << differs"@;
            let p = "    "@ + field_name(i) + ": "@ + "yours"@ + "="@ + "(unset)"@ + " "@ + "theirs"@ + "="@ + v;
            let row = comparison_row("yours"@, "theirs"@, no_changes(), m, i)->0;
            assert(row =~= p + d);
            assert(row.subrange(row.len() - d.len(), row.len() as int) =~= d);
            assert(cur == prev.push(row));
            assert forall|j: int| 0 <= j < cur.len() implies has_suffix(#[trigger] cur[j], "  << differs"@) by {
                if j < prev.len() {
                    assert(cur[j] == prev[j]);
                }
            }
        } else {
            assert(cur == prev);
        }
    }
}

/// An entry only in yours is listed as such, with one row for each field
/// you set, and every row shows theirs as unset and marked as differing.
/// An entry only in theirs likewise has one row per field they set, each
/// marked as differing.
pub proof fn law_compare_one_sided(name: Seq<char>, m: Changes)
    ensures
        compare_entry_text(name, Some(m), None).len() == 1 + set_count(m, 4),
        compare_entry_text(name, Some(m), None)[0] == "< "@ + name + " — only in yours"@,
        forall|j: int| 1 <= j < compare_entry_text(name, Some(m), None).len() ==> has_suffix(
            #[trigger] compare_entry_text(name, Some(m), None)[j],
            " theirs=(unset)  << differs"@,
        ),
        compare_entry_text(name, None, Some(m)).len() == 1 + set_count(m, 4),
        compare_entry_text(name, None, Some(m))[0] == "> "@ + name + " — only in theirs"@,
        forall|j: int| 1 <= j < compare_entry_text(name, None, Some(m)).len() ==> has_suffix(
            #[trigger] compare_entry_text(name, None, Some(m))[j],
            "  << differs"@,
        ),
{
    lemma_suffix_rows_mine(m, 4);
    lemma_suffix_rows_theirs(m, 4);
    let mine = compare_entry_text(name, Some(m), None);
    let ct = comparison_text("yours"@, "theirs"@, m, no_changes(), 4);
    assert forall|j: int| 1 <= j < mine.len() implies has_suffix(#[trigger] mine[j], " theirs=(unset)  << differs"@) by {
        assert(mine[j] == ct[j - 1]);
    }
    let theirs = compare_entry_text(name, None, Some(m));
    let ct2 = comparison_text("yours"@, "theirs"@, no_changes(), m, 4);
    assert forall|j: int| 1 <= j < theirs.len() implies has_suffix(#[trigger] theirs[j], "  << differs"@) by {
        assert(theirs[j] == ct2[j - 1]);
    }
}

} // verus!
