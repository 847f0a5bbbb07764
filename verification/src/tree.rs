//! The generated folder-tree view of current watch state: one folder per
//! status, one folder per anime inside it, a `Season 1` folder holding one
//! plain-text leaf file per episode progressed through. This module plans
//! the tree (names and contents); writing it to disk happens outside.
use vstd::prelude::*;

use crate::catalog::{display_title_of, CatalogEntry};
use crate::form::status_text;
use crate::model::{Changes, WatchStatus};
use crate::render::{ref_text, status_label};
use crate::order::keys_view;
use crate::replay::{key_view, lookup, rows_distinct, rows_map, EntryKey, NetChanges};
use crate::text::{
    chars_of, decimal, owned, push_decimal, push_signed_decimal, push_str, push_string,
    is_whitespace, signed_decimal, spec_is_control, spec_is_whitespace, string_from_range,
    trim_start_ws,
};

verus! {

/// The four top-level status folders, in the order they are handled.
pub open spec fn tree_status(i: int) -> WatchStatus {
    if i == 0 {
        WatchStatus::Watching
    } else if i == 1 {
        WatchStatus::Completed
    } else if i == 2 {
        WatchStatus::Dropped
    } else {
        WatchStatus::Planning
    }
}

/// The four top-level status folders: watching, completed, dropped, planning.
pub fn tree_statuses() -> (v: Vec<WatchStatus>)
    ensures
        v@.len() == 4,
        forall|i: int| 0 <= i < 4 ==> v@[i] == tree_status(i),
{
    vec![WatchStatus::Watching, WatchStatus::Completed, WatchStatus::Dropped, WatchStatus::Planning]
}

/// Name of the warning file in every generated status folder.
pub const README_NAME: &'static str = "README";

/// Text of the warning file in every generated status folder.
pub const README_TEXT: &'static str = "ANIGIT GENERATED VIEW — DO NOT EDIT ANYTHING IN THESE FOLDERS.\n\nThe watching/, completed/, dropped/, and planning/ folders are a read-only\nVIEW that anigit generates from your commit history (.anigit/objects/).\nThey are fully DELETED AND REBUILT after every `anigit commit` — any manual\nchange here will be silently wiped on your next commit.\n\nThe append-only event log inside .anigit/ is the only source of truth.\nTo change what you see here, use `anigit add` + `anigit commit`.\n";

/// Name of the single season folder under each anime folder.
pub const SEASON_DIR: &'static str = "Season 1";

/// Characters that cannot stand in a folder name on some platform.
pub open spec fn is_risky(c: char) -> bool {
    c == '/' || c == '\\' || c == ':' || c == '*' || c == '?' || c == '"' || c == '<' || c
        == '>' || c == '|' || spec_is_control(c)
}

/// A character made safe for a folder name: risky ones become `-`.
pub open spec fn safe_char(c: char) -> char {
    if is_risky(c) {
        '-'
    } else {
        c
    }
}

/// A character that may not end a folder name: a dot, or any whitespace
/// (Windows rejects trailing dots and spaces).
pub open spec fn is_end_junk(c: char) -> bool {
    c == '.' || spec_is_whitespace(c)
}

/// `s` without its trailing run of dots and whitespace.
pub open spec fn trim_end_junk(s: Seq<char>) -> Seq<char>
    decreases s.len(),
{
    if s.len() > 0 && is_end_junk(s.last()) {
        trim_end_junk(s.drop_last())
    } else {
        s
    }
}

/// A title made safe as a single folder-name component: risky and control
/// characters become `-`, then trailing dots and whitespace go until none
/// is left, then leading whitespace; nothing left gives `untitled`.
pub open spec fn sanitized(name: Seq<char>) -> Seq<char> {
    let t = trim_start_ws(trim_end_junk(name.map_values(|c: char| safe_char(c))));
    if t.len() == 0 {
        "untitled"@
    } else {
        t
    }
}

/// The shape every sanitized name has: not empty, no risky character, no
/// leading whitespace, and no trailing dot or whitespace.
pub open spec fn folder_safe(s: Seq<char>) -> bool {
    &&& s.len() > 0
    &&& forall|i: int| 0 <= i < s.len() ==> !is_risky(#[trigger] s[i])
    &&& !spec_is_whitespace(s[0])
    &&& !is_end_junk(s.last())
}

fn safe(c: char) -> (r: char)
    ensures
        r == safe_char(c),
{
    if c == '/' || c == '\\' || c == ':' || c == '*' || c == '?' || c == '"' || c == '<' || c
        == '>' || c == '|' || crate::text::is_control(c) {
        '-'
    } else {
        c
    }
}

proof fn lemma_trim_start_suffix(s: Seq<char>)
    ensures
        exists|k: int| 0 <= k <= s.len() && trim_start_ws(s) == s.subrange(k, s.len() as int),
    decreases s.len(),
{
    if s.len() > 0 && spec_is_whitespace(s[0]) {
        lemma_trim_start_suffix(s.drop_first());
        let k = choose|k: int| 0 <= k <= s.drop_first().len() && trim_start_ws(s.drop_first()) == s.drop_first().subrange(k, s.drop_first().len() as int);
        assert(s.drop_first().subrange(k, s.drop_first().len() as int) =~= s.subrange(k + 1, s.len() as int));
    } else {
        assert(s.subrange(0, s.len() as int) =~= s);
    }
}

proof fn lemma_trim_start_ends(s: Seq<char>)
    ensures
        trim_start_ws(s).len() > 0 ==> !spec_is_whitespace(trim_start_ws(s)[0]),
    decreases s.len(),
{
    if s.len() > 0 && spec_is_whitespace(s[0]) {
        lemma_trim_start_ends(s.drop_first());
    }
}

proof fn lemma_trim_end_junk_prefix(s: Seq<char>)
    ensures
        trim_end_junk(s).len() <= s.len(),
        trim_end_junk(s) == s.subrange(0, trim_end_junk(s).len() as int),
        trim_end_junk(s).len() > 0 ==> !is_end_junk(trim_end_junk(s).last()),
    decreases s.len(),
{
    if s.len() > 0 && is_end_junk(s.last()) {
        lemma_trim_end_junk_prefix(s.drop_last());
        let t = trim_end_junk(s.drop_last());
        assert(s.drop_last().subrange(0, t.len() as int) =~= s.subrange(0, t.len() as int));
    } else {
        assert(s.subrange(0, s.len() as int) =~= s);
    }
}

proof fn lemma_sanitized_folder_safe(name: Seq<char>)
    ensures
        folder_safe(sanitized(name)),
{
    let m = name.map_values(|c: char| safe_char(c));
    let e = trim_end_junk(m);
    let t = trim_start_ws(e);
    lemma_trim_end_junk_prefix(m);
    lemma_trim_start_suffix(e);
    lemma_trim_start_ends(e);
    if t.len() == 0 {
        reveal_strlit("untitled");
        let u = "untitled"@;
        assert forall|i: int| 0 <= i < u.len() implies !is_risky(#[trigger] u[i]) by {
            reveal_strlit("untitled");
        }
    } else {
        let k = choose|k: int| 0 <= k <= e.len() && t == e.subrange(k, e.len() as int);
        assert(t.last() == e.last());
        assert forall|i: int| 0 <= i < t.len() implies !is_risky(#[trigger] t[i]) by {
            assert(t[i] == e[k + i]);
            assert(e[k + i] == m[k + i]);
        }
    }
}

proof fn lemma_folder_safe_fixed(s: Seq<char>)
    requires
        folder_safe(s),
    ensures
        sanitized(s) == s,
{
    let m = s.map_values(|c: char| safe_char(c));
    assert(m =~= s) by {
        assert forall|i: int| 0 <= i < s.len() implies m[i] == s[i] by {
            assert(!is_risky(s[i]));
        }
    }
    assert(trim_end_junk(s) == s);
    assert(trim_start_ws(s) == s);
}

/// Sanitizing is idempotent: a sanitized name is its own sanitized form,
/// so a folder name never changes when it is run through the rule again.
pub proof fn lemma_sanitize_idempotent(name: Seq<char>)
    ensures
        sanitized(sanitized(name)) == sanitized(name),
        folder_safe(sanitized(name)),
{
    lemma_sanitized_folder_safe(name);
    lemma_folder_safe_fixed(sanitized(name));
}

/// Make a title safe as a single folder-name component, cross-platform.
pub fn sanitize_component(name: &str) -> (r: String)
    ensures
        r@ == sanitized(name@),
        folder_safe(r@),
        r@.last() != '.' && r@.last() != ' ',
        sanitized(r@) == r@,
{
    let cs = chars_of(name);
    let mut mapped: Vec<char> = Vec::new();
    let mut i: usize = 0;
    while i < cs.len()
        invariant
            i <= cs@.len(),
            mapped@ == cs@.subrange(0, i as int).map_values(|c: char| safe_char(c)),
        decreases cs@.len() - i,
    {
        mapped.push(safe(cs[i]));
        proof {
            assert(cs@.subrange(0, i + 1).map_values(|c: char| safe_char(c)) =~= cs@.subrange(0, i as int).map_values(|c: char| safe_char(c)).push(safe_char(cs@[i as int])));
        }
        i = i + 1;
    }
    proof {
        assert(cs@.subrange(0, cs@.len() as int) =~= cs@);
        assert(mapped@.subrange(0, mapped@.len() as int) =~= mapped@);
    }
    let mut e: usize = mapped.len();
    while e > 0 && (mapped[e - 1] == '.' || is_whitespace(mapped[e - 1]))
        invariant
            e <= mapped@.len(),
            trim_end_junk(mapped@) == trim_end_junk(mapped@.subrange(0, e as int)),
        decreases e,
    {
        proof {
            let t = mapped@.subrange(0, e as int);
            assert(t.drop_last() =~= mapped@.subrange(0, e - 1));
            assert(t.last() == mapped@[e - 1]);
        }
        e = e - 1;
    }
    proof {
        let t = mapped@.subrange(0, e as int);
        if e > 0 {
            assert(t.last() == mapped@[e - 1]);
        }
        assert(trim_end_junk(t) == t);
    }
    let mut a: usize = 0;
    while a < e && is_whitespace(mapped[a])
        invariant
            a <= e <= mapped@.len(),
            trim_start_ws(mapped@.subrange(0, e as int)) == trim_start_ws(mapped@.subrange(a as int, e as int)),
        decreases e - a,
    {
        proof {
            let t = mapped@.subrange(a as int, e as int);
            assert(t.drop_first() =~= mapped@.subrange(a + 1, e as int));
        }
        a = a + 1;
    }
    proof {
        let t = mapped@.subrange(a as int, e as int);
        if a < e {
            assert(t[0] == mapped@[a as int]);
        }
        assert(trim_start_ws(t) == t);
        lemma_sanitize_idempotent(name@);
    }
    if a == e {
        proof {
            assert(mapped@.subrange(a as int, e as int).len() == 0);
        }
        return owned("untitled");
    }
    string_from_range(&mapped, a, e)
}

/// Content of leaf file `episode` for an anime.
pub open spec fn leaf_text(title: Seq<char>, episode: nat, total: Option<u32>, key: (Seq<char>, i64)) -> Seq<char> {
    "# auto-generated by anigit — do not edit; deleted and rebuilt on every commit\nanime: "@ + title
        + "\nepisode: "@ + decimal(episode) + (match total {
        Some(t) => " of "@ + decimal(t as nat),
        None => Seq::empty(),
    }) + "\ncatalog: "@ + ref_text(key) + "\n"@
}

/// Content of one leaf file: a do-not-edit header, the anime, the episode
/// (with the total when known), and the catalog reference.
pub fn leaf_content(title: &str, episode: u32, total: Option<u32>, key: &EntryKey) -> (r: String)
    ensures
        r@ == leaf_text(title@, episode as nat, total, key_view(*key)),
{
    let mut s = owned("# auto-generated by anigit — do not edit; deleted and rebuilt on every commit\nanime: ");
    push_str(&mut s, title);
    push_str(&mut s, "\nepisode: ");
    push_decimal(&mut s, episode as u64);
    let ghost mid = s@;
    match total {
        Some(t) => {
            push_str(&mut s, " of ");
            push_decimal(&mut s, t as u64);
        },
        None => {},
    }
    push_str(&mut s, "\ncatalog: ");
    push_string(&mut s, &key.0);
    push_str(&mut s, "/");
    push_signed_decimal(&mut s, key.1);
    push_str(&mut s, "\n");
    proof {
        assert(s@ =~= leaf_text(title@, episode as nat, total, key_view(*key)));
    }
    s
}

/// One anime folder the view holds: its status folder, its own folder name,
/// and the contents of leaf files `1..=n` in order.
pub struct PlannedEntry {
    pub label: String,
    pub folder: String,
    pub leaves: Vec<String>,
}

/// The title an entry's folder is named after: the catalog's display title
/// when the catalog resolved it, else `source-id`.
pub open spec fn tree_title(found: Option<CatalogEntry>, key: (Seq<char>, i64)) -> Seq<char> {
    match found {
        Some(e) => display_title_of(e),
        None => key.0 + "-"@ + signed_decimal(key.1 as int),
    }
}

/// A folder name with the disambiguating suffix for its anilist id.
pub open spec fn suffixed(folder: Seq<char>, id: i64) -> Seq<char> {
    folder + " (anilist-"@ + signed_decimal(id as int) + ")"@
}

/// The longest anime-folder name among `used`.
pub open spec fn max_folder_len(used: Seq<(Seq<char>, Seq<char>)>) -> nat
    decreases used.len(),
{
    if used.len() == 0 {
        0
    } else {
        let rest = max_folder_len(used.drop_last());
        if used.last().1.len() >= rest {
            used.last().1.len()
        } else {
            rest
        }
    }
}

/// How far `folder` is from outgrowing every name in `used`.
pub open spec fn folder_room(used: Seq<(Seq<char>, Seq<char>)>, folder: Seq<char>) -> nat {
    if folder.len() <= max_folder_len(used) {
        (max_folder_len(used) + 1 - folder.len()) as nat
    } else {
        0
    }
}

/// The anilist-id suffix always makes a name longer.
pub proof fn lemma_suffixed_longer(folder: Seq<char>, id: i64)
    ensures
        suffixed(folder, id).len() > folder.len(),
{
    reveal_strlit(")");
}

/// A name planned in `used` is no longer than the longest one there.
pub proof fn lemma_contained_len(used: Seq<(Seq<char>, Seq<char>)>, label: Seq<char>, folder: Seq<char>)
    requires
        used.contains((label, folder)),
    ensures
        folder.len() <= max_folder_len(used),
    decreases used.len(),
{
    let i = choose|i: int| 0 <= i < used.len() && used[i] == (label, folder);
    if i < used.len() - 1 {
        assert(used.drop_last()[i] == (label, folder));
        lemma_contained_len(used.drop_last(), label, folder);
    }
}

/// `folder` under status folder `label`, suffixed with the anilist id as
/// many times as it takes for the pair not to be in `used` yet.
pub open spec fn free_folder(
    used: Seq<(Seq<char>, Seq<char>)>,
    label: Seq<char>,
    folder: Seq<char>,
    id: i64,
) -> Seq<char>
    decreases folder_room(used, folder),
{
    if used.contains((label, folder)) {
        proof {
            lemma_contained_len(used, label, folder);
            lemma_suffixed_longer(folder, id);
        }
        free_folder(used, label, suffixed(folder, id), id)
    } else {
        folder
    }
}

proof fn lemma_free_folder_is_free(
    used: Seq<(Seq<char>, Seq<char>)>,
    label: Seq<char>,
    folder: Seq<char>,
    id: i64,
)
    ensures
        !used.contains((label, free_folder(used, label, folder, id))),
    decreases folder_room(used, folder),
{
    if used.contains((label, folder)) {
        lemma_contained_len(used, label, folder);
        lemma_suffixed_longer(folder, id);
        lemma_free_folder_is_free(used, label, suffixed(folder, id), id);
    }
}

/// The `(status folder, anime folder)` pairs planned for keys `0..n`: keys
/// without state or without a status are skipped; a folder name already
/// planned under the same status folder gets the anilist-id suffix, again
/// and again until the name is free.
pub open spec fn planned_names(
    keys: Seq<(Seq<char>, i64)>,
    state: Map<(Seq<char>, i64), Changes>,
    found: Seq<Option<CatalogEntry>>,
    n: int,
) -> Seq<(Seq<char>, Seq<char>)>
    decreases n,
{
    if n <= 0 {
        Seq::empty()
    } else {
        let prev = planned_names(keys, state, found, n - 1);
        let k = keys[n - 1];
        if state.contains_key(k) && state[k].status is Some {
            let label = status_text(state[k].status->0);
            let base = sanitized(tree_title(found[n - 1], k));
            prev.push((label, free_folder(prev, label, base, k.1)))
        } else {
            prev
        }
    }
}

/// Two planned anime folders never share both their status folder and
/// their name: titles that sanitize alike never merge into one folder.
pub proof fn lemma_planned_names_distinct(
    keys: Seq<(Seq<char>, i64)>,
    state: Map<(Seq<char>, i64), Changes>,
    found: Seq<Option<CatalogEntry>>,
    n: int,
)
    ensures
        planned_names(keys, state, found, n).no_duplicates(),
    decreases n,
{
    if n > 0 {
        lemma_planned_names_distinct(keys, state, found, n - 1);
        let prev = planned_names(keys, state, found, n - 1);
        let k = keys[n - 1];
        if state.contains_key(k) && state[k].status is Some {
            let label = status_text(state[k].status->0);
            let base = sanitized(tree_title(found[n - 1], k));
            let x = (label, free_folder(prev, label, base, k.1));
            lemma_free_folder_is_free(prev, label, base, k.1);
            let s = prev.push(x);
            assert forall|i: int, j: int| 0 <= i < s.len() && 0 <= j < s.len() && i != j implies s[i] != s[j] by {
                if j == prev.len() {
                    assert(prev[i] == s[i]);
                } else if i == prev.len() {
                    assert(prev[j] == s[j]);
                }
            }
        }
    }
}

/// Positions among keys `0..n` of the keys that get a folder, in order.
pub open spec fn planned_sources(
    keys: Seq<(Seq<char>, i64)>,
    state: Map<(Seq<char>, i64), Changes>,
    n: int,
) -> Seq<int>
    decreases n,
{
    if n <= 0 {
        Seq::empty()
    } else {
        let prev = planned_sources(keys, state, n - 1);
        let k = keys[n - 1];
        if state.contains_key(k) && state[k].status is Some {
            prev.push(n - 1)
        } else {
            prev
        }
    }
}

/// The episode total the catalog reports for a resolved entry.
pub open spec fn total_of(found: Option<CatalogEntry>) -> Option<u32> {
    match found {
        Some(e) => e.episodes,
        None => None,
    }
}

/// The planned entry for key position `idx` holds exactly the leaf files
/// `1..=progress` with their contents.
pub open spec fn leaves_match(
    e: PlannedEntry,
    keys: Seq<(Seq<char>, i64)>,
    state: Map<(Seq<char>, i64), Changes>,
    found: Seq<Option<CatalogEntry>>,
    idx: int,
) -> bool {
    let k = keys[idx];
    &&& e.leaves@.len() == match state[k].episode_progress {
        Some(p) => p as int,
        None => 0,
    }
    &&& forall|q: int| 0 <= q < e.leaves@.len() ==> #[trigger] e.leaves@[q]@ == leaf_text(
        tree_title(found[idx], k),
        (q + 1) as nat,
        total_of(found[idx]),
        k,
    )
}

/// The names of a list of planned entries.
pub open spec fn names_of(p: Seq<PlannedEntry>) -> Seq<(Seq<char>, Seq<char>)> {
    p.map_values(|e: PlannedEntry| (e.label@, e.folder@))
}

fn pair_used(used: &Vec<PlannedEntry>, label: &String, folder: &String) -> (r: bool)
    ensures
        r == names_of(used@).contains((label@, folder@)),
{
    let mut i: usize = 0;
    while i < used.len()
        invariant
            i <= used@.len(),
            forall|k: int| 0 <= k < i ==> names_of(used@)[k] != (label@, folder@),
        decreases used@.len() - i,
    {
        if used[i].label == *label && used[i].folder == *folder {
            assert(names_of(used@)[i as int] == (label@, folder@));
            return true;
        }
        i = i + 1;
    }
    false
}

/// `plan` is the folder tree for the keys `kv` (in order) of the replayed
/// state `sm`, with `found` the catalog's answers: its names are the planned
/// ones and each entry holds exactly the leaves of the key it stands for.
pub open spec fn is_tree_plan(
    plan: Seq<PlannedEntry>,
    kv: Seq<(Seq<char>, i64)>,
    sm: Map<(Seq<char>, i64), Changes>,
    found: Seq<Option<CatalogEntry>>,
) -> bool {
    &&& names_of(plan) == planned_names(kv, sm, found, kv.len() as int)
    &&& plan.len() == planned_sources(kv, sm, kv.len() as int).len()
    &&& forall|p: int| 0 <= p < plan.len() ==> leaves_match(
        #[trigger] plan[p],
        kv,
        sm,
        found,
        planned_sources(kv, sm, kv.len() as int)[p],
    )
}

/// Planning the view again from the same replayed state, keys and catalog
/// answers gives the same tree, entry for entry: same status folder, same
/// folder name, same leaf files with the same contents. The plan depends on
/// nothing else.
pub proof fn lemma_tree_plan_determined(
    p1: Seq<PlannedEntry>,
    p2: Seq<PlannedEntry>,
    kv: Seq<(Seq<char>, i64)>,
    sm: Map<(Seq<char>, i64), Changes>,
    found: Seq<Option<CatalogEntry>>,
)
    requires
        is_tree_plan(p1, kv, sm, found),
        is_tree_plan(p2, kv, sm, found),
    ensures
        p1.len() == p2.len(),
        forall|i: int| 0 <= i < p1.len() ==> {
            &&& (#[trigger] p1[i]).label@ == p2[i].label@
            &&& p1[i].folder@ == p2[i].folder@
            &&& p1[i].leaves@.len() == p2[i].leaves@.len()
            &&& forall|q: int| 0 <= q < p1[i].leaves@.len() ==> #[trigger] p1[i].leaves@[q]@ == p2[i].leaves@[q]@
        },
{
    assert forall|i: int| 0 <= i < p1.len() implies {
        &&& (#[trigger] p1[i]).label@ == p2[i].label@
        &&& p1[i].folder@ == p2[i].folder@
        &&& p1[i].leaves@.len() == p2[i].leaves@.len()
        &&& forall|q: int| 0 <= q < p1[i].leaves@.len() ==> #[trigger] p1[i].leaves@[q]@ == p2[i].leaves@[q]@
    } by {
        assert(names_of(p1)[i] == names_of(p2)[i]);
        assert(leaves_match(p1[i], kv, sm, found, planned_sources(kv, sm, kv.len() as int)[i]));
        assert(leaves_match(p2[i], kv, sm, found, planned_sources(kv, sm, kv.len() as int)[i]));
    }
}

/// `folder` suffixed with the anilist id `id` until no planned entry under
/// `label` carries that name.
fn free_folder_name(used: &Vec<PlannedEntry>, label: &String, folder: String, id: i64) -> (r: String)
    ensures
        r@ == free_folder(names_of(used@), label@, folder@, id),
{
    let ghost names = names_of(used@);
    let ghost start = folder@;
    let mut folder = folder;
    while pair_used(used, label, &folder)
        invariant
            names == names_of(used@),
            free_folder(names, label@, folder@, id) == free_folder(names, label@, start, id),
        decreases folder_room(names, folder@),
    {
        proof {
            lemma_contained_len(names, label@, folder@);
            lemma_suffixed_longer(folder@, id);
        }
        let mut f = String::new();
        push_string(&mut f, &folder);
        push_str(&mut f, " (anilist-");
        push_signed_decimal(&mut f, id);
        push_str(&mut f, ")");
        proof {
            assert(f@ =~= suffixed(folder@, id));
        }
        folder = f;
    }
    folder
}

/// Plan the folder tree for the replayed state `state`, walking `keys` (the
/// state's keys in sorted order) with `found[i]` the catalog's entry for
/// `keys[i]`, if it resolved. Each planned entry sits under its status
/// folder, is named after its sanitized title (suffixed with the anilist id,
/// as often as needed, when that name is taken under the same status), and
/// holds one leaf per episode progressed through. No two planned entries
/// share both status folder and name.
pub fn plan_tree(state: &NetChanges, keys: &Vec<EntryKey>, found: &Vec<Option<CatalogEntry>>) -> (plan: Vec<PlannedEntry>)
    requires
        rows_distinct(state@),
        found@.len() == keys@.len(),
    ensures
        is_tree_plan(plan@, keys_view(keys@), rows_map(state@), found@),
        names_of(plan@).no_duplicates(),
{
    let ghost kv = keys_view(keys@);
    let ghost sm = rows_map(state@);
    let mut plan: Vec<PlannedEntry> = Vec::new();
    let mut i: usize = 0;
    while i < keys.len()
        invariant
            i <= keys@.len(),
            found@.len() == keys@.len(),
            rows_distinct(state@),
            kv == keys_view(keys@),
            sm == rows_map(state@),
            names_of(plan@) == planned_names(kv, sm, found@, i as int),
            plan@.len() == planned_sources(kv, sm, i as int).len(),
            forall|p: int| 0 <= p < plan@.len() ==> leaves_match(
                #[trigger] plan@[p],
                kv,
                sm,
                found@,
                planned_sources(kv, sm, i as int)[p],
            ),
        decreases keys@.len() - i,
    {
        let key = &keys[i];
        let ghost before = plan@;
        assert(kv[i as int] == key_view(*key));
        match lookup(state, key) {
            Some(changes) => {
                match changes.status {
                    Some(status) => {
                        let label = owned(status_label(status));
                        let title = match &found[i] {
                            Some(e) => owned(e.display_title()),
                            None => {
                                let mut t = String::new();
                                push_string(&mut t, &key.0);
                                push_str(&mut t, "-");
                                push_signed_decimal(&mut t, key.1);
                                proof {
                                    assert(t@ =~= key.0@ + "-"@ + signed_decimal(key.1 as int));
                                }
                                t
                            },
                        };
                        let base = sanitize_component(title.as_str());
                        let folder = free_folder_name(&plan, &label, base, key.1);
                        let progress: u32 = match changes.episode_progress {
                            Some(p) => p,
                            None => 0,
                        };
                        let total = match &found[i] {
                            Some(e) => e.episodes,
                            None => None,
                        };
                        let mut leaves: Vec<String> = Vec::new();
                        let mut ep: u32 = 0;
                        while ep < progress
                            invariant
                                ep <= progress,
                                leaves@.len() == ep,
                                forall|q: int| 0 <= q < ep ==> #[trigger] leaves@[q]@ == leaf_text(title@, (q + 1) as nat, total, key_view(*key)),
                            decreases progress - ep,
                        {
                            ep = ep + 1;
                            leaves.push(leaf_content(title.as_str(), ep, total, key));
                        }
                        plan.push(PlannedEntry { label, folder, leaves });
                        proof {
                            assert(names_of(plan@) =~= names_of(before).push((plan@.last().label@, plan@.last().folder@)));
                            assert(planned_sources(kv, sm, i + 1) == planned_sources(kv, sm, i as int).push(i as int));
                            assert(title@ == tree_title(found@[i as int], kv[i as int]));
                            assert(total == total_of(found@[i as int]));
                            assert forall|p: int| 0 <= p < plan@.len() implies leaves_match(
                                #[trigger] plan@[p],
                                kv,
                                sm,
                                found@,
                                planned_sources(kv, sm, i + 1)[p],
                            ) by {
                                if p < before.len() {
                                    assert(plan@[p] == before[p]);
                                    assert(planned_sources(kv, sm, i + 1)[p] == planned_sources(kv, sm, i as int)[p]);
                                }
                            }
                        }
                    },
                    None => {
                        proof {
                            assert(planned_sources(kv, sm, i + 1) == planned_sources(kv, sm, i as int));
                        }
                    },
                }
            },
            None => {
                proof {
                    assert(planned_sources(kv, sm, i + 1) == planned_sources(kv, sm, i as int));
                }
            },
        }
        i = i + 1;
    }
    proof {
        lemma_planned_names_distinct(kv, sm, found@, keys@.len() as int);
        assert(kv.len() == keys@.len());
    }
    plan
}

} // verus!
