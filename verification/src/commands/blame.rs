//! `anigit blame`: for one entry, which commit last set each field. The
//! walk follows the current branch's history newest first, so the first
//! commit about the entry that sets a field is the one to blame.
use vstd::prelude::*;

use crate::catalog::{display_title_of, str_eq, CatalogEntry};
use crate::model::Commit;
use crate::order::{chars_lt, lemma_seq_lt_asymmetric, lemma_seq_lt_total, lemma_seq_lt_transitive, seq_le, seq_lt};
use crate::search::{lowercase, to_lowercase};
use crate::render::{field_name, field_name_str, field_value, field_value_text};
use crate::replay::{
    commit_key, key_view, newest_episode, newest_rewatch, newest_score, newest_status, replay,
    law_replay_is_last_set_wins, EntryKey,
};
use crate::revert::{field_set, is_set};
use crate::repo::short_id;
use crate::text::{chars_of, owned, push_str, push_string};

verus! {

/// Commit `c` is about entry `k` and sets field `f`.
pub open spec fn sets_field(c: Commit, k: (Seq<char>, i64), f: int) -> bool {
    commit_key(c) == k && field_set(c.changes, f)
}

/// Commit `i` of the newest-first `history` is the one to blame for field
/// `f` of entry `k`: it sets that field, and no newer commit does.
pub open spec fn is_blame_hit(history: Seq<Commit>, k: (Seq<char>, i64), f: int, i: int) -> bool {
    &&& 0 <= i < history.len()
    &&& sets_field(history[i], k, f)
    &&& forall|j: int| 0 <= j < i ==> !sets_field(#[trigger] history[j], k, f)
}

/// The newest commit of `history` that sets field `f` of entry `key`, if any.
pub fn blame_field(history: &Vec<Commit>, key: &EntryKey, f: usize) -> (r: Option<usize>)
    requires
        f < 4,
    ensures
        r matches Some(i) ==> is_blame_hit(history@, key_view(*key), f as int, i as int),
        r is None ==> forall|j: int| 0 <= j < history@.len() ==> !sets_field(#[trigger] history@[j], key_view(*key), f as int),
{
    let mut i: usize = 0;
    while i < history.len()
        invariant
            i <= history@.len(),
            f < 4,
            forall|j: int| 0 <= j < i ==> !sets_field(#[trigger] history@[j], key_view(*key), f as int),
        decreases history@.len() - i,
    {
        let c = &history[i];
        if str_eq(c.catalog_ref.source.as_str(), key.0.as_str()) && c.catalog_ref.id == key.1 && is_set(&c.changes, f) {
            return Some(i);
        }
        i = i + 1;
    }
    None
}

/// The blame line of field `f`: its value with the blamed commit's short
/// id, time and message, or a note that no commit set it.
pub open spec fn blame_text(f: int, hit: Option<Commit>) -> Seq<char> {
    match hit {
        Some(c) => match field_value(c.changes, f) {
            Some(v) => "  "@ + field_name(f) + ": "@ + v + "  ("@ + c.id@.take(
                if c.id@.len() < 11 { c.id@.len() as int } else { 11 },
            ) + " "@ + c.timestamp@ + " \""@ + c.message@ + "\")"@,
            None => "  "@ + field_name(f) + ": never set for this anime"@,
        },
        None => "  "@ + field_name(f) + ": never set for this anime"@,
    }
}

/// Render the blame line of field `f` for the blamed commit `hit`.
pub fn blame_line(f: usize, hit: Option<&Commit>) -> (r: String)
    requires
        f < 4,
    ensures
        r@ == blame_text(f as int, match hit {
            Some(c) => Some(*c),
            None => None,
        }),
{
    proof {
        reveal_strlit("  ");
        reveal_strlit(": ");
        reveal_strlit("  (");
        reveal_strlit(" ");
        reveal_strlit(" \"");
        reveal_strlit("\")");
        reveal_strlit(": never set for this anime");
    }
    let mut line = owned("  ");
    push_str(&mut line, field_name_str(f));
    match hit {
        Some(c) => match field_value_text(&c.changes, f) {
            Some(v) => {
                push_str(&mut line, ": ");
                push_string(&mut line, &v);
                push_str(&mut line, "  (");
                let id = short_id(c.id.as_str());
                push_string(&mut line, &id);
                push_str(&mut line, " ");
                push_string(&mut line, &c.timestamp);
                push_str(&mut line, " \"");
                push_string(&mut line, &c.message);
                push_str(&mut line, "\")");
                return line;
            },
            None => {},
        },
        None => {},
    }
    push_str(&mut line, ": never set for this anime");
    line
}

/// The heading above the blame lines.
pub open spec fn blame_heading_text(title: Seq<char>, id: int, branch: Seq<char>) -> Seq<char> {
    "Blame for '"@ + title + "' (anilist/"@ + crate::text::signed_decimal(id) + ") on branch "@ + branch + ":"@
}

/// Render the heading for entry `title` (`anilist` id `id`) on `branch`.
pub fn blame_heading(title: &str, id: i64, branch: &str) -> (r: String)
    ensures
        r@ == blame_heading_text(title@, id as int, branch@),
{
    proof {
        reveal_strlit("Blame for '");
        reveal_strlit("' (anilist/");
        reveal_strlit(") on branch ");
        reveal_strlit(":");
    }
    let mut s = owned("Blame for '");
    push_str(&mut s, title);
    push_str(&mut s, "' (anilist/");
    crate::text::push_signed_decimal(&mut s, id);
    push_str(&mut s, ") on branch ");
    push_str(&mut s, branch);
    push_str(&mut s, ":");
    s
}

// ---------------------------------------------------------------------------
// The candidate list

/// What candidates are listed by: the display title, lower-cased.
pub open spec fn title_key(e: CatalogEntry) -> Seq<char> {
    lowercase(display_title_of(e))
}

/// Candidates in alphabetical order of their lower-cased display titles.
pub open spec fn title_order() -> spec_fn(CatalogEntry, CatalogEntry) -> bool {
    |a: CatalogEntry, b: CatalogEntry| seq_le(title_key(a), title_key(b))
}

/// `r` holds the entries of `cands` at the positions `idx` names, each
/// position once, and entries with equal titles in their given order.
pub open spec fn stable_arrangement(cands: Seq<CatalogEntry>, r: Seq<CatalogEntry>, idx: Seq<int>) -> bool {
    &&& idx.len() == r.len()
    &&& r.len() == cands.len()
    &&& forall|m: int| 0 <= m < r.len() ==> 0 <= #[trigger] idx[m] < cands.len() && r[m] == cands[idx[m]]
    &&& forall|a: int, b: int| 0 <= a < b < r.len() ==> #[trigger] idx[a] != #[trigger] idx[b]
    &&& forall|a: int, b: int|
        0 <= a < b < r.len() && title_key(#[trigger] r[a]) == title_key(#[trigger] r[b]) ==> idx[a] < idx[b]
}

/// The blame candidates sorted case-insensitively by display title: the
/// same entries, in ascending order of their lower-cased titles, those
/// with equal titles in the order given.
pub fn sort_candidates(cands: Vec<CatalogEntry>) -> (r: Vec<CatalogEntry>)
    ensures
        vstd::relations::sorted_by(r@, title_order()),
        r@.to_multiset() == cands@.to_multiset(),
        exists|idx: Seq<int>| stable_arrangement(cands@, r@, idx),
{
    broadcast use vstd::seq_lib::group_to_multiset_ensures;
    let mut out: Vec<CatalogEntry> = Vec::new();
    let mut keys: Vec<Vec<char>> = Vec::new();
    let total = cands.len();
    let mut rest = cands;
    let ghost orig = rest@;
    let mut taken: usize = 0;
    let ghost mut idx: Seq<int> = Seq::empty();
    proof {
        assert(orig.subrange(0, 0) =~= Seq::<CatalogEntry>::empty());
    }
    while rest.len() > 0
        invariant
            vstd::relations::sorted_by(out@, title_order()),
            idx.len() == out@.len(),
            out@.len() == taken,
            forall|m: int| 0 <= m < out@.len() ==> 0 <= #[trigger] idx[m] < taken && out@[m] == orig[idx[m]],
            forall|a: int, b: int| 0 <= a < b < out@.len() ==> #[trigger] idx[a] != #[trigger] idx[b],
            forall|a: int, b: int|
                0 <= a < b < out@.len() && title_key(#[trigger] out@[a]) == title_key(#[trigger] out@[b]) ==> idx[a] < idx[b],
            keys@.len() == out@.len(),
            forall|m: int| 0 <= m < out@.len() ==> (#[trigger] keys@[m])@ == title_key(out@[m]),
            taken + rest@.len() == orig.len(),
            orig.len() == total,
            rest@ == orig.subrange(taken as int, orig.len() as int),
            out@.to_multiset() == orig.subrange(0, taken as int).to_multiset(),
        decreases rest@.len(),
    {
        let e = rest.remove(0);
        let lower = to_lowercase(e.display_title());
        let k = chars_of(lower.as_str());
        let mut j: usize = 0;
        while j < out.len()
            invariant
                j <= out@.len(),
                keys@.len() == out@.len(),
                forall|m: int| 0 <= m < out@.len() ==> (#[trigger] keys@[m])@ == title_key(out@[m]),
                k@ == title_key(e),
                forall|m: int| 0 <= m < j ==> seq_le(title_key(#[trigger] out@[m]), title_key(e)),
            ensures
                j <= out@.len(),
                forall|m: int| 0 <= m < j ==> seq_le(title_key(#[trigger] out@[m]), title_key(e)),
                j < out@.len() ==> seq_lt(title_key(e), title_key(out@[j as int])),
            decreases out@.len() - j,
        {
            assert(keys@[j as int]@ == title_key(out@[j as int]));
            if chars_lt(&k, &keys[j]) {
                break;
            }
            proof {
                lemma_seq_lt_total(title_key(e), title_key(out@[j as int]));
            }
            j = j + 1;
        }
        let ghost before = out@;
        let ghost before_keys = keys@;
        out.insert(j, e);
        keys.insert(j, k);
        proof {
            let x = e;
            assert(out@ =~= before.insert(j as int, x));
            assert forall|m: int| 0 <= m < out@.len() implies (#[trigger] keys@[m])@ == title_key(out@[m]) by {
                if m < j {
                    assert(keys@[m] == before_keys[m] && out@[m] == before[m]);
                } else if m > j {
                    assert(keys@[m] == before_keys[m - 1] && out@[m] == before[m - 1]);
                }
            }
            assert(vstd::relations::sorted_by(out@, title_order())) by {
                assert forall|a: int, b: int| 0 <= a < b < out@.len() implies #[trigger] title_order()(
                    out@[a],
                    out@[b],
                ) by {
                    let ka = title_key(out@[a]);
                    let kb = title_key(out@[b]);
                    if a < j && b < j {
                        assert(out@[a] == before[a] && out@[b] == before[b]);
                        assert(title_order()(before[a], before[b]));
                    } else if a < j && b == j {
                        assert(out@[a] == before[a]);
                    } else if a < j && b > j {
                        assert(out@[a] == before[a] && out@[b] == before[b - 1]);
                        assert(title_order()(before[a], before[b - 1]));
                    } else if a == j {
                        assert(out@[b] == before[b - 1]);
                        let kj = title_key(before[j as int]);
                        if b - 1 > j {
                            assert(title_order()(before[j as int], before[b - 1]));
                            let kb1 = title_key(before[b - 1]);
                            if seq_lt(kj, kb1) {
                                lemma_seq_lt_transitive(title_key(x), kj, kb1);
                            }
                        }
                    } else {
                        assert(out@[a] == before[a - 1] && out@[b] == before[b - 1]);
                        assert(title_order()(before[a - 1], before[b - 1]));
                    }
                }
            }
            vstd::seq_lib::to_multiset_insert(before, j as int, x);
            assert(x == orig[taken as int]);
            let old_idx = idx;
            idx = old_idx.insert(j as int, taken as int);
            assert forall|m: int| 0 <= m < out@.len() implies 0 <= #[trigger] idx[m] < taken + 1 && out@[m] == orig[idx[m]] by {
                if m < j {
                    assert(out@[m] == before[m] && idx[m] == old_idx[m]);
                } else if m > j {
                    assert(out@[m] == before[m - 1] && idx[m] == old_idx[m - 1]);
                }
            }
            assert forall|a: int, b: int| 0 <= a < b < out@.len() implies #[trigger] idx[a] != #[trigger] idx[b] by {
                if a < j && b < j {
                    assert(idx[a] == old_idx[a] && idx[b] == old_idx[b]);
                } else if a < j && b > j {
                    assert(idx[a] == old_idx[a] && idx[b] == old_idx[b - 1]);
                } else if a > j {
                    assert(idx[a] == old_idx[a - 1] && idx[b] == old_idx[b - 1]);
                } else if a == j {
                    assert(idx[b] == old_idx[b - 1]);
                } else {
                    assert(idx[a] == old_idx[a]);
                }
            }
            assert forall|a: int, b: int|
                0 <= a < b < out@.len() && title_key(#[trigger] out@[a]) == title_key(#[trigger] out@[b]) implies idx[a] < idx[b] by {
                if a < j && b < j {
                    assert(out@[a] == before[a] && out@[b] == before[b]);
                    assert(idx[a] == old_idx[a] && idx[b] == old_idx[b]);
                } else if a < j && b == j {
                    assert(idx[a] == old_idx[a]);
                } else if a < j {
                    assert(out@[a] == before[a] && out@[b] == before[b - 1]);
                    assert(idx[a] == old_idx[a] && idx[b] == old_idx[b - 1]);
                } else if a > j {
                    assert(out@[a] == before[a - 1] && out@[b] == before[b - 1]);
                    assert(idx[a] == old_idx[a - 1] && idx[b] == old_idx[b - 1]);
                } else {
                    let kx = title_key(x);
                    let kj = title_key(before[j as int]);
                    let kb1 = title_key(before[b - 1]);
                    assert(out@[b] == before[b - 1]);
                    assert(seq_lt(kx, kj));
                    if b - 1 > j {
                        assert(title_order()(before[j as int], before[b - 1]));
                        if seq_lt(kj, kb1) {
                            lemma_seq_lt_transitive(kx, kj, kb1);
                        }
                    }
                    lemma_seq_lt_asymmetric(kx, kb1);
                }
            }
            assert(orig.subrange(0, taken + 1) =~= orig.subrange(0, taken as int).push(x));
            vstd::seq_lib::to_multiset_build(orig.subrange(0, taken as int), x);
            assert(rest@ =~= orig.subrange(taken + 1, orig.len() as int));
        }
        taken = taken + 1;
    }
    proof {
        assert(orig.subrange(0, orig.len() as int) =~= orig);
        assert(stable_arrangement(orig, out@, idx));
    }
    out
}

// ---------------------------------------------------------------------------
// Blame agrees with replay

/// The replayed value of field `f` of entry `k`, rendered.
pub open spec fn newest_value(history: Seq<Commit>, k: (Seq<char>, i64), f: int) -> Option<Seq<char>> {
    field_value(
        crate::model::Changes {
            status: newest_status(history, k),
            episode_progress: newest_episode(history, k),
            score: newest_score(history, k),
            rewatch_count: newest_rewatch(history, k),
        },
        f,
    )
}

proof fn lemma_newest_at_hit(history: Seq<Commit>, k: (Seq<char>, i64), f: int, i: int)
    requires
        0 <= f < 4,
        is_blame_hit(history, k, f, i),
    ensures
        newest_value(history, k, f) == field_value(history[i].changes, f),
    decreases history.len(),
{
    let rest = history.drop_first();
    if i > 0 {
        assert(!sets_field(history[0], k, f));
        assert(is_blame_hit(rest, k, f, i - 1)) by {
            assert(rest[i - 1] == history[i]);
            assert forall|j: int| 0 <= j < i - 1 implies !sets_field(#[trigger] rest[j], k, f) by {
                assert(rest[j] == history[j + 1]);
            }
        }
        lemma_newest_at_hit(rest, k, f, i - 1);
        assert(newest_value(history, k, f) == newest_value(rest, k, f));
    }
}

proof fn lemma_newest_none(history: Seq<Commit>, k: (Seq<char>, i64), f: int)
    requires
        0 <= f < 4,
        forall|j: int| 0 <= j < history.len() ==> !sets_field(#[trigger] history[j], k, f),
    ensures
        newest_value(history, k, f) is None,
    decreases history.len(),
{
    if history.len() > 0 {
        let rest = history.drop_first();
        assert(!sets_field(history[0], k, f));
        assert forall|j: int| 0 <= j < rest.len() implies !sets_field(#[trigger] rest[j], k, f) by {
            assert(rest[j] == history[j + 1]);
        }
        lemma_newest_none(rest, k, f);
        assert(newest_value(history, k, f) == newest_value(rest, k, f));
    }
}

/// Blame shows the current value: the commit blamed for a field holds the
/// value that replaying the history gives that field, and a field no
/// commit set is unset in the replayed state.
pub proof fn law_blame_shows_current_value(history: Seq<Commit>, k: (Seq<char>, i64), f: int)
    requires
        0 <= f < 4,
    ensures
        forall|i: int| #[trigger] is_blame_hit(history, k, f, i) ==> {
            &&& replay(history).contains_key(k)
            &&& field_value(replay(history)[k], f) == field_value(history[i].changes, f)
        },
        (forall|j: int| 0 <= j < history.len() ==> !sets_field(#[trigger] history[j], k, f)) ==> !replay(
            history,
        ).contains_key(k) || field_value(replay(history)[k], f) is None,
{
    law_replay_is_last_set_wins(history, k);
    assert forall|i: int| #[trigger] is_blame_hit(history, k, f, i) implies {
        &&& replay(history).contains_key(k)
        &&& field_value(replay(history)[k], f) == field_value(history[i].changes, f)
    } by {
        assert(commit_key(history[i]) == k);
        lemma_newest_at_hit(history, k, f, i);
    }
    if forall|j: int| 0 <= j < history.len() ==> !sets_field(#[trigger] history[j], k, f) {
        lemma_newest_none(history, k, f);
    }
}

} // verus!
