//! The anime metadata catalog's entries and the rules read off them: the
//! title shown, the airing status a stored column means, which delta fields
//! map to which columns, and when an entry is stale.
use vstd::prelude::*;

use crate::text::{decimal, owned, push_decimal, push_str, push_string};

verus! {

/// Airing status of a catalog entry.
#[derive(Debug, Clone, Copy, PartialEq, Eq, Structural)]
pub enum AiringStatus {
    Releasing,
    Finished,
    NotYetReleased,
}

/// One catalog row.
#[derive(Debug, Clone)]
pub struct CatalogEntry {
    pub id: i64,
    pub title_romaji: Option<String>,
    pub title_english: Option<String>,
    pub format: Option<String>,
    pub episodes: Option<u32>,
    pub description: Option<String>,
    pub status: AiringStatus,
    /// ISO date text such as "2026-01-08".
    pub start_date: Option<String>,
    pub end_date: Option<String>,
    pub genres: Vec<String>,
    pub tags: Vec<String>,
    /// RFC 3339 time this row was last written; input to the staleness check.
    pub last_updated: String,
}

/// The title an entry is shown under: the English title when there is one,
/// else the romaji title, else nothing.
pub open spec fn display_title_of(e: CatalogEntry) -> Seq<char> {
    match e.title_english {
        Some(t) => t@,
        None => match e.title_romaji {
            Some(t) => t@,
            None => Seq::empty(),
        },
    }
}

impl CatalogEntry {
    /// The title this entry is shown under: English if known, else romaji.
    pub fn display_title(&self) -> (r: &str)
        ensures
            r@ == display_title_of(*self),
    {
        match &self.title_english {
            Some(t) => t.as_str(),
            None => match &self.title_romaji {
                Some(t) => t.as_str(),
                None => {
                    proof {
                        reveal_strlit("");
                    }
                    ""
                },
            },
        }
    }
}

/// The airing status a stored status column means.
pub open spec fn airing_status_of(s: Seq<char>) -> AiringStatus {
    if s == "RELEASING"@ {
        AiringStatus::Releasing
    } else if s == "FINISHED"@ {
        AiringStatus::Finished
    } else {
        AiringStatus::NotYetReleased
    }
}

/// `a == b` on string slices.
pub fn str_eq(a: &str, b: &str) -> (r: bool)
    ensures
        r == (a@ == b@),
{
    owned(a) == owned(b)
}

impl AiringStatus {
    /// The status a stored status column means: `RELEASING`, `FINISHED`, and
    /// anything else counts as not yet released.
    pub fn from_column(s: &str) -> (r: AiringStatus)
        ensures
            r == airing_status_of(s@),
    {
        if str_eq(s, "RELEASING") {
            AiringStatus::Releasing
        } else if str_eq(s, "FINISHED") {
            AiringStatus::Finished
        } else {
            AiringStatus::NotYetReleased
        }
    }
}

/// Errors from the catalog's own rules.
#[derive(Debug, Clone, PartialEq, Eq)]
pub enum CatalogError {
    /// The catalog file is not where it should be.
    NotFound { path: String },
    /// A delta names a field this version does not know.
    UnknownField { field: String },
    /// No entry matches the typed name.
    NoMatch { name: String },
    /// An inserted row lacks a field every row must have.
    MissingField { id: i64, field: String },
}

/// Delta field names and the catalog columns they write, which doubles as
/// the whitelist of fields a delta may carry.
pub open spec fn delta_column(field: Seq<char>) -> Option<Seq<char>> {
    if field == "title"@ {
        Some("title"@)
    } else if field == "format"@ {
        Some("format"@)
    } else if field == "episodes"@ {
        Some("episodes"@)
    } else if field == "description"@ {
        Some("description"@)
    } else if field == "status"@ {
        Some("status"@)
    } else if field == "start_date"@ {
        Some("start_date"@)
    } else if field == "end_date"@ {
        Some("end_date"@)
    } else if field == "genres"@ {
        Some("genres_json"@)
    } else {
        None
    }
}

/// The catalog column a delta field writes, or an error for a field this
/// version does not know.
pub fn column_for_field(field: &str) -> (r: Result<&'static str, CatalogError>)
    ensures
        delta_column(field@) matches Some(c) ==> (r matches Ok(col) && col@ == c),
        delta_column(field@) is None ==> (r matches Err(CatalogError::UnknownField { field: f })
            && f@ == field@),
{
    if str_eq(field, "title") {
        Ok("title")
    } else if str_eq(field, "format") {
        Ok("format")
    } else if str_eq(field, "episodes") {
        Ok("episodes")
    } else if str_eq(field, "description") {
        Ok("description")
    } else if str_eq(field, "status") {
        Ok("status")
    } else if str_eq(field, "start_date") {
        Ok("start_date")
    } else if str_eq(field, "end_date") {
        Ok("end_date")
    } else if str_eq(field, "genres") {
        Ok("genres_json")
    } else {
        Err(CatalogError::UnknownField { field: owned(field) })
    }
}

fn names_contain(names: &Vec<String>, name: &str) -> (r: bool)
    ensures
        r == exists|i: int| 0 <= i < names@.len() && #[trigger] names@[i]@ == name@,
{
    let mut i: usize = 0;
    while i < names.len()
        invariant
            i <= names@.len(),
            forall|k: int| 0 <= k < i ==> #[trigger] names@[k]@ != name@,
        decreases names@.len() - i,
    {
        if str_eq(names[i].as_str(), name) {
            return true;
        }
        i = i + 1;
    }
    false
}

/// A delta that inserts row `id` must give its `title` and its `status`;
/// `fields` are the names the delta gives. The title is checked first.
pub fn check_insert_fields(id: i64, fields: &Vec<String>) -> (r: Result<(), CatalogError>)
    ensures
        r is Ok <==> (exists|i: int| 0 <= i < fields@.len() && #[trigger] fields@[i]@ == "title"@) && (exists|i: int|
            0 <= i < fields@.len() && #[trigger] fields@[i]@ == "status"@),
        !(exists|i: int| 0 <= i < fields@.len() && #[trigger] fields@[i]@ == "title"@) ==> (r matches Err(
            CatalogError::MissingField { id: n, field },
        ) && n == id && field@ == "title"@),
        (exists|i: int| 0 <= i < fields@.len() && #[trigger] fields@[i]@ == "title"@) && !(exists|i: int|
            0 <= i < fields@.len() && #[trigger] fields@[i]@ == "status"@) ==> (r matches Err(
            CatalogError::MissingField { id: n, field },
        ) && n == id && field@ == "status"@),
{
    if !names_contain(fields, "title") {
        return Err(CatalogError::MissingField { id, field: owned("title") });
    }
    if !names_contain(fields, "status") {
        return Err(CatalogError::MissingField { id, field: owned("status") });
    }
    Ok(())
}

/// The catalog file location, given where it would live and whether a file
/// is there: that path when it exists, else a "not found" error naming it.
pub fn catalog_path(sync_path: String, is_file: bool) -> (r: Result<String, CatalogError>)
    ensures
        is_file ==> (r matches Ok(p) && p@ == sync_path@),
        !is_file ==> (r matches Err(CatalogError::NotFound { path }) && path@ == sync_path@),
{
    if is_file {
        Ok(sync_path)
    } else {
        Err(CatalogError::NotFound { path: sync_path })
    }
}

// ---------------------------------------------------------------------------
// Applying delta changes
// ---------------------------------------------------------------------------

/// `items` separated by `, `.
pub open spec fn comma_list(items: Seq<Seq<char>>) -> Seq<char>
    decreases items.len(),
{
    if items.len() == 0 {
        Seq::empty()
    } else if items.len() == 1 {
        items[0]
    } else {
        comma_list(items.drop_last()) + ", "@ + items.last()
    }
}

/// Every field a delta gives is one this version knows.
pub open spec fn all_known(fields: Seq<String>) -> bool {
    forall|i: int| 0 <= i < fields.len() ==> (#[trigger] delta_column(fields[i]@)) is Some
}

/// Index of the first field this version does not know (the length when all are known).
pub open spec fn first_unknown(fields: Seq<String>) -> int
    decreases fields.len(),
{
    if fields.len() == 0 {
        0
    } else if delta_column(fields[0]@) is None {
        0
    } else {
        1 + first_unknown(fields.drop_first())
    }
}

/// The catalog columns the fields write.
pub open spec fn columns_of(fields: Seq<String>) -> Seq<Seq<char>> {
    fields.map_values(|f: String| delta_column(f@)->0)
}

/// Placeholders `?from`, `?from+1`, ... for `n` parameters.
pub open spec fn placeholders(from: nat, n: nat) -> Seq<Seq<char>> {
    Seq::new(n, |i: int| "?"@ + decimal((from + i) as nat))
}

/// The statement inserting a row from a delta that gives `fields`: the id
/// and last-updated time first, then one column per field, each bound to
/// the next parameter.
pub open spec fn insert_sql(fields: Seq<String>) -> Seq<char> {
    "INSERT INTO anime ("@ + comma_list(seq!["id"@, "last_updated"@] + columns_of(fields)) + ") VALUES ("@ + comma_list(
        placeholders(1, fields.len() + 2),
    ) + ")"@
}

/// The statement updating a row from a delta that gives `fields`: the
/// last-updated time is parameter 1, field `i` parameter `i + 2`, and the
/// id the last parameter.
pub open spec fn update_sql(fields: Seq<String>) -> Seq<char> {
    "UPDATE anime SET "@ + comma_list(
        seq!["last_updated = ?1"@] + Seq::new(
            fields.len(),
            |i: int| columns_of(fields)[i] + " = ?"@ + decimal((i + 2) as nat),
        ),
    ) + " WHERE id = ?"@ + decimal((fields.len() + 2) as nat)
}

proof fn lemma_views_push(v: Seq<String>, x: String)
    ensures
        v.push(x).map_values(|t: String| t@) == v.map_values(|t: String| t@).push(x@),
{
    assert(v.push(x).map_values(|t: String| t@) =~= v.map_values(|t: String| t@).push(x@));
}

fn join_commas(items: &Vec<String>) -> (r: String)
    ensures
        r@ == comma_list(items@.map_values(|t: String| t@)),
{
    let ghost v = items@.map_values(|t: String| t@);
    let mut out = String::new();
    let mut i: usize = 0;
    while i < items.len()
        invariant
            i <= items@.len(),
            v == items@.map_values(|t: String| t@),
            out@ == comma_list(v.subrange(0, i as int)),
        decreases items@.len() - i,
    {
        proof {
            reveal_strlit(", ");
            let next = v.subrange(0, i + 1);
            assert(next.drop_last() =~= v.subrange(0, i as int));
            assert(next.last() == items@[i as int]@);
            if i == 0 {
                assert(next =~= seq![items@[0]@]);
            }
        }
        if i > 0 {
            push_str(&mut out, ", ");
        }
        push_string(&mut out, &items[i]);
        proof {
            if i == 0 {
                assert(out@ =~= comma_list(v.subrange(0, 1)));
            }
        }
        i = i + 1;
    }
    proof {
        assert(v.subrange(0, items@.len() as int) =~= v);
    }
    out
}

proof fn lemma_first_unknown(fields: Seq<String>)
    ensures
        0 <= first_unknown(fields) <= fields.len(),
        first_unknown(fields) == fields.len() <==> all_known(fields),
        first_unknown(fields) < fields.len() ==> delta_column(fields[first_unknown(fields)]@) is None,
        forall|i: int| 0 <= i < first_unknown(fields) ==> (#[trigger] delta_column(fields[i]@)) is Some,
    decreases fields.len(),
{
    if fields.len() > 0 {
        let rest = fields.drop_first();
        lemma_first_unknown(rest);
        assert forall|i: int| 0 <= i < rest.len() implies rest[i] == fields[i + 1] by {}
        if delta_column(fields[0]@) is Some {
            assert forall|i: int| 0 <= i < first_unknown(fields) implies (#[trigger] delta_column(fields[i]@)) is Some by {
                if i > 0 {
                    assert(fields[i] == rest[i - 1]);
                }
            }
            if all_known(fields) {
                assert forall|i: int| 0 <= i < rest.len() implies (#[trigger] delta_column(rest[i]@)) is Some by {
                    assert(delta_column(fields[i + 1]@) is Some);
                }
            }
            if all_known(rest) {
                assert forall|i: int| 0 <= i < fields.len() implies (#[trigger] delta_column(fields[i]@)) is Some by {
                    if i > 0 {
                        assert(fields[i] == rest[i - 1]);
                    }
                }
            }
        } else {
            assert(!all_known(fields) || delta_column(fields[0]@) is Some);
        }
    }
}

/// The columns the fields write, or the first field this version does not know.
fn field_columns(fields: &Vec<String>) -> (r: Result<Vec<String>, CatalogError>)
    ensures
        all_known(fields@) ==> (r matches Ok(cols) && cols@.map_values(|t: String| t@) == columns_of(fields@)),
        r matches Ok(cols) ==> cols@.len() == fields@.len(),
        !all_known(fields@) ==> (r matches Err(CatalogError::UnknownField { field }) && field@
            == fields@[first_unknown(fields@)]@),
{
    proof {
        lemma_first_unknown(fields@);
    }
    let mut cols: Vec<String> = Vec::new();
    let mut i: usize = 0;
    while i < fields.len()
        invariant
            i <= fields@.len(),
            i <= first_unknown(fields@),
            0 <= first_unknown(fields@) <= fields@.len(),
            first_unknown(fields@) == fields@.len() <==> all_known(fields@),
            first_unknown(fields@) < fields@.len() ==> delta_column(fields@[first_unknown(fields@)]@) is None,
            forall|k: int| 0 <= k < first_unknown(fields@) ==> (#[trigger] delta_column(fields@[k]@)) is Some,
            cols@.map_values(|t: String| t@) == columns_of(fields@).subrange(0, i as int),
        decreases fields@.len() - i,
    {
        match column_for_field(fields[i].as_str()) {
            Ok(c) => {
                let ghost before = cols@;
                let col = owned(c);
                cols.push(col);
                proof {
                    assert(delta_column(fields@[i as int]@) is Some);
                    if (i as int) == first_unknown(fields@) {
                        assert(first_unknown(fields@) < fields@.len());
                    }
                    lemma_views_push(before, col);
                    assert(columns_of(fields@)[i as int] == col@);
                    assert(columns_of(fields@).subrange(0, i + 1) =~= columns_of(fields@).subrange(0, i as int).push(col@));
                }
            },
            Err(e) => {
                proof {
                    assert(i as int == first_unknown(fields@));
                }
                return Err(e);
            },
        }
        i = i + 1;
    }
    proof {
        assert(columns_of(fields@).subrange(0, fields@.len() as int) =~= columns_of(fields@));
    }
    Ok(cols)
}

/// The statement inserting a row from a delta that gives `fields`, or the
/// first field this version does not know.
pub fn insert_statement(fields: &Vec<String>) -> (r: Result<String, CatalogError>)
    requires
        fields@.len() + 2 <= usize::MAX,
    ensures
        all_known(fields@) ==> (r matches Ok(sql) && sql@ == insert_sql(fields@)),
        !all_known(fields@) ==> (r matches Err(CatalogError::UnknownField { field }) && field@
            == fields@[first_unknown(fields@)]@),
{
    let cols = match field_columns(fields) {
        Ok(c) => c,
        Err(e) => {
            return Err(e);
        },
    };
    proof {
        reveal_strlit("id");
        reveal_strlit("last_updated");
        reveal_strlit("?");
        reveal_strlit("INSERT INTO anime (");
        reveal_strlit(") VALUES (");
        reveal_strlit(")");
    }
    let mut names: Vec<String> = Vec::new();
    names.push(owned("id"));
    names.push(owned("last_updated"));
    let mut k: usize = 0;
    while k < cols.len()
        invariant
            k <= cols@.len(),
            names@.map_values(|t: String| t@) == seq!["id"@, "last_updated"@] + cols@.map_values(|t: String| t@).subrange(0, k as int),
        decreases cols@.len() - k,
    {
        let ghost before = names@;
        let name = owned(cols[k].as_str());
        names.push(name);
        proof {
            lemma_views_push(before, name);
            let cv = cols@.map_values(|t: String| t@);
            assert(cv[k as int] == name@);
            assert(cv.subrange(0, k + 1) =~= cv.subrange(0, k as int).push(name@));
            assert(seq!["id"@, "last_updated"@] + cv.subrange(0, k + 1) =~= (seq!["id"@, "last_updated"@] + cv.subrange(0, k as int)).push(name@));
        }
        k = k + 1;
    }
    let n = fields.len() + 2;
    let mut marks: Vec<String> = Vec::new();
    let mut j: usize = 0;
    while j < n
        invariant
            j <= n,
            n == fields@.len() + 2,
            marks@.map_values(|t: String| t@) == placeholders(1, fields@.len() + 2).subrange(0, j as int),
        decreases n - j,
    {
        let ghost before = marks@;
        let mut m = owned("?");
        push_decimal(&mut m, (j + 1) as u64);
        marks.push(m);
        proof {
            lemma_views_push(before, m);
            let ps = placeholders(1, fields@.len() + 2);
            assert(ps[j as int] == m@);
            assert(ps.subrange(0, j + 1) =~= ps.subrange(0, j as int).push(m@));
        }
        j = j + 1;
    }
    let mut sql = owned("INSERT INTO anime (");
    let cl = join_commas(&names);
    push_string(&mut sql, &cl);
    push_str(&mut sql, ") VALUES (");
    let pl = join_commas(&marks);
    push_string(&mut sql, &pl);
    push_str(&mut sql, ")");
    proof {
        assert(cols@.map_values(|t: String| t@).subrange(0, cols@.len() as int) =~= cols@.map_values(|t: String| t@));
        assert(placeholders(1, fields@.len() + 2).subrange(0, n as int) =~= placeholders(1, fields@.len() + 2));
    }
    Ok(sql)
}

/// The statement updating a row from a delta that gives `fields`, or the
/// first field this version does not know.
pub fn update_statement(fields: &Vec<String>) -> (r: Result<String, CatalogError>)
    requires
        fields@.len() + 2 <= usize::MAX,
    ensures
        all_known(fields@) ==> (r matches Ok(sql) && sql@ == update_sql(fields@)),
        !all_known(fields@) ==> (r matches Err(CatalogError::UnknownField { field }) && field@
            == fields@[first_unknown(fields@)]@),
{
    let cols = match field_columns(fields) {
        Ok(c) => c,
        Err(e) => {
            return Err(e);
        },
    };
    proof {
        reveal_strlit("last_updated = ?1");
        reveal_strlit(" = ?");
        reveal_strlit("UPDATE anime SET ");
        reveal_strlit(" WHERE id = ?");
    }
    let ghost cv = cols@.map_values(|t: String| t@);
    let ghost want = seq!["last_updated = ?1"@] + Seq::new(
        fields@.len(),
        |i: int| columns_of(fields@)[i] + " = ?"@ + decimal((i + 2) as nat),
    );
    let mut parts: Vec<String> = Vec::new();
    parts.push(owned("last_updated = ?1"));
    let mut k: usize = 0;
    while k < cols.len()
        invariant
            k <= cols@.len(),
            cols@.len() == fields@.len(),
            fields@.len() + 2 <= usize::MAX,
            cv == cols@.map_values(|t: String| t@),
            cv == columns_of(fields@),
            want == seq!["last_updated = ?1"@] + Seq::new(
                fields@.len(),
                |i: int| columns_of(fields@)[i] + " = ?"@ + decimal((i + 2) as nat),
            ),
            parts@.map_values(|t: String| t@) == want.subrange(0, k + 1),
        decreases cols@.len() - k,
    {
        let ghost before = parts@;
        let mut p = owned(cols[k].as_str());
        push_str(&mut p, " = ?");
        push_decimal(&mut p, (k + 2) as u64);
        parts.push(p);
        proof {
            assert(cv[k as int] == cols@[k as int]@);
            lemma_views_push(before, p);
            assert(want[k + 1] == p@);
            assert(want.subrange(0, k + 2) =~= want.subrange(0, k + 1).push(p@));
        }
        k = k + 1;
    }
    let mut sql = owned("UPDATE anime SET ");
    let body = join_commas(&parts);
    push_string(&mut sql, &body);
    push_str(&mut sql, " WHERE id = ?");
    push_decimal(&mut sql, (fields.len() + 2) as u64);
    proof {
        assert(want.subrange(0, cols@.len() + 1 as int) =~= want);
    }
    Ok(sql)
}

/// Pick the one entry a typed name resolves to: an error when nothing
/// matched, else the first match, together with how many matched.
pub fn resolve_by_name(matches: Vec<CatalogEntry>, name: &str) -> (r: Result<(CatalogEntry, usize), CatalogError>)
    ensures
        matches@.len() == 0 ==> (r matches Err(CatalogError::NoMatch { name: n }) && n@ == name@),
        matches@.len() > 0 ==> (r matches Ok((e, count)) && e == matches@[0] && count == matches@.len()),
{
    let count = matches.len();
    if count == 0 {
        return Err(CatalogError::NoMatch { name: owned(name) });
    }
    let mut matches = matches;
    let first = matches.remove(0);
    Ok((first, count))
}

// ---------------------------------------------------------------------------
// Staleness
// ---------------------------------------------------------------------------

/// The instant an RFC 3339 timestamp denotes, as whole seconds since the
/// Unix epoch plus the nanoseconds past that second; `None` when the text
/// is not RFC 3339.
pub uninterp spec fn rfc3339_instant(s: Seq<char>) -> Option<(i64, u32)>;

/// `chrono::DateTime::parse_from_rfc3339`, taken as (`timestamp()`,
/// `timestamp_subsec_nanos()`); the claim is only that the result is the
/// instant `rfc3339_instant` names for the text.
#[verifier::external_body]
fn parse_rfc3339(s: &str) -> (r: Option<(i64, u32)>)
    ensures
        r == rfc3339_instant(s@),
{
    chrono::DateTime::parse_from_rfc3339(s).ok().map(|t| (t.timestamp(), t.timestamp_subsec_nanos()))
}

/// `chrono::Utc::now()`, taken as (`timestamp()`, `timestamp_subsec_nanos()`).
/// It reads the clock, so nothing is promised of the value.
#[verifier::external_body]
fn utc_now_instant() -> (r: (i64, u32)) {
    let t = chrono::Utc::now();
    (t.timestamp(), t.timestamp_subsec_nanos())
}

/// Nanoseconds in six days.
pub open spec fn six_days_nanos() -> int {
    518_400_000_000_000int
}

/// More than six days separate `then` from `now`.
pub open spec fn older_than_six_days(now: (i64, u32), then: (i64, u32)) -> bool {
    (now.0 - then.0) * 1_000_000_000 + (now.1 - then.1) > six_days_nanos()
}

/// Staleness of `entry` at time `now`, given what its `last_updated` parses
/// to: only releasing entries can be stale, and one is when its timestamp
/// is more than six days old or cannot be parsed.
pub open spec fn stale_at(entry: CatalogEntry, parsed: Option<(i64, u32)>, now: (i64, u32)) -> bool {
    entry.status == AiringStatus::Releasing && match parsed {
        Some(t) => older_than_six_days(now, t),
        None => true,
    }
}

/// Staleness of `entry` at time `now`, given what its `last_updated` parsed to.
pub fn is_stale_at(entry: &CatalogEntry, parsed: Option<(i64, u32)>, now: (i64, u32)) -> (r: bool)
    ensures
        r == stale_at(*entry, parsed, now),
{
    if entry.status != AiringStatus::Releasing {
        return false;
    }
    match parsed {
        Some(t) => {
            let diff: i128 = (now.0 as i128 - t.0 as i128) * 1_000_000_000i128 + (now.1 as i128
                - t.1 as i128);
            diff > 518_400_000_000_000i128
        },
        None => true,
    }
}

/// The staleness check: only releasing entries ever need a freshness
/// check; one is stale when its last update is more than six days before
/// now, or when its timestamp can't be read (the safe direction).
pub fn is_stale(entry: &CatalogEntry) -> (r: bool)
    ensures
        entry.status != AiringStatus::Releasing ==> !r,
        entry.status == AiringStatus::Releasing && rfc3339_instant(entry.last_updated@) is None
            ==> r,
        r ==> entry.status == AiringStatus::Releasing,
        (exists|now: (i64, u32)| r == stale_at(*entry, rfc3339_instant(entry.last_updated@), now)),
{
    let parsed = parse_rfc3339(entry.last_updated.as_str());
    let now = utc_now_instant();
    is_stale_at(entry, parsed, now)
}

} // verus!
