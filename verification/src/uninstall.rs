//! The rules `anigit uninstall` follows before touching anything: which
//! install locations belong to a package manager (refused outright), and
//! which answer to the confirmation prompt counts as yes.
use vstd::prelude::*;

use crate::text::{chars_of, owned};

verus! {

/// A package manager whose installs `uninstall` refuses to touch.
#[derive(Debug, Clone, Copy, PartialEq, Eq)]
pub struct PackageManager {
    pub name: &'static str,
    pub uninstall_command: &'static str,
}

/// `c` separates path segments: `/` always, and `\` too where `backslash`
/// holds (as on Windows).
pub open spec fn is_sep(c: char, backslash: bool) -> bool {
    c == '/' || (backslash && c == '\\')
}

/// `seg` is one whole segment of `path`, segments being split by `is_sep`.
pub open spec fn has_segment(path: Seq<char>, seg: Seq<char>, backslash: bool) -> bool {
    exists|i: int| #[trigger] segment_at(path, seg, i, backslash)
}

/// `seg` occurs in `p` at `a` as a whole segment.
pub open spec fn segment_at(p: Seq<char>, seg: Seq<char>, a: int, backslash: bool) -> bool {
    0 <= a && a + seg.len() <= p.len() && p.subrange(a, a + seg.len()) == seg && (a == 0
        || is_sep(p[a - 1], backslash)) && (a + seg.len() == p.len() || is_sep(
        p[a + seg.len()],
        backslash,
    ))
}

fn sep_char(c: char, backslash: bool) -> (r: bool)
    ensures
        r == is_sep(c, backslash),
{
    c == '/' || (backslash && c == '\\')
}

/// `std::path::is_separator`: whether `c` separates path components on the
/// platform this was built for. `/` does on every platform and `\` only on
/// Windows; which of the two cases holds here is left open.
#[verifier::external_body]
fn is_separator(c: char) -> (r: bool)
    ensures
        c == '/' ==> r,
        r ==> c == '/' || c == '\\',
{
    std::path::is_separator(c)
}

/// `path` has a segment spelled exactly `seg`.
pub fn path_has_segment(path: &str, seg: &str, backslash: bool) -> (r: bool)
    ensures
        r == has_segment(path@, seg@, backslash),
{
    let p = chars_of(path);
    let s = chars_of(seg);
    let n = s.len();
    if n > p.len() {
        proof {
            assert forall|a: int| !segment_at(p@, s@, a, backslash) by {}
        }
        return false;
    }
    let mut a: usize = 0;
    while a <= p.len() - n
        invariant
            p@ == path@,
            s@ == seg@,
            n == s@.len(),
            n <= p@.len(),
            a <= p@.len() - n + 1,
            forall|k: int| 0 <= k < a ==> !segment_at(p@, s@, k, backslash),
        decreases p@.len() - n + 1 - a,
    {
        let starts = a == 0 || sep_char(p[a - 1], backslash);
        let ends = a + n == p.len() || sep_char(p[a + n], backslash);
        if starts && ends {
            let mut j: usize = 0;
            let mut same = true;
            while j < n
                invariant
                    j <= n,
                    n == s@.len(),
                    a + n <= p@.len(),
                    a + n <= p.len(),
                    same == (forall|m: int| 0 <= m < j ==> p@[a + m] == s@[m]),
                decreases n - j,
            {
                if p[a + j] != s[j] {
                    same = false;
                }
                j = j + 1;
            }
            if same {
                assert(p@.subrange(a as int, a + n) =~= s@);
                assert(segment_at(p@, s@, a as int, backslash));
                assert(has_segment(path@, seg@, backslash));
                return true;
            }
            proof {
                if p@.subrange(a as int, a + n) == s@ {
                    assert forall|m: int| 0 <= m < n implies p@[a + m] == s@[m] by {
                        assert(p@.subrange(a as int, a + n)[m] == p@[a + m]);
                    }
                }
            }
        }
        if a == p.len() - n {
            proof {
                assert forall|k: int| !segment_at(p@, s@, k, backslash) by {
                    if 0 <= k && k <= a {
                    }
                }
            }
            return false;
        }
        a = a + 1;
    }
    proof {
        assert forall|k: int| !segment_at(p@, s@, k, backslash) by {
            if 0 <= k && k < a {
            }
        }
    }
    false
}

/// Homebrew's install rule, with path segments split by `is_sep`: some
/// segment of the resolved binary path is exactly `Cellar` (a mere
/// substring such as `CellarDoor` is not).
pub fn package_manager_for(resolved: &str, backslash: bool) -> (r: Option<PackageManager>)
    ensures
        r is Some == has_segment(resolved@, "Cellar"@, backslash),
        r matches Some(m) ==> m.name@ == "Homebrew"@ && m.uninstall_command@
            == "brew uninstall anigit"@,
{
    if path_has_segment(resolved, "Cellar", backslash) {
        Some(PackageManager { name: "Homebrew", uninstall_command: "brew uninstall anigit" })
    } else {
        None
    }
}

/// The install is managed by Homebrew: some component of the resolved
/// binary path is exactly `Cellar`. Components split at `/`, and at `\` too
/// where the platform treats it as a separator.
pub fn detect_package_manager(resolved: &str) -> (r: Option<PackageManager>)
    ensures
        (r is Some == has_segment(resolved@, "Cellar"@, false)) || (r is Some == has_segment(
            resolved@,
            "Cellar"@,
            true,
        )),
        has_segment(resolved@, "Cellar"@, false) ==> r is Some,
        r is Some ==> has_segment(resolved@, "Cellar"@, true),
        r matches Some(m) ==> m.name@ == "Homebrew"@ && m.uninstall_command@
            == "brew uninstall anigit"@,
{
    let backslash = is_separator('\\');
    let r = package_manager_for(resolved, backslash);
    proof {
        lemma_segment_monotone(resolved@, "Cellar"@);
    }
    r
}

/// A segment split at `/` alone stays a segment when `\` splits too.
pub proof fn lemma_segment_monotone(path: Seq<char>, seg: Seq<char>)
    ensures
        has_segment(path, seg, false) ==> has_segment(path, seg, true),
{
    if has_segment(path, seg, false) {
        let a = choose|i: int| #[trigger] segment_at(path, seg, i, false);
        assert(segment_at(path, seg, a, true));
    }
}

/// `s` without any trailing `\r` and `\n` characters.
pub open spec fn strip_line_end(s: Seq<char>) -> Seq<char>
    decreases s.len(),
{
    if s.len() > 0 && (s.last() == '\r' || s.last() == '\n') {
        strip_line_end(s.drop_last())
    } else {
        s
    }
}

/// Only a literal lowercase `y` proceeds: the answer with its line ending
/// removed must be exactly `y`.
pub fn is_confirmed(line: &str) -> (r: bool)
    ensures
        r == (strip_line_end(line@) == "y"@),
{
    let cs = chars_of(line);
    let mut e = cs.len();
    assert(cs@.subrange(0, e as int) =~= line@);
    while e > 0 && (cs[e - 1] == '\r' || cs[e - 1] == '\n')
        invariant
            e <= cs@.len(),
            strip_line_end(line@) == strip_line_end(cs@.subrange(0, e as int)),
        decreases e,
    {
        proof {
            let t = cs@.subrange(0, e as int);
            assert(t.drop_last() =~= cs@.subrange(0, e - 1));
        }
        e = e - 1;
    }
    proof {
        assert(cs@.subrange(0, cs@.len() as int) =~= cs@);
        let t = cs@.subrange(0, e as int);
        if e > 0 {
            assert(t.last() == cs@[e - 1]);
        }
        assert(strip_line_end(t) == t);
        reveal_strlit("y");
        if e == 1 && cs@[0] == 'y' {
            assert(t =~= "y"@);
        }
        if t == "y"@ {
            assert(t.len() == 1 && t[0] == 'y');
        }
    }
    e == 1 && cs[0] == 'y'
}

} // verus!
