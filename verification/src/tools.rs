//! The workspace tools the agent calls (read, list, search, write, edit):
//! which tool needs which permission, how each one validates its arguments,
//! what it answers, and the text edits it makes. File access goes through a
//! [`WorkspaceBackend`].

use vstd::prelude::*;

use crate::assets::{AgentAsset, AssetKind};
use crate::paths;
use crate::json::{self, JsonValue, JsonModel, json_model, json_models, entry_models, get_str, get_bool};
use crate::secrets::{self, redact_secrets, resolve_under_root, is_sensitive_path, path_error_message};
use crate::text::{self, chars_of, string_of, slice_of, push_str, push_chars, str_eq, extend_chars, extend_str, decimal_exec};

verus! {

/// How much a tool may change, and so whether it needs the user's approval.
#[derive(Debug, Clone, Copy, PartialEq, Eq, Structural)]
pub enum PermissionLevel {
    /// Reads the workspace only.
    ReadOnly,
    /// Writes the workspace; asks first when approvals are on.
    Confirm,
    /// Anything else.
    Dangerous,
}

pub open spec fn is_read_tool(name: Seq<char>) -> bool {
    name == "read_file"@ || name == "list_directory"@ || name == "search_code"@ || name
        == "get_project_structure"@ || name == "list_agent_assets"@
}

pub open spec fn is_write_tool(name: Seq<char>) -> bool {
    name == "write_file"@ || name == "str_replace"@ || name == "create_directory"@
}

pub open spec fn spec_tool_permission(name: Seq<char>) -> PermissionLevel {
    if is_read_tool(name) {
        PermissionLevel::ReadOnly
    } else if is_write_tool(name) {
        PermissionLevel::Confirm
    } else {
        PermissionLevel::Dangerous
    }
}

/// The permission a tool call needs.
pub fn tool_permission(name: &str) -> (r: PermissionLevel)
    ensures
        r == spec_tool_permission(name@),
{
    if str_eq(name, "read_file") || str_eq(name, "list_directory") || str_eq(name, "search_code")
        || str_eq(name, "get_project_structure") || str_eq(name, "list_agent_assets") {
        PermissionLevel::ReadOnly
    } else if str_eq(name, "write_file") || str_eq(name, "str_replace") || str_eq(
        name,
        "create_directory",
    ) {
        PermissionLevel::Confirm
    } else {
        PermissionLevel::Dangerous
    }
}

/// One line of a code search.
#[derive(Debug, Clone)]
pub struct SearchHit {
    pub path: String,
    pub line: usize,
    pub text: String,
}

/// What a tool call answers.
#[derive(Debug, Clone)]
pub struct ToolResult {
    pub content: String,
    pub is_error: bool,
}

// ---------------------------------------------------------------------------
// Small text helpers
// ---------------------------------------------------------------------------
/// At most `max` characters of `s`, with `…` appended when some were cut.
pub open spec fn spec_truncate(s: Seq<char>, max: nat) -> Seq<char> {
    if s.len() <= max {
        s
    } else {
        s.take(max as int).push('…')
    }
}

/// Truncation keeps a prefix of at most `max` characters and adds one mark
/// only when something was cut; a text that fits comes back unchanged.
pub proof fn law_truncate_bounds(s: Seq<char>, max: nat)
    ensures
        spec_truncate(s, max).len() <= max + 1,
        s.len() <= max ==> spec_truncate(s, max) == s,
        s.len() > max ==> spec_truncate(s, max).len() == max + 1 && spec_truncate(s, max).take(
            max as int,
        ) == s.take(max as int),
{
    if s.len() > max {
        assert(spec_truncate(s, max).take(max as int) =~= s.take(max as int));
    }
}

pub fn truncate(s: &str, max: usize) -> (r: String)
    ensures
        r@ == spec_truncate(s@, max as nat),
{
    let v = chars_of(s);
    if v.len() <= max {
        string_of(&v)
    } else {
        let mut t = slice_of(&v, 0, max);
        t.push('…');
        assert(t@ =~= v@.take(max as int).push('…'));
        string_of(&t)
    }
}

/// Build output, dependencies and VCS metadata that searches skip.
pub open spec fn is_skipped_dir(c: Seq<char>) -> bool {
    c == "target"@ || c == "node_modules"@ || c == ".git"@ || c == "dist"@ || c == "build"@ || c
        == ".cargo"@
}

/// A path with a normal component that searches skip.
pub open spec fn spec_should_skip(path: Seq<char>) -> bool {
    exists|i: int|
        0 <= i < paths::spec_path_parts(path).len() && (#[trigger] paths::spec_path_parts(path)[i] matches paths::PartView::Normal(
            n,
        ) && is_skipped_dir(n))
}

/// Whether a path lies under a directory that searches skip.
pub fn should_skip_search_path(path: &str) -> (r: bool)
    ensures
        r == spec_should_skip(path@),
{
    let cs = paths::path_parts(path);
    let ghost cv = cs@.map_values(|p: paths::PathPart| paths::part_view(p));
    let mut i: usize = 0;
    while i < cs.len()
        invariant
            i <= cs.len(),
            cv == cs@.map_values(|p: paths::PathPart| paths::part_view(p)),
            cv == paths::spec_path_parts(path@),
            forall|j: int| 0 <= j < i ==> !(#[trigger] cv[j] matches paths::PartView::Normal(n) && is_skipped_dir(n)),
        decreases cs.len() - i,
    {
        assert(cv[i as int] == paths::part_view(cs@[i as int]));
        match &cs[i] {
            paths::PathPart::Normal(n) => {
                let c = n.as_str();
                if str_eq(c, "target") || str_eq(c, "node_modules") || str_eq(c, ".git") || str_eq(c, "dist")
                    || str_eq(c, "build") || str_eq(c, ".cargo") {
                    return true;
                }
            },
            _ => {},
        }
        i = i + 1;
    }
    false
}

// ---------------------------------------------------------------------------
// Exact-substring edits
// ---------------------------------------------------------------------------
/// Index of the first occurrence of `p` in `s`.
pub open spec fn first_occ(s: Seq<char>, p: Seq<char>) -> Option<int>
    decreases s.len(),
{
    if s.len() < p.len() {
        None
    } else if s.take(p.len() as int) == p {
        Some(0)
    } else if s.len() == 0 {
        None
    } else {
        match first_occ(s.drop_first(), p) {
            Some(i) => Some(i + 1),
            None => None,
        }
    }
}

/// Number of non-overlapping occurrences of `p` (`str::matches(p).count()`).
pub open spec fn count_matches(s: Seq<char>, p: Seq<char>) -> nat
    decreases s.len(),
{
    if p.len() == 0 {
        0
    } else {
        match first_occ(s, p) {
            Some(i) => if 0 <= i && i + p.len() <= s.len() {
                1 + count_matches(s.skip(i + p.len()), p)
            } else {
                0
            },
            None => 0,
        }
    }
}

/// Every non-overlapping occurrence of `p` replaced by `r` (`str::replace`).
pub open spec fn replace_all(s: Seq<char>, p: Seq<char>, r: Seq<char>) -> Seq<char>
    decreases s.len(),
{
    if p.len() == 0 {
        s
    } else {
        match first_occ(s, p) {
            Some(i) => if 0 <= i && i + p.len() <= s.len() {
                s.take(i) + r + replace_all(s.skip(i + p.len()), p, r)
            } else {
                s
            },
            None => s,
        }
    }
}

/// The first occurrence of `p` replaced by `r` (`str::replacen(p, r, 1)`).
pub open spec fn replace_first(s: Seq<char>, p: Seq<char>, r: Seq<char>) -> Seq<char> {
    match first_occ(s, p) {
        Some(i) => s.take(i) + r + s.skip(i + p.len()),
        None => s,
    }
}

pub open spec fn occurs_at(s: Seq<char>, p: Seq<char>, i: int) -> bool {
    0 <= i && i + p.len() <= s.len() && s.subrange(i, i + p.len()) == p
}

pub proof fn lemma_first_occ(s: Seq<char>, p: Seq<char>)
    ensures
        match first_occ(s, p) {
            Some(i) => occurs_at(s, p, i) && forall|j: int| 0 <= j < i ==> !#[trigger] occurs_at(s, p, j),
            None => forall|j: int| !#[trigger] occurs_at(s, p, j),
        },
    decreases s.len(),
{
    if s.len() < p.len() {
    } else if s.take(p.len() as int) == p {
        assert(s.subrange(0, p.len() as int) =~= s.take(p.len() as int));
    } else if s.len() == 0 {
        assert(s.take(p.len() as int) =~= p);
    } else {
        let t = s.drop_first();
        lemma_first_occ(t, p);
        assert(!occurs_at(s, p, 0)) by {
            if occurs_at(s, p, 0) {
                assert(s.subrange(0, p.len() as int) =~= s.take(p.len() as int));
            }
        }
        assert forall|j: int| 0 < j implies #[trigger] occurs_at(s, p, j) == occurs_at(t, p, j - 1) by {
            if j + p.len() <= s.len() {
                assert(s.subrange(j, j + p.len()) =~= t.subrange(j - 1, j - 1 + p.len()));
            }
        }
        match first_occ(t, p) {
            Some(i) => {
                assert(occurs_at(s, p, i + 1));
                assert forall|j: int| 0 <= j < i + 1 implies !#[trigger] occurs_at(s, p, j) by {
                    if j > 0 {
                        assert(!occurs_at(t, p, j - 1));
                    }
                }
            },
            None => {
                assert forall|j: int| !#[trigger] occurs_at(s, p, j) by {
                    if j > 0 {
                        assert(!occurs_at(t, p, j - 1));
                    }
                }
            },
        }
    }
}

proof fn lemma_first_occ_is(s: Seq<char>, p: Seq<char>, i: int)
    requires
        occurs_at(s, p, i),
        forall|j: int| 0 <= j < i ==> !#[trigger] occurs_at(s, p, j),
    ensures
        first_occ(s, p) == Some(i),
{
    lemma_first_occ(s, p);
    match first_occ(s, p) {
        Some(k) => {
            if k < i {
                assert(!occurs_at(s, p, k));
            }
            if k > i {
                assert(!occurs_at(s, p, i));
            }
        },
        None => {
            assert(!occurs_at(s, p, i));
        },
    }
}

fn occurs_at_exec(v: &Vec<char>, p: &Vec<char>, i: usize) -> (r: bool)
    requires
        i <= v.len(),
    ensures
        r == occurs_at(v@, p@, i as int),
{
    if p.len() > v.len() - i {
        return false;
    }
    let mut k: usize = 0;
    while k < p.len()
        invariant
            k <= p.len(),
            i + p.len() <= v.len(),
            forall|j: int| 0 <= j < k ==> v@[i + j] == p@[j],
        decreases p.len() - k,
    {
        if v[i + k] != p[k] {
            assert(v@.subrange(i as int, i + p.len())[k as int] != p@[k as int]);
            return false;
        }
        k = k + 1;
    }
    assert(v@.subrange(i as int, i + p.len()) =~= p@);
    true
}

/// Position of the first occurrence of `p` at or after `from`.
pub(crate) fn find_from(v: &Vec<char>, p: &Vec<char>, from: usize) -> (r: Option<usize>)
    requires
        from <= v.len(),
        p.len() > 0,
    ensures
        match first_occ(v@.skip(from as int), p@) {
            Some(i) => r == Some((from + i) as usize),
            None => r is None,
        },
        r matches Some(k) ==> from <= k && k + p.len() <= v.len(),
{
    let ghost t = v@.skip(from as int);
    let mut i: usize = from;
    while p.len() <= v.len() - i
        invariant
            from <= i <= v.len(),
            t == v@.skip(from as int),
            p.len() > 0,
            forall|j: int| 0 <= j < i - from ==> !#[trigger] occurs_at(t, p@, j),
        decreases v.len() - i,
    {
        let found = occurs_at_exec(v, p, i);
        assert(occurs_at(t, p@, i - from) == occurs_at(v@, p@, i as int)) by {
            if i + p.len() <= v.len() {
                assert(t.subrange(i - from, i - from + p.len()) =~= v@.subrange(i as int, i + p.len()));
            }
        }
        if found {
            proof {
                lemma_first_occ_is(t, p@, i - from);
            }
            return Some(i);
        }
        i = i + 1;
    }
    proof {
        lemma_first_occ(t, p@);
        if first_occ(t, p@) is Some {
            let k = first_occ(t, p@).unwrap();
            assert(occurs_at(t, p@, k));
            assert(k < i - from);
        }
    }
    None
}

/// The outcome of an exact-substring edit: how many times `old` occurs, and
/// the text with every occurrence (or the first one) replaced.
pub fn replace_in(content: &Vec<char>, old: &Vec<char>, new: &Vec<char>, all: bool) -> (r: (Vec<char>, usize))
    requires
        old.len() > 0,
    ensures
        r.1 == count_matches(content@, old@),
        r.0@ == (if all { replace_all(content@, old@, new@) } else { replace_first(content@, old@, new@) }),
{
    let mut out: Vec<char> = Vec::new();
    let mut pos: usize = 0;
    let mut count: usize = 0;
    let mut replaced_once = false;
    let ghost total = count_matches(content@, old@);
    let ghost goal = if all { replace_all(content@, old@, new@) } else { replace_first(content@, old@, new@) };
    assert(content@.skip(0) =~= content@);
    loop
        invariant
            pos <= content.len(),
            old.len() > 0,
            count <= pos,
            total == count_matches(content@, old@),
            count + count_matches(content@.skip(pos as int), old@) == total,
            all ==> out@ + replace_all(content@.skip(pos as int), old@, new@) == replace_all(content@, old@, new@),
            !all && !replaced_once ==> out@ + replace_first(content@.skip(pos as int), old@, new@) == replace_first(content@, old@, new@),
            !all && replaced_once ==> out@ + content@.skip(pos as int) == replace_first(content@, old@, new@),
        decreases content.len() - pos,
    {
        let ghost t = content@.skip(pos as int);
        let ghost o = out@;
        proof {
            lemma_first_occ(t, old@);
        }
        match find_from(content, old, pos) {
            Some(k) => {
                let ghost i = k - pos;
                let ghost rest = content@.skip(k + old.len());
                assert(t.take(i) =~= content@.subrange(pos as int, k as int));
                assert(t.skip(i + old.len()) =~= rest);
                assert(count_matches(t, old@) == 1 + count_matches(rest, old@));
                if all || !replaced_once {
                    extend_chars(&mut out, &slice_of(content, pos, k));
                    extend_chars(&mut out, new);
                    assert(out@ =~= o + t.take(i) + new@);
                    proof {
                        if all {
                            assert(replace_all(t, old@, new@) == t.take(i) + new@ + replace_all(rest, old@, new@));
                            assert(out@ + replace_all(rest, old@, new@) =~= o + replace_all(t, old@, new@));
                        } else {
                            assert(replace_first(t, old@, new@) == t.take(i) + new@ + rest);
                            assert(out@ + rest =~= o + replace_first(t, old@, new@));
                        }
                    }
                } else {
                    extend_chars(&mut out, &slice_of(content, pos, k + old.len()));
                    assert(out@ + rest =~= o + t);
                }
                count = count + 1;
                replaced_once = true;
                pos = k + old.len();
            },
            None => {
                extend_chars(&mut out, &slice_of(content, pos, content.len()));
                assert(out@ =~= o + t);
                assert(count_matches(t, old@) == 0);
                return (out, count);
            },
        }
    }
}


/// What a `str_replace` call does to a file's text: the updated text and the
/// answer, or why nothing was written.
pub open spec fn spec_edit_outcome(path: Seq<char>, content: Seq<char>, old: Seq<char>, new: Seq<char>, all: bool) -> Result<(Seq<char>, Seq<char>), Seq<char>> {
    let m = count_matches(content, old);
    if m == 0 {
        Err("old_string not found in `"@ + path + "`"@)
    } else if m > 1 && !all {
        Err(
            "old_string matched "@ + text::decimal(m) + " times in `"@ + path
                + "`; set replace_all=true or provide a more unique string"@,
        )
    } else {
        Ok(
            (
                if all { replace_all(content, old, new) } else { replace_first(content, old, new) },
                "Updated `"@ + path + "` ("@ + text::decimal(if all { m } else { 1 }) + " replacement"@ + (
                if all && m != 1 { "s"@ } else { ""@ }) + ")"@,
            ),
        )
    }
}

/// The edit `str_replace` makes to `content` once the file was read.
pub fn edit_outcome(path: &str, content: &str, old: &str, new: &str, all: bool) -> (r: Result<(String, String), String>)
    requires
        old@.len() > 0,
    ensures
        match spec_edit_outcome(path@, content@, old@, new@, all) {
            Ok((updated, msg)) => r matches Ok(p) && p.0@ == updated && p.1@ == msg,
            Err(e) => r matches Err(x) && x@ == e,
        },
{
    let (updated, m) = replace_in(&chars_of(content), &chars_of(old), &chars_of(new), all);
    if m == 0 {
        let mut e = String::new();
        push_str(&mut e, "old_string not found in `");
        push_str(&mut e, path);
        push_str(&mut e, "`");
        return Err(e);
    }
    if m > 1 && !all {
        let mut e = String::new();
        push_str(&mut e, "old_string matched ");
        push_chars(&mut e, &decimal_exec(m as u128));
        push_str(&mut e, " times in `");
        push_str(&mut e, path);
        push_str(&mut e, "`; set replace_all=true or provide a more unique string");
        return Err(e);
    }
    let n: usize = if all { m } else { 1 };
    let mut msg = String::new();
    push_str(&mut msg, "Updated `");
    push_str(&mut msg, path);
    push_str(&mut msg, "` (");
    push_chars(&mut msg, &decimal_exec(n as u128));
    push_str(&mut msg, " replacement");
    if all && m != 1 {
        push_str(&mut msg, "s");
    }
    push_str(&mut msg, ")");
    proof {
        assert("s"@ =~= "s"@);
    }
    assert(msg@ =~= "Updated `"@ + path@ + "` ("@ + text::decimal(if all { m as nat } else { 1 }) + " replacement"@ + (
        if all && m != 1 { "s"@ } else { ""@ }) + ")"@) by {
        if !(all && m != 1) {
            reveal_strlit("");
        }
    }
    Ok((string_of(&updated), msg))
}

// ---------------------------------------------------------------------------
// Search
// ---------------------------------------------------------------------------
pub struct HitView {
    pub path: Seq<char>,
    pub line: usize,
    pub text: Seq<char>,
}

pub open spec fn hit_view(h: SearchHit) -> HitView {
    HitView { path: h.path@, line: h.line, text: h.text@ }
}

pub open spec fn hits_view(hs: Seq<SearchHit>) -> Seq<HitView> {
    hs.map_values(|h: SearchHit| hit_view(h))
}

/// Longest hit text, in characters, before it is cut.
pub const MAX_HIT_CHARS: usize = 240;

/// The text shown for a matching line: cut to 240 characters, credentials
/// masked, trailing whitespace removed.
pub open spec fn hit_text(line: Seq<char>) -> Seq<char> {
    text::trim_end(secrets::spec_redact_secrets(spec_truncate(line, 240)))
}

/// Scan the lines of one file (numbered from `idx + 1`), adding a hit per
/// line that contains `query`; the scan stops once `max` hits are collected.
/// The flag tells whether that happened.
pub open spec fn scan_lines(rel: Seq<char>, ls: Seq<Seq<char>>, query: Seq<char>, max: nat, idx: nat, hits: Seq<HitView>) -> (Seq<HitView>, bool)
    decreases ls.len(),
{
    if ls.len() == 0 {
        (hits, false)
    } else if text::contains(ls[0], query) {
        let h2 = hits.push(HitView { path: rel, line: (idx + 1) as usize, text: hit_text(ls[0]) });
        if h2.len() >= max {
            (h2, true)
        } else {
            scan_lines(rel, ls.drop_first(), query, max, idx + 1, h2)
        }
    } else {
        scan_lines(rel, ls.drop_first(), query, max, idx + 1, hits)
    }
}

/// The hits a scan adds from line `idx` on (0-based) of the lines `all`: it
/// keeps the hits it started with; each hit it adds names `rel` and a line
/// `n` (1-based) after `idx` that holds the query, with that line's text;
/// the lines of its hits increase; and unless it stopped at `max` hits, every
/// line from `idx` on that holds the query has a hit.
proof fn lemma_scan_hits(
    rel: Seq<char>,
    all: Seq<Seq<char>>,
    query: Seq<char>,
    max: nat,
    idx: nat,
    hits: Seq<HitView>,
)
    requires
        idx <= all.len(),
        all.len() < usize::MAX,
    ensures
        ({
            let (r, stopped) = scan_lines(rel, all.skip(idx as int), query, max, idx, hits);
            &&& hits.len() <= r.len()
            &&& r.take(hits.len() as int) == hits
            &&& forall|k: int|
                hits.len() <= k < r.len() ==> idx + 1 <= (#[trigger] r[k]).line <= all.len() && r[k].path == rel
                    && text::contains(all[r[k].line - 1], query) && r[k].text == hit_text(all[r[k].line - 1])
            &&& forall|k1: int, k2: int|
                hits.len() <= k1 < k2 < r.len() ==> (#[trigger] r[k1]).line < (#[trigger] r[k2]).line
            &&& !stopped ==> forall|j: int|
                idx <= j < all.len() && text::contains(#[trigger] all[j], query) ==> exists|k: int|
                    hits.len() <= k < r.len() && (#[trigger] r[k]).line == j + 1
        }),
    decreases all.len() - idx,
{
    let ls = all.skip(idx as int);
    if ls.len() > 0 {
        assert(ls[0] == all[idx as int]);
        assert(ls.drop_first() =~= all.skip((idx + 1) as int));
        let h = HitView { path: rel, line: (idx + 1) as usize, text: hit_text(all[idx as int]) };
        if text::contains(ls[0], query) {
            let h2 = hits.push(h);
            if h2.len() < max {
                lemma_scan_hits(rel, all, query, max, idx + 1, h2);
                let (r, stopped) = scan_lines(rel, all.skip((idx + 1) as int), query, max, idx + 1, h2);
                assert(r.take(h2.len() as int) == h2);
                assert(r[hits.len() as int] == h2[hits.len() as int]);
                assert(r.take(hits.len() as int) =~= hits) by {
                    assert forall|i: int| 0 <= i < hits.len() implies r[i] == hits[i] by {
                        assert(r.take(h2.len() as int)[i] == h2[i]);
                    }
                }
                assert forall|k1: int, k2: int| hits.len() <= k1 < k2 < r.len() implies (#[trigger] r[k1]).line
                    < (#[trigger] r[k2]).line by {
                    if k1 == hits.len() {
                        assert(r[k1] == h2[hits.len() as int]);
                    }
                }
                if !stopped {
                    assert forall|j: int| idx <= j < all.len() && text::contains(#[trigger] all[j], query) implies exists|
                        k: int,
                    | hits.len() <= k < r.len() && (#[trigger] r[k]).line == j + 1 by {
                        if j == idx {
                            assert(r[hits.len() as int].line == j + 1);
                        }
                    }
                }
            } else {
                assert(h2.take(hits.len() as int) =~= hits);
            }
        } else {
            lemma_scan_hits(rel, all, query, max, idx + 1, hits);
        }
    } else {
        assert(hits.take(hits.len() as int) =~= hits);
    }
}

/// Each hit a search of one file adds points at its line: its line number
/// `n` is between 1 and the number of lines, line `n` holds the query, and
/// the hit shows that line's text under the file's path. The search keeps
/// the hits it was given, adds hits in increasing line order, and, unless it
/// stopped at `max` hits, adds one for every line that holds the query.
pub proof fn law_search_hits_point_at_lines(
    rel: Seq<char>,
    content: Seq<char>,
    query: Seq<char>,
    max: nat,
    hits: Seq<HitView>,
)
    requires
        text::lines(content).len() < usize::MAX,
    ensures
        ({
            let ls = text::lines(content);
            let (r, stopped) = scan_lines(rel, ls, query, max, 0, hits);
            &&& r.take(hits.len() as int) == hits
            &&& forall|k: int|
                hits.len() <= k < r.len() ==> 1 <= (#[trigger] r[k]).line <= ls.len() && r[k].path == rel
                    && text::contains(ls[r[k].line - 1], query) && r[k].text == hit_text(ls[r[k].line - 1])
            &&& forall|k1: int, k2: int|
                hits.len() <= k1 < k2 < r.len() ==> (#[trigger] r[k1]).line < (#[trigger] r[k2]).line
            &&& !stopped ==> forall|j: int|
                0 <= j < ls.len() && text::contains(#[trigger] ls[j], query) ==> exists|k: int|
                    hits.len() <= k < r.len() && (#[trigger] r[k]).line == j + 1
        }),
{
    let ls = text::lines(content);
    assert(ls.skip(0) =~= ls);
    lemma_scan_hits(rel, ls, query, max, 0, hits);
}

fn trim_end_string(s: &String) -> (r: String)
    ensures
        r@ == text::trim_end(s@),
{
    string_of(&text::trim_end_exec(&chars_of(s.as_str())))
}

/// Add the hits of one file to `hits`; true when `max` hits were reached.
pub fn search_content(rel: &str, content: &str, query: &str, max: usize, hits: &mut Vec<SearchHit>) -> (r: bool)
    requires
        old(hits)@.len() < max,
    ensures
        (hits_view(final(hits)@), r) == scan_lines(rel@, text::lines(content@), query@, max as nat, 0, hits_view(old(hits)@)),
{
    let ls = text::lines_exec(&chars_of(content));
    let ghost lv = ls@.map_values(|p: Vec<char>| p@);
    let ghost goal = scan_lines(rel@, lv, query@, max as nat, 0, hits_view(hits@));
    let q = chars_of(query);
    let mut i: usize = 0;
    assert(lv.skip(0) =~= lv);
    while i < ls.len()
        invariant
            i <= ls.len(),
            lv == ls@.map_values(|p: Vec<char>| p@),
            lv == text::lines(content@),
            goal == scan_lines(rel@, text::lines(content@), query@, max as nat, 0, hits_view(old(hits)@)),
            hits@.len() < max,
            q@ == query@,
            scan_lines(rel@, lv.skip(i as int), query@, max as nat, i as nat, hits_view(hits@)) == goal,
        decreases ls.len() - i,
    {
        assert(lv.skip(i as int)[0] == ls@[i as int]@);
        assert(lv.skip(i as int).drop_first() =~= lv.skip(i + 1));
        if text::contains_exec(&ls[i], &q) {
            let line = string_of(&ls[i]);
            let cut = truncate(line.as_str(), MAX_HIT_CHARS);
            let red = redact_secrets(cut.as_str());
            let t = trim_end_string(&red);
            let ghost before = hits_view(hits@);
            hits.push(SearchHit { path: string_of(&chars_of(rel)), line: i + 1, text: t });
            assert(hits_view(hits@) =~= before.push(HitView { path: rel@, line: (i + 1) as usize, text: hit_text(ls@[i as int]@) }));
            if hits.len() >= max {
                assert(text::contains(lv.skip(i as int)[0], query@));
                assert(scan_lines(rel@, lv.skip(i as int), query@, max as nat, i as nat, before) == (
                hits_view(hits@), true));
                return true;
            }
        }
        i = i + 1;
    }
    assert(lv.skip(i as int) =~= Seq::<Seq<char>>::empty());
    false
}

pub open spec fn hit_line(h: HitView) -> Seq<char> {
    h.path + ":"@ + text::decimal(h.line as nat) + ": "@ + text::trim_end(secrets::spec_redact_secrets(h.text)) + "\n"@
}

pub open spec fn hit_lines(hs: Seq<HitView>) -> Seq<char>
    decreases hs.len(),
{
    if hs.len() == 0 {
        Seq::empty()
    } else {
        hit_lines(hs.drop_last()) + hit_line(hs.last())
    }
}

/// The answer of `search_code`: one `path:line: text` line per hit, or
/// `No matches.`.
pub open spec fn spec_format_hits(hs: Seq<HitView>) -> Seq<char> {
    if hs.len() == 0 {
        "No matches."@
    } else {
        hit_lines(hs)
    }
}

pub fn format_hits(hits: &Vec<SearchHit>) -> (r: String)
    ensures
        r@ == spec_format_hits(hits_view(hits@)),
{
    if hits.len() == 0 {
        return string_of(&chars_of("No matches."));
    }
    let ghost hv = hits_view(hits@);
    let mut out = String::new();
    let mut i: usize = 0;
    while i < hits.len()
        invariant
            i <= hits.len(),
            hv == hits_view(hits@),
            out@ == hit_lines(hv.take(i as int)),
        decreases hits.len() - i,
    {
        assert(hv.take(i + 1).drop_last() =~= hv.take(i as int));
        assert(hv.take(i + 1).last() == hit_view(hits@[i as int]));
        let h = &hits[i];
        let safe = trim_end_string(&redact_secrets(h.text.as_str()));
        push_str(&mut out, h.path.as_str());
        push_str(&mut out, ":");
        push_chars(&mut out, &decimal_exec(h.line as u128));
        push_str(&mut out, ": ");
        push_str(&mut out, safe.as_str());
        push_str(&mut out, "\n");
        i = i + 1;
    }
    assert(hv.take(i as int) =~= hv);
    out
}

/// `items` joined with `sep`.
pub open spec fn join(items: Seq<Seq<char>>, sep: Seq<char>) -> Seq<char>
    decreases items.len(),
{
    if items.len() == 0 {
        Seq::empty()
    } else if items.len() == 1 {
        items[0]
    } else {
        join(items.drop_last(), sep) + sep + items.last()
    }
}

pub fn join_strings(items: &Vec<String>, sep: &str) -> (r: String)
    ensures
        r@ == join(items@.map_values(|s: String| s@), sep@),
{
    let ghost iv = items@.map_values(|s: String| s@);
    let mut out = String::new();
    let mut i: usize = 0;
    while i < items.len()
        invariant
            i <= items.len(),
            iv == items@.map_values(|s: String| s@),
            out@ == join(iv.take(i as int), sep@),
        decreases items.len() - i,
    {
        assert(iv.take(i + 1).drop_last() =~= iv.take(i as int));
        assert(iv.take(i + 1).last() == items@[i as int]@);
        if i > 0 {
            push_str(&mut out, sep);
        } else {
            assert(iv.take(1) =~= seq![items@[0]@]);
        }
        push_str(&mut out, items[i].as_str());
        i = i + 1;
    }
    assert(iv.take(i as int) =~= iv);
    out
}


// ---------------------------------------------------------------------------
// Arguments
// ---------------------------------------------------------------------------
/// `Value::get(key)` followed by `as_u64`.
pub open spec fn spec_get_u64(v: JsonValue, key: Seq<char>) -> Option<u64> {
    match json::spec_get(v, key) {
        Some(JsonValue::Number(n)) => n,
        _ => None,
    }
}

pub fn get_u64(v: &JsonValue, key: &str) -> (r: Option<u64>)
    ensures
        r == spec_get_u64(*v, key@),
{
    match v.get(key) {
        Some(m) => m.as_u64(),
        None => None,
    }
}

/// An integer argument: its value, else `default`, clamped to `lo..=hi`.
pub open spec fn spec_int_arg(v: JsonValue, key: Seq<char>, default: u64, lo: u64, hi: u64) -> u64 {
    let n = match spec_get_u64(v, key) {
        Some(n) => n,
        None => default,
    };
    if n < lo { lo } else if n > hi { hi } else { n }
}

pub fn int_arg(v: &JsonValue, key: &str, default: u64, lo: u64, hi: u64) -> (r: u64)
    requires
        lo <= hi,
    ensures
        r == spec_int_arg(*v, key@, default, lo, hi),
        lo <= r <= hi,
{
    let n = match get_u64(v, key) {
        Some(n) => n,
        None => default,
    };
    if n < lo {
        lo
    } else if n > hi {
        hi
    } else {
        n
    }
}

pub open spec fn spec_all_kinds() -> Seq<AssetKind> {
    seq![
        AssetKind::Mcps,
        AssetKind::Skills,
        AssetKind::Subagents,
        AssetKind::Rules,
        AssetKind::Commands,
        AssetKind::Hooks,
    ]
}

/// The kinds `list_agent_assets` reports: the one its `kind` argument names,
/// else all of them.
pub open spec fn spec_requested_kinds(args: JsonValue) -> Seq<AssetKind> {
    match json::spec_get_str(args, "kind"@) {
        Some(id) => match AssetKind::spec_from_id(id) {
            Some(k) => seq![k],
            None => spec_all_kinds(),
        },
        None => spec_all_kinds(),
    }
}

pub fn requested_kinds(args: &JsonValue) -> (r: Vec<AssetKind>)
    ensures
        r@ == spec_requested_kinds(*args),
{
    let all = vec![
        AssetKind::Mcps,
        AssetKind::Skills,
        AssetKind::Subagents,
        AssetKind::Rules,
        AssetKind::Commands,
        AssetKind::Hooks,
    ];
    assert(all@ =~= spec_all_kinds());
    match get_str(args, "kind") {
        Some(id) => match AssetKind::from_id(id.as_str()) {
            Some(k) => {
                let v = vec![k];
                assert(v@ =~= seq![k]);
                v
            },
            None => all,
        },
        None => all,
    }
}

// ---------------------------------------------------------------------------
// Project structure and asset listings
// ---------------------------------------------------------------------------
/// One entry of a walk of the workspace: its path, its path relative to the
/// root, its file name, and whether it is a directory or the root itself.
#[derive(Debug, Clone)]
pub struct WalkEntry {
    pub path: String,
    pub rel: String,
    pub name: String,
    pub is_dir: bool,
    pub is_root: bool,
}

/// Number of path separators (`/` or `\`) in `s`.
pub open spec fn count_seps(s: Seq<char>) -> nat
    decreases s.len(),
{
    if s.len() == 0 {
        0
    } else {
        count_seps(s.drop_last()) + if s.last() == '/' || s.last() == '\\' { 1nat } else { 0nat }
    }
}

/// `n` levels of two-space indentation.
pub open spec fn indent(n: nat) -> Seq<char>
    decreases n,
{
    if n == 0 {
        Seq::empty()
    } else {
        indent((n - 1) as nat) + "  "@
    }
}

/// The line of a walk entry: indented by its depth, directories marked `/`.
pub open spec fn walk_line(e: WalkEntry) -> Seq<char> {
    indent(count_seps(e.rel@)) + e.name@ + if e.is_dir { "/"@ } else { Seq::empty() }
}

/// The lines after the root line: the entries in walk order (the root and
/// skipped directories left out), cut after `max` entries with a note.
pub open spec fn structure_lines(es: Seq<WalkEntry>, max: nat, count: nat, lines: Seq<Seq<char>>) -> Seq<Seq<char>>
    decreases es.len(),
{
    if es.len() == 0 {
        lines
    } else {
        let e = es[0];
        if e.is_root || spec_should_skip(e.path@) {
            structure_lines(es.drop_first(), max, count, lines)
        } else {
            let l2 = lines.push(walk_line(e));
            if count + 1 >= max {
                l2.push("… (truncated)"@)
            } else {
                structure_lines(es.drop_first(), max, count + 1, l2)
            }
        }
    }
}

/// The answer of `get_project_structure` for a walk of the root.
pub open spec fn spec_project_structure(root: Seq<char>, es: Seq<WalkEntry>, max: nat) -> Seq<char> {
    join(structure_lines(es, max, 0, seq![root + "/"@]), "\n"@)
}

fn count_seps_exec(v: &Vec<char>) -> (r: usize)
    ensures
        r == count_seps(v@),
{
    let mut n: usize = 0;
    let mut i: usize = 0;
    while i < v.len()
        invariant
            i <= v.len(),
            n == count_seps(v@.take(i as int)),
            n <= i,
        decreases v.len() - i,
    {
        assert(v@.take(i + 1).drop_last() =~= v@.take(i as int));
        if v[i] == '/' || v[i] == '\\' {
            n = n + 1;
        }
        i = i + 1;
    }
    assert(v@.take(i as int) =~= v@);
    n
}

fn walk_line_exec(e: &WalkEntry) -> (r: String)
    ensures
        r@ == walk_line(*e),
{
    let depth = count_seps_exec(&chars_of(e.rel.as_str()));
    let mut out = String::new();
    let mut k: usize = 0;
    while k < depth
        invariant
            k <= depth,
            out@ == indent(k as nat),
        decreases depth - k,
    {
        push_str(&mut out, "  ");
        k = k + 1;
    }
    push_str(&mut out, e.name.as_str());
    if e.is_dir {
        push_str(&mut out, "/");
    } else {
        assert(out@ + Seq::<char>::empty() =~= out@);
    }
    out
}

fn push_string(v: &mut Vec<String>, s: String)
    ensures
        final(v)@.map_values(|x: String| x@) == old(v)@.map_values(|x: String| x@).push(s@),
{
    let ghost before = v@.map_values(|x: String| x@);
    v.push(s);
    assert(v@.map_values(|x: String| x@) =~= before.push(s@));
}

/// The answer of `get_project_structure`: the root, then one indented line
/// per entry, at most `max` entries.
pub fn format_project_structure(root: &str, entries: &Vec<WalkEntry>, max: usize) -> (r: String)
    ensures
        r@ == spec_project_structure(root@, entries@, max as nat),
{
    let mut lines: Vec<String> = Vec::new();
    let mut first = String::new();
    push_str(&mut first, root);
    push_str(&mut first, "/");
    push_string(&mut lines, first);
    assert(lines@.map_values(|x: String| x@) =~= seq![root@ + "/"@]);
    let ghost goal = structure_lines(entries@, max as nat, 0, seq![root@ + "/"@]);
    let mut count: usize = 0;
    let mut i: usize = 0;
    assert(entries@.skip(0) =~= entries@);
    while i < entries.len()
        invariant
            i <= entries.len(),
            count <= i,
            goal == structure_lines(entries@, max as nat, 0, seq![root@ + "/"@]),
            structure_lines(entries@.skip(i as int), max as nat, count as nat, lines@.map_values(|x: String| x@)) == goal,
        decreases entries.len() - i,
    {
        assert(entries@.skip(i as int)[0] == entries@[i as int]);
        assert(entries@.skip(i as int).drop_first() =~= entries@.skip(i + 1));
        let e = &entries[i];
        if e.is_root || should_skip_search_path(e.path.as_str()) {
        } else {
            push_string(&mut lines, walk_line_exec(e));
            count = count + 1;
            if count >= max {
                push_string(&mut lines, string_of(&chars_of("… (truncated)")));
                return join_strings(&lines, "\n");
            }
        }
        i = i + 1;
    }
    assert(entries@.skip(i as int) =~= Seq::<WalkEntry>::empty());
    join_strings(&lines, "\n")
}

/// The line of one asset in the listing.
pub open spec fn asset_line(a: AgentAsset) -> Seq<char> {
    "  - "@ + a.name@ + " ["@ + text::lower(a.scope.spec_label()) + " · "@ + (if a.enabled {
        "enabled"@
    } else {
        "disabled"@
    }) + "] "@ + a.path@
}

/// The lines of the assets of one kind: one per asset, followed by its
/// trimmed description when there is one.
pub open spec fn asset_lines(assets: Seq<AgentAsset>) -> Seq<Seq<char>>
    decreases assets.len(),
{
    if assets.len() == 0 {
        Seq::empty()
    } else {
        let a = assets.last();
        let d = text::trim(a.description@);
        asset_lines(assets.drop_last()).push(asset_line(a)) + if d.len() > 0 {
            seq!["      "@ + d]
        } else {
            Seq::empty()
        }
    }
}

/// The section of one kind: a heading with the count, then the assets or
/// `(none)`.
pub open spec fn group_lines(kind: AssetKind, assets: Seq<AgentAsset>) -> Seq<Seq<char>> {
    seq!["## "@ + kind.spec_label() + " ("@ + text::decimal(assets.len()) + ")"@] + if assets.len()
        == 0 {
        seq!["  (none)"@]
    } else {
        asset_lines(assets)
    }
}

pub open spec fn groups_lines(groups: Seq<(AssetKind, Vec<AgentAsset>)>) -> Seq<Seq<char>>
    decreases groups.len(),
{
    if groups.len() == 0 {
        Seq::empty()
    } else {
        groups_lines(groups.drop_last()) + group_lines(groups.last().0, groups.last().1@)
    }
}

/// The answer of `list_agent_assets` for the assets found of each kind.
pub open spec fn spec_format_asset_listing(groups: Seq<(AssetKind, Vec<AgentAsset>)>) -> Seq<char> {
    join(groups_lines(groups), "\n"@)
}

fn asset_line_exec(a: &AgentAsset) -> (r: String)
    ensures
        r@ == asset_line(*a),
{
    let mut out = String::new();
    push_str(&mut out, "  - ");
    push_str(&mut out, a.name.as_str());
    push_str(&mut out, " [");
    push_chars(&mut out, &text::lower_exec(&chars_of(a.scope.label())));
    push_str(&mut out, " · ");
    if a.enabled {
        push_str(&mut out, "enabled");
    } else {
        push_str(&mut out, "disabled");
    }
    push_str(&mut out, "] ");
    push_str(&mut out, a.path.as_str());
    out
}

pub fn format_asset_listing(groups: &Vec<(AssetKind, Vec<AgentAsset>)>) -> (r: String)
    ensures
        r@ == spec_format_asset_listing(groups@),
{
    let mut lines: Vec<String> = Vec::new();
    let mut g: usize = 0;
    assert(lines@.map_values(|x: String| x@) =~= groups_lines(groups@.take(0)));
    while g < groups.len()
        invariant
            g <= groups.len(),
            lines@.map_values(|x: String| x@) == groups_lines(groups@.take(g as int)),
        decreases groups.len() - g,
    {
        assert(groups@.take(g + 1).drop_last() =~= groups@.take(g as int));
        assert(groups@.take(g + 1).last() == groups@[g as int]);
        let ghost start = lines@.map_values(|x: String| x@);
        let kind = groups[g].0;
        let assets = &groups[g].1;
        let mut head = String::new();
        push_str(&mut head, "## ");
        push_str(&mut head, kind.label());
        push_str(&mut head, " (");
        push_chars(&mut head, &decimal_exec(assets.len() as u128));
        push_str(&mut head, ")");
        push_string(&mut lines, head);
        if assets.len() == 0 {
            push_string(&mut lines, string_of(&chars_of("  (none)")));
            assert(lines@.map_values(|x: String| x@) =~= start + group_lines(kind, assets@));
        } else {
            let ghost mid = lines@.map_values(|x: String| x@);
            let mut j: usize = 0;
            assert(asset_lines(assets@.take(0)) =~= Seq::<Seq<char>>::empty());
            while j < assets.len()
                invariant
                    j <= assets.len(),
                    lines@.map_values(|x: String| x@) == mid + asset_lines(assets@.take(j as int)),
                decreases assets.len() - j,
            {
                assert(assets@.take(j + 1).drop_last() =~= assets@.take(j as int));
                assert(assets@.take(j + 1).last() == assets@[j as int]);
                let a = &assets[j];
                push_string(&mut lines, asset_line_exec(a));
                let d = text::trim_str(a.description.as_str());
                if d.len() > 0 {
                    let mut dl = String::new();
                    push_str(&mut dl, "      ");
                    push_chars(&mut dl, &d);
                    push_string(&mut lines, dl);
                }
                assert(lines@.map_values(|x: String| x@) =~= mid + asset_lines(assets@.take(j + 1)));
                j = j + 1;
            }
            assert(assets@.take(j as int) =~= assets@);
            assert(lines@.map_values(|x: String| x@) =~= start + group_lines(kind, assets@));
        }
        g = g + 1;
    }
    assert(groups@.take(g as int) =~= groups@);
    join_strings(&lines, "\n")
}


// ---------------------------------------------------------------------------
// The workspace
// ---------------------------------------------------------------------------
/// Access to the files of a workspace. Errors are reported as text. The
/// answers depend on the filesystem, so nothing is assumed of them.
pub trait WorkspaceBackend {
    // What the backend can answer to each request. The library states what it
    // asked and what it did with the answer over these relations; a backend
    // that says nothing of its answers admits every one (the default).
    /// `r` is an answer the backend can give when it reads the file `path`.
    closed spec fn read_answer(&self, path: Seq<char>, r: Result<Seq<char>, Seq<char>>) -> bool {
        true
    }

    /// `r` is an answer the backend can give when it writes `content` to the
    /// file `path`.
    closed spec fn write_answer(&self, path: Seq<char>, content: Seq<char>, r: Result<(), Seq<char>>) -> bool {
        true
    }

    /// `r` is an answer the backend can give when it creates the directory
    /// `path`.
    closed spec fn create_answer(&self, path: Seq<char>, r: Result<(), Seq<char>>) -> bool {
        true
    }

    /// `r` is an answer the backend can give when it lists the directory
    /// `path`.
    closed spec fn list_answer(&self, path: Seq<char>, r: Result<Seq<Seq<char>>, Seq<char>>) -> bool {
        true
    }

    /// `r` is an answer the backend can give when asked for the real path of
    /// `path`.
    closed spec fn canonical_answer(&self, path: Seq<char>, r: Result<Seq<char>, Seq<char>>) -> bool {
        true
    }

    /// `b` is an answer the backend can give when asked whether `path` exists.
    closed spec fn exists_answer(&self, path: Seq<char>, b: bool) -> bool {
        true
    }

    /// The workspace root.
    fn root(&self) -> String;

    fn read_file(&self, path: &str) -> (r: Result<String, String>)
        ensures
            self.read_answer(path@, secrets::result_seq(r)),
    ;

    /// Writes `content`, creating parent directories as needed.
    fn write_file(&self, path: &str, content: &str) -> (r: Result<(), String>)
        ensures
            self.write_answer(path@, content@, unit_result(r)),
    ;

    fn create_directory(&self, path: &str) -> (r: Result<(), String>)
        ensures
            self.create_answer(path@, unit_result(r)),
    ;

    /// Names of the entries of a directory, directories marked with `/`.
    fn list_directory(&self, path: &str) -> (r: Result<Vec<String>, String>)
        ensures
            self.list_answer(path@, names_result(r)),
    ;

    /// Hits of a lexical search of the workspace, at most `max_results`.
    fn search_code(&self, query: &str, max_results: usize) -> Result<Vec<SearchHit>, String>;

    /// The real path of `path`.
    fn canonicalize(&self, path: &str) -> (r: Result<String, String>)
        ensures
            self.canonical_answer(path@, secrets::result_seq(r)),
    ;

    fn path_exists(&self, path: &str) -> (r: bool)
        ensures
            self.exists_answer(path@, r),
    ;

    /// The entries of the workspace, at most `max_depth` levels deep, in
    /// walk order, the root first.
    fn walk(&self, max_depth: usize) -> Vec<WalkEntry>;

    /// The agent assets of one kind visible from the workspace.
    fn discover_kind(&self, kind: AssetKind) -> Vec<AgentAsset>;
}


/// The view of an answer that carries no value.
pub open spec fn unit_result(r: Result<(), String>) -> Result<(), Seq<char>> {
    match r {
        Ok(()) => Ok(()),
        Err(e) => Err(e@),
    }
}

/// The view of a directory listing.
pub open spec fn names_result(r: Result<Vec<String>, String>) -> Result<Seq<Seq<char>>, Seq<char>> {
    match r {
        Ok(v) => Ok(v@.map_values(|s: String| s@)),
        Err(e) => Err(e@),
    }
}

/// A call of a tool by the model.
#[derive(Debug)]
pub struct ToolCall {
    pub id: String,
    pub name: String,
    pub arguments: JsonValue,
}

/// What tools run against.
pub struct ToolContext<'a, B: WorkspaceBackend> {
    pub backend: &'a B,
    /// The workspace root paths are resolved under (what the backend's
    /// `root` gives).
    pub root: String,
    pub max_file_bytes: usize,
}

/// The refusal of a path argument that is missing or that climbs out of the
/// workspace or is absolute.
pub open spec fn path_arg_error(p: Option<Seq<char>>) -> Option<Seq<char>> {
    match p {
        None => Some("missing path"@),
        Some(path) => match secrets::spec_normalize_relative(path) {
            Err(e) => Some(path_error_message(e)),
            Ok(_) => None,
        },
    }
}

/// The tool names are pairwise distinct.
pub proof fn lemma_tool_names_distinct()
    ensures
        "read_file"@ != "list_directory"@,
        "read_file"@ != "search_code"@,
        "read_file"@ != "get_project_structure"@,
        "read_file"@ != "list_agent_assets"@,
        "read_file"@ != "write_file"@,
        "read_file"@ != "str_replace"@,
        "read_file"@ != "create_directory"@,
        "list_directory"@ != "search_code"@,
        "list_directory"@ != "get_project_structure"@,
        "list_directory"@ != "list_agent_assets"@,
        "list_directory"@ != "write_file"@,
        "list_directory"@ != "str_replace"@,
        "list_directory"@ != "create_directory"@,
        "search_code"@ != "get_project_structure"@,
        "search_code"@ != "list_agent_assets"@,
        "search_code"@ != "write_file"@,
        "search_code"@ != "str_replace"@,
        "search_code"@ != "create_directory"@,
        "get_project_structure"@ != "list_agent_assets"@,
        "get_project_structure"@ != "write_file"@,
        "get_project_structure"@ != "str_replace"@,
        "get_project_structure"@ != "create_directory"@,
        "list_agent_assets"@ != "write_file"@,
        "list_agent_assets"@ != "str_replace"@,
        "list_agent_assets"@ != "create_directory"@,
        "write_file"@ != "str_replace"@,
        "write_file"@ != "create_directory"@,
        "str_replace"@ != "create_directory"@,
{
    reveal_strlit("read_file");
    reveal_strlit("list_directory");
    reveal_strlit("search_code");
    reveal_strlit("get_project_structure");
    reveal_strlit("list_agent_assets");
    reveal_strlit("write_file");
    reveal_strlit("str_replace");
    reveal_strlit("create_directory");
    assert("read_file"@.len() == 9);
    assert("list_directory"@.len() == 14);
    assert("search_code"@.len() == 11);
    assert("get_project_structure"@.len() == 21);
    assert("list_agent_assets"@.len() == 17);
    assert("write_file"@.len() == 10);
    assert("str_replace"@.len() == 11);
    assert("create_directory"@.len() == 16);
    assert("search_code"@[1] != "str_replace"@[1]);
}

/// How a call is refused for its arguments alone, before the workspace is
/// touched; `None` when the arguments are acceptable.
pub open spec fn spec_arg_error(name: Seq<char>, args: JsonValue) -> Option<Seq<char>> {
    if name == "read_file"@ || name == "create_directory"@ {
        path_arg_error(json::spec_get_str(args, "path"@))
    } else if name == "list_directory"@ {
        match json::spec_get_str(args, "path"@) {
            Some(p) => path_arg_error(Some(p)),
            None => path_arg_error(Some("."@)),
        }
    } else if name == "search_code"@ {
        if json::spec_get_str(args, "query"@) is None { Some("missing query"@) } else { None }
    } else if name == "write_file"@ {
        if json::spec_get_str(args, "path"@) is None {
            Some("missing path"@)
        } else if json::spec_get_str(args, "content"@) is None {
            Some("missing content"@)
        } else {
            path_arg_error(json::spec_get_str(args, "path"@))
        }
    } else if name == "str_replace"@ {
        if json::spec_get_str(args, "path"@) is None {
            Some("missing path"@)
        } else if json::spec_get_str(args, "old_string"@) is None {
            Some("missing old_string"@)
        } else if json::spec_get_str(args, "new_string"@) is None {
            Some("missing new_string"@)
        } else if json::spec_get_str(args, "old_string"@).unwrap().len() == 0 {
            Some("old_string must not be empty"@)
        } else {
            path_arg_error(json::spec_get_str(args, "path"@))
        }
    } else {
        None
    }
}

pub open spec fn is_known_tool(name: Seq<char>) -> bool {
    is_read_tool(name) || is_write_tool(name)
}

fn err_text(s: &str) -> (r: Result<String, String>)
    ensures
        r matches Err(e) && e@ == s@,
{
    Err(string_of(&chars_of(s)))
}

fn prefixed_text(prefix: &str, s: &str) -> (r: String)
    ensures
        r@ == prefix@ + s@,
{
    let mut out = String::new();
    push_str(&mut out, prefix);
    push_str(&mut out, s);
    out
}

/// The answer of `read_file` once the file was read: refused when larger
/// than the limit (in bytes), else the text with credentials masked.
pub open spec fn spec_read_answer(content: Seq<char>, max: nat) -> Result<Seq<char>, Seq<char>> {
    if text::utf8_len_seq(content) > max {
        Err(
            "file too large ("@ + text::decimal(text::utf8_len_seq(content)) + " bytes > "@ + text::decimal(
                max,
            ) + " limit)"@,
        )
    } else {
        Ok(secrets::spec_redact_secrets(content))
    }
}

pub fn read_answer(content: &str, max: usize) -> (r: Result<String, String>)
    ensures
        match spec_read_answer(content@, max as nat) {
            Ok(x) => r matches Ok(y) && y@ == x,
            Err(x) => r matches Err(y) && y@ == x,
        },
{
    let v = chars_of(content);
    let n = text::utf8_len_prefix(&v, v.len());
    assert(v@.take(v.len() as int) =~= v@);
    if n > max as u128 {
        let mut e = String::new();
        push_str(&mut e, "file too large (");
        push_chars(&mut e, &decimal_exec(n));
        push_str(&mut e, " bytes > ");
        push_chars(&mut e, &decimal_exec(max as u128));
        push_str(&mut e, " limit)");
        return Err(e);
    }
    Ok(redact_secrets(content))
}

/// `out` is the answer of `read_file` once it read the file `t`: for some
/// answer the backend can give to that read, its error, or
/// [`spec_read_answer`] of the text.
pub open spec fn read_outcome<B: WorkspaceBackend>(b: &B, t: Seq<char>, max: nat, out: Result<Seq<char>, Seq<char>>) -> bool {
    exists|a: Result<Seq<char>, Seq<char>>|
        #[trigger] b.read_answer(t, a) && out == match a {
            Ok(c) => spec_read_answer(c, max),
            Err(e) => Err(e),
        }
}

/// `out` is the answer of a write of `text` to the file `t`: for some answer
/// the backend can give to that write, its error, or `msg`.
pub open spec fn write_outcome<B: WorkspaceBackend>(
    b: &B,
    t: Seq<char>,
    text: Seq<char>,
    msg: Seq<char>,
    out: Result<Seq<char>, Seq<char>>,
) -> bool {
    exists|a: Result<(), Seq<char>>|
        #[trigger] b.write_answer(t, text, a) && out == match a {
            Ok(_) => Ok::<Seq<char>, Seq<char>>(msg),
            Err(e) => Err(e),
        }
}

/// `out` is the answer of creating the directory `t`: for some answer the
/// backend can give, its error, or `msg`.
pub open spec fn create_outcome<B: WorkspaceBackend>(b: &B, t: Seq<char>, msg: Seq<char>, out: Result<Seq<char>, Seq<char>>) -> bool {
    exists|a: Result<(), Seq<char>>|
        #[trigger] b.create_answer(t, a) && out == match a {
            Ok(_) => Ok::<Seq<char>, Seq<char>>(msg),
            Err(e) => Err(e),
        }
}

/// `out` is the answer of listing the directory `t`: for some answer the
/// backend can give, its error, or the names one per line.
pub open spec fn list_outcome<B: WorkspaceBackend>(b: &B, t: Seq<char>, out: Result<Seq<char>, Seq<char>>) -> bool {
    exists|a: Result<Seq<Seq<char>>, Seq<char>>|
        #[trigger] b.list_answer(t, a) && out == match a {
            Ok(names) => Ok::<Seq<char>, Seq<char>>(join(names, "\n"@)),
            Err(e) => Err(e),
        }
}

/// `out` is the answer of `str_replace` on the file `t`: it reads the file
/// (an answer the backend can give); on its text `c` the edit
/// [`spec_str_replace_answer`] either refuses, and nothing more is asked, or
/// gives the new text, which is written ([`write_outcome`]).
pub open spec fn replace_outcome<B: WorkspaceBackend>(b: &B, t: Seq<char>, args: JsonValue, out: Result<Seq<char>, Seq<char>>) -> bool {
    exists|a: Result<Seq<char>, Seq<char>>|
        #[trigger] b.read_answer(t, a) && match a {
            Err(e) => out == Err::<Seq<char>, Seq<char>>(e),
            Ok(c) => match spec_str_replace_answer(args, c) {
                Err(e) => out == Err::<Seq<char>, Seq<char>>(e),
                Ok(p) => write_outcome(b, t, p.0, p.1, out),
            },
        }
}

/// The message of a write by `write_file`.
pub open spec fn spec_write_message(args: JsonValue) -> Seq<char> {
    "Wrote "@ + text::decimal(text::utf8_len_seq(json::spec_get_str(args, "content"@).unwrap())) + " bytes to `"@
        + json::spec_get_str(args, "path"@).unwrap() + "`"@
}

/// The `path` argument of a tool (`.` when there is none).
pub open spec fn tool_path(args: JsonValue) -> Seq<char> {
    match json::spec_get_str(args, "path"@) {
        Some(p) => p,
        None => "."@,
    }
}

/// The tools that work on their `path` argument.
pub open spec fn is_path_tool(name: Seq<char>) -> bool {
    tool_verb(name) is Some || name == "list_directory"@
}

/// The answer `out` of a path tool whose arguments were accepted: its path
/// argument (`.` when `list_directory` has none) resolves as
/// [`can_resolve`] says; the file tools refuse a sensitive target
/// ([`spec_checked`]); then the backend is asked about the target, and the
/// answer is what it gave.
pub open spec fn path_tool_outcome<B: WorkspaceBackend>(
    b: &B,
    root: Seq<char>,
    max: nat,
    name: Seq<char>,
    args: JsonValue,
    out: Result<Seq<char>, Seq<char>>,
) -> bool {
    let path = tool_path(args);
    exists|res: Result<Seq<char>, Seq<char>>|
        #[trigger] can_resolve(b, root, path, res) && if name == "list_directory"@ {
            match res {
                Err(e) => out == Err::<Seq<char>, Seq<char>>(e),
                Ok(t) => list_outcome(b, t, out),
            }
        } else {
            match spec_checked(res, path, tool_verb(name).unwrap()) {
                Err(e) => out == Err::<Seq<char>, Seq<char>>(e),
                Ok(t) => if name == "read_file"@ {
                    read_outcome(b, t, max, out)
                } else if name == "create_directory"@ {
                    create_outcome(b, t, "Created directory `"@ + path + "`"@, out)
                } else if name == "write_file"@ {
                    write_outcome(b, t, json::spec_get_str(args, "content"@).unwrap(), spec_write_message(args), out)
                } else {
                    replace_outcome(b, t, args, out)
                },
            }
        }
}

fn tool_read_file<B: WorkspaceBackend>(ctx: &ToolContext<B>, args: &JsonValue) -> (r: Result<String, String>)
    ensures
        path_arg_error(json::spec_get_str(*args, "path"@)) matches Some(e) ==> (r matches Err(m) && m@ == e),
        spec_arg_error("read_file"@, *args) is None ==> path_tool_outcome(
            ctx.backend,
            ctx.root@,
            ctx.max_file_bytes as nat,
            "read_file"@,
            *args,
            secrets::result_seq(r),
        ),
{
    proof {
        lemma_tool_names_distinct();
    }
    let path = match get_str(args, "path") {
        Some(p) => p,
        None => return err_text("missing path"),
    };
    let checked = checked_target(ctx, path.as_str(), "read");
    let ghost res = choose|res: Result<Seq<char>, Seq<char>>|
        can_resolve(ctx.backend, ctx.root@, path@, res) && secrets::result_seq(checked) == spec_checked(res, path@, "read"@);
    let target = match checked {
        Err(e) => return Err(e),
        Ok(t) => t,
    };
    let read = ctx.backend.read_file(target.as_str());
    let ghost a = secrets::result_seq(read);
    let r = match read {
        Err(e) => Err(e),
        Ok(content) => read_answer(content.as_str(), ctx.max_file_bytes),
    };
    assert(read_outcome(ctx.backend, target@, ctx.max_file_bytes as nat, secrets::result_seq(r)));
    assert(tool_path(*args) == path@);
    assert(can_resolve(ctx.backend, ctx.root@, tool_path(*args), res));
    assert(path_tool_outcome(ctx.backend, ctx.root@, ctx.max_file_bytes as nat, "read_file"@, *args, secrets::result_seq(r)));
    r
}

fn tool_list_directory<B: WorkspaceBackend>(ctx: &ToolContext<B>, args: &JsonValue) -> (r: Result<String, String>)
    ensures
        (match json::spec_get_str(*args, "path"@) {
            Some(p) => path_arg_error(Some(p)),
            None => path_arg_error(Some("."@)),
        }) matches Some(e) ==> (r matches Err(m) && m@ == e),
        spec_arg_error("list_directory"@, *args) is None ==> path_tool_outcome(
            ctx.backend,
            ctx.root@,
            ctx.max_file_bytes as nat,
            "list_directory"@,
            *args,
            secrets::result_seq(r),
        ),
{
    proof {
        lemma_tool_names_distinct();
    }
    let path = match get_str(args, "path") {
        Some(p) => p,
        None => string_of(&chars_of(".")),
    };
    let resolved = resolve_under_root(ctx.backend, ctx.root.as_str(), path.as_str());
    let ghost res = secrets::result_seq(resolved);
    assert(can_resolve(ctx.backend, ctx.root@, path@, res));
    let target = match resolved {
        Err(e) => return Err(e),
        Ok(t) => t,
    };
    let listed = ctx.backend.list_directory(target.as_str());
    let ghost a = names_result(listed);
    let r = match listed {
        Err(e) => Err(e),
        Ok(entries) => Ok(join_strings(&entries, "\n")),
    };
    assert(list_outcome(ctx.backend, target@, secrets::result_seq(r)));
    r
}

fn tool_search_code<B: WorkspaceBackend>(ctx: &ToolContext<B>, args: &JsonValue) -> (r: Result<String, String>)
    ensures
        json::spec_get_str(*args, "query"@) is None ==> (r matches Err(m) && m@ == "missing query"@),
        r matches Ok(s) ==> exists|hits: Seq<HitView>| #[trigger] spec_format_hits(hits) == s@,
{
    let query = match get_str(args, "query") {
        Some(q) => q,
        None => return err_text("missing query"),
    };
    let max = int_arg(args, "max_results", 30, 1, 100);
    let hits = ctx.backend.search_code(query.as_str(), max as usize)?;
    Ok(format_hits(&hits))
}

fn tool_project_structure<B: WorkspaceBackend>(ctx: &ToolContext<B>, args: &JsonValue) -> (r: Result<String, String>)
    ensures
        r matches Ok(s) && exists|root: Seq<char>, es: Seq<WalkEntry>|
            #![trigger spec_project_structure(root, es, spec_int_arg(*args, "max_entries"@, 200, 10, 500) as nat)]
            spec_project_structure(root, es, spec_int_arg(*args, "max_entries"@, 200, 10, 500) as nat) == s@,
{
    let max_depth = int_arg(args, "max_depth", 3, 1, 6);
    let max_entries = int_arg(args, "max_entries", 200, 10, 500);
    let root = ctx.backend.root();
    let entries = ctx.backend.walk(max_depth as usize);
    Ok(format_project_structure(root.as_str(), &entries, max_entries as usize))
}

fn tool_list_agent_assets<B: WorkspaceBackend>(ctx: &ToolContext<B>, args: &JsonValue) -> (r: Result<String, String>)
    ensures
        r matches Ok(s) && exists|groups: Seq<(AssetKind, Vec<AgentAsset>)>|
            groups.map_values(|g: (AssetKind, Vec<AgentAsset>)| g.0) == spec_requested_kinds(*args)
            && #[trigger] spec_format_asset_listing(groups) == s@,
{
    let kinds = requested_kinds(args);
    let mut groups: Vec<(AssetKind, Vec<AgentAsset>)> = Vec::new();
    let mut i: usize = 0;
    while i < kinds.len()
        invariant
            i <= kinds.len(),
            kinds@ == spec_requested_kinds(*args),
            groups@.map_values(|g: (AssetKind, Vec<AgentAsset>)| g.0) =~= kinds@.take(i as int),
        decreases kinds.len() - i,
    {
        let k = kinds[i];
        let found = ctx.backend.discover_kind(k);
        let ghost before = groups@;
        groups.push((k, found));
        assert(groups@.map_values(|g: (AssetKind, Vec<AgentAsset>)| g.0) =~= before.map_values(
            |g: (AssetKind, Vec<AgentAsset>)| g.0,
        ).push(k));
        assert(kinds@.take(i + 1) =~= kinds@.take(i as int).push(k));
        i = i + 1;
    }
    assert(kinds@.take(i as int) =~= kinds@);
    Ok(format_asset_listing(&groups))
}

/// A file write a tool makes: where, what text, and the answer once written.
pub struct WritePlan {
    pub path: String,
    pub text: String,
    pub message: String,
}

/// `path` is where the relative path `rel` resolves under `root` for answers
/// `backend` can give (see [`secrets::probes_answered`] and
/// [`secrets::spec_settle`]), and is not a sensitive file.
pub open spec fn resolved_target<B: WorkspaceBackend>(backend: &B, root: Seq<char>, rel: Seq<char>, path: Seq<char>) -> bool {
    &&& can_resolve(backend, root, rel, Ok::<Seq<char>, Seq<char>>(path))
    &&& !secrets::spec_is_sensitive_path(path)
}

/// Whether `res` is what resolving the relative path `rel` under `root`
/// gives for answers `backend` can give: the refusal of a path that climbs
/// out of the workspace or is absolute, else [`secrets::spec_settle`] of the
/// join on what the backend answered to the requests
/// [`secrets::probes_answered`] lists.
pub open spec fn can_resolve<B: WorkspaceBackend>(backend: &B, root: Seq<char>, rel: Seq<char>, res: Result<Seq<char>, Seq<char>>) -> bool {
    match secrets::spec_normalize_relative(rel) {
        Err(e) => res == Err::<Seq<char>, Seq<char>>(path_error_message(e)),
        Ok(parts) => exists|p: secrets::Probes|
            #![trigger secrets::spec_settle(secrets::spec_joined(root, parts), p)]
            secrets::probes_answered(backend, root, secrets::spec_joined(root, parts), p)
                && secrets::spec_settle(secrets::spec_joined(root, parts), p) == res,
    }
}

/// The guard on where a path argument resolved: a sensitive file is refused
/// with `refusing to <verb> sensitive path: <path>`, any other is handed on.
pub open spec fn spec_guard(resolved: Seq<char>, path: Seq<char>, verb: Seq<char>) -> Result<Seq<char>, Seq<char>> {
    if secrets::spec_is_sensitive_path(resolved) {
        Err("refusing to "@ + verb + " sensitive path: "@ + path)
    } else {
        Ok(resolved)
    }
}

/// A resolution of the path argument `path`, guarded: its error, or
/// [`spec_guard`] of where it resolved.
pub open spec fn spec_checked(res: Result<Seq<char>, Seq<char>>, path: Seq<char>, verb: Seq<char>) -> Result<Seq<char>, Seq<char>> {
    match res {
        Ok(t) => spec_guard(t, path, verb),
        Err(e) => Err(e),
    }
}

/// Refuse a sensitive file as the target of a tool (`verb` names what the
/// tool would do to it); hand on any other path.
pub fn guard_target(resolved: &str, path: &str, verb: &str) -> (r: Result<String, String>)
    ensures
        secrets::result_seq(r) == spec_guard(resolved@, path@, verb@),
{
    if is_sensitive_path(resolved) {
        let mut e = String::new();
        push_str(&mut e, "refusing to ");
        push_str(&mut e, verb);
        push_str(&mut e, " sensitive path: ");
        push_str(&mut e, path);
        return Err(e);
    }
    Ok(string_of(&chars_of(resolved)))
}

/// Resolve the path argument of a tool under the workspace root and refuse a
/// sensitive target: the answer is [`spec_checked`] of the resolution that the
/// backend's answers gave.
fn checked_target<B: WorkspaceBackend>(ctx: &ToolContext<B>, path: &str, verb: &str) -> (r: Result<String, String>)
    ensures
        secrets::spec_normalize_relative(path@) matches Err(e) ==> (r matches Err(m) && m@ == path_error_message(e)),
        exists|res: Result<Seq<char>, Seq<char>>|
            #[trigger] can_resolve(ctx.backend, ctx.root@, path@, res) && secrets::result_seq(r) == spec_checked(res, path@, verb@),
        r matches Ok(t) ==> resolved_target(ctx.backend, ctx.root@, path@, t@),
{
    let resolved = resolve_under_root(ctx.backend, ctx.root.as_str(), path);
    let ghost res = secrets::result_seq(resolved);
    assert(can_resolve(ctx.backend, ctx.root@, path@, res));
    match resolved {
        Err(e) => Err(e),
        Ok(t) => guard_target(t.as_str(), path, verb),
    }
}

/// The write `write_file` makes for its arguments: the `content` argument,
/// to where the `path` argument resolves, answered with the byte count.
pub fn plan_write_file<B: WorkspaceBackend>(ctx: &ToolContext<B>, args: &JsonValue) -> (r: Result<WritePlan, String>)
    ensures
        spec_arg_error("write_file"@, *args) matches Some(e) ==> (r matches Err(m) && m@ == e),
        r matches Ok(plan) ==> plan.text@ == json::spec_get_str(*args, "content"@).unwrap() && resolved_target(ctx.backend, ctx.root@,
            json::spec_get_str(*args, "path"@).unwrap(),
            plan.path@,
        ) && plan.message@ == "Wrote "@ + text::decimal(
            text::utf8_len_seq(json::spec_get_str(*args, "content"@).unwrap()),
        ) + " bytes to `"@ + json::spec_get_str(*args, "path"@).unwrap() + "`"@,
        spec_arg_error("write_file"@, *args) is None ==> exists|res: Result<Seq<char>, Seq<char>>|
            #[trigger] can_resolve(ctx.backend, ctx.root@, json::spec_get_str(*args, "path"@).unwrap(), res) && match spec_checked(
                res,
                json::spec_get_str(*args, "path"@).unwrap(),
                "write"@,
            ) {
                Err(e) => r matches Err(m) && m@ == e,
                Ok(t) => r matches Ok(plan) && plan.path@ == t && plan.text@ == json::spec_get_str(*args, "content"@).unwrap()
                    && plan.message@ == spec_write_message(*args),
            },
{
    proof {
        lemma_tool_names_distinct();
    }
    let path = match get_str(args, "path") {
        Some(p) => p,
        None => return Err(string_of(&chars_of("missing path"))),
    };
    let content = match get_str(args, "content") {
        Some(c) => c,
        None => return Err(string_of(&chars_of("missing content"))),
    };
    let target = checked_target(ctx, path.as_str(), "write")?;
    let v = chars_of(content.as_str());
    let n = text::utf8_len_prefix(&v, v.len());
    assert(v@.take(v.len() as int) =~= v@);
    let mut out = String::new();
    push_str(&mut out, "Wrote ");
    push_chars(&mut out, &decimal_exec(n));
    push_str(&mut out, " bytes to `");
    push_str(&mut out, path.as_str());
    push_str(&mut out, "`");
    Ok(WritePlan { path: target, text: content, message: out })
}

/// Make a planned write; the answer is the plan's message once the backend
/// wrote the text, else the backend's error.
fn perform_write<B: WorkspaceBackend>(ctx: &ToolContext<B>, plan: WritePlan) -> (r: Result<String, String>)
    ensures
        write_outcome(ctx.backend, plan.path@, plan.text@, plan.message@, secrets::result_seq(r)),
{
    let written = ctx.backend.write_file(plan.path.as_str(), plan.text.as_str());
    let ghost a = unit_result(written);
    match written {
        Err(e) => Err(e),
        Ok(_) => Ok(plan.message),
    }
}

fn tool_write_file<B: WorkspaceBackend>(ctx: &ToolContext<B>, args: &JsonValue) -> (r: Result<String, String>)
    ensures
        spec_arg_error("write_file"@, *args) matches Some(e) ==> (r matches Err(m) && m@ == e),
        r matches Ok(s) ==> s@ == "Wrote "@ + text::decimal(
            text::utf8_len_seq(json::spec_get_str(*args, "content"@).unwrap()),
        ) + " bytes to `"@ + json::spec_get_str(*args, "path"@).unwrap() + "`"@,
        spec_arg_error("write_file"@, *args) is None ==> path_tool_outcome(
            ctx.backend,
            ctx.root@,
            ctx.max_file_bytes as nat,
            "write_file"@,
            *args,
            secrets::result_seq(r),
        ),
{
    proof {
        lemma_tool_names_distinct();
    }
    let planned = plan_write_file(ctx, args);
    let plan = match planned {
        Err(e) => return Err(e),
        Ok(p) => p,
    };
    let ghost pv = (plan.path@, plan.text@, plan.message@);
    let r = perform_write(ctx, plan);
    assert(write_outcome(ctx.backend, pv.0, pv.1, pv.2, secrets::result_seq(r)));
    r
}

/// What `str_replace` does, by its arguments, to a file holding `c`.
pub open spec fn spec_str_replace_answer(args: JsonValue, c: Seq<char>) -> Result<(Seq<char>, Seq<char>), Seq<char>> {
    spec_edit_outcome(
        json::spec_get_str(args, "path"@).unwrap(),
        c,
        json::spec_get_str(args, "old_string"@).unwrap(),
        json::spec_get_str(args, "new_string"@).unwrap(),
        json::spec_get_bool(args, "replace_all"@) == Some(true),
    )
}

/// The write `str_replace` makes for its arguments: to where the `path`
/// argument resolves, the text [`spec_str_replace_answer`] gives for the text
/// `c` the file held when it was read, answered with its message.
pub fn plan_str_replace<B: WorkspaceBackend>(ctx: &ToolContext<B>, args: &JsonValue) -> (r: Result<WritePlan, String>)
    ensures
        spec_arg_error("str_replace"@, *args) matches Some(e) ==> (r matches Err(m) && m@ == e),
        r matches Ok(plan) ==> resolved_target(ctx.backend, ctx.root@, json::spec_get_str(*args, "path"@).unwrap(), plan.path@)
            && exists|c: Seq<char>| #[trigger] spec_str_replace_answer(*args, c) == Ok::<(Seq<char>, Seq<char>), Seq<char>>(
            (plan.text@, plan.message@),
        ),
        spec_arg_error("str_replace"@, *args) is None ==> exists|res: Result<Seq<char>, Seq<char>>|
            #[trigger] can_resolve(ctx.backend, ctx.root@, json::spec_get_str(*args, "path"@).unwrap(), res) && match spec_checked(
                res,
                json::spec_get_str(*args, "path"@).unwrap(),
                "edit"@,
            ) {
                Err(e) => r matches Err(m) && m@ == e,
                Ok(t) => exists|a: Result<Seq<char>, Seq<char>>|
                    #[trigger] ctx.backend.read_answer(t, a) && match a {
                        Err(e) => r matches Err(m) && m@ == e,
                        Ok(c) => match spec_str_replace_answer(*args, c) {
                            Err(e) => r matches Err(m) && m@ == e,
                            Ok(p) => r matches Ok(plan) && plan.path@ == t && plan.text@ == p.0 && plan.message@ == p.1,
                        },
                    },
            },
{
    proof {
        lemma_tool_names_distinct();
    }
    let path = match get_str(args, "path") {
        Some(p) => p,
        None => return Err(string_of(&chars_of("missing path"))),
    };
    let old = match get_str(args, "old_string") {
        Some(p) => p,
        None => return Err(string_of(&chars_of("missing old_string"))),
    };
    let new = match get_str(args, "new_string") {
        Some(p) => p,
        None => return Err(string_of(&chars_of("missing new_string"))),
    };
    let all = match get_bool(args, "replace_all") {
        Some(b) => b,
        None => false,
    };
    if chars_of(old.as_str()).len() == 0 {
        return Err(string_of(&chars_of("old_string must not be empty")));
    }
    let target = checked_target(ctx, path.as_str(), "edit")?;
    let read = ctx.backend.read_file(target.as_str());
    let ghost a = secrets::result_seq(read);
    let content = read?;
    let (updated, msg) = edit_outcome(path.as_str(), content.as_str(), old.as_str(), new.as_str(), all)?;
    assert(spec_str_replace_answer(*args, content@) == Ok::<(Seq<char>, Seq<char>), Seq<char>>((updated@, msg@)));
    Ok(WritePlan { path: target, text: updated, message: msg })
}

fn tool_str_replace<B: WorkspaceBackend>(ctx: &ToolContext<B>, args: &JsonValue) -> (r: Result<String, String>)
    ensures
        spec_arg_error("str_replace"@, *args) matches Some(e) ==> (r matches Err(m) && m@ == e),
        spec_arg_error("str_replace"@, *args) is None ==> path_tool_outcome(
            ctx.backend,
            ctx.root@,
            ctx.max_file_bytes as nat,
            "str_replace"@,
            *args,
            secrets::result_seq(r),
        ),
{
    proof {
        lemma_tool_names_distinct();
    }
    let planned = plan_str_replace(ctx, args);
    let plan = match planned {
        Err(e) => return Err(e),
        Ok(p) => p,
    };
    let ghost pv = (plan.path@, plan.text@, plan.message@);
    let r = perform_write(ctx, plan);
    assert(write_outcome(ctx.backend, pv.0, pv.1, pv.2, secrets::result_seq(r)));
    r
}

fn tool_create_directory<B: WorkspaceBackend>(ctx: &ToolContext<B>, args: &JsonValue) -> (r: Result<String, String>)
    ensures
        path_arg_error(json::spec_get_str(*args, "path"@)) matches Some(e) ==> (r matches Err(m) && m@ == e),
        spec_arg_error("create_directory"@, *args) is None ==> path_tool_outcome(
            ctx.backend,
            ctx.root@,
            ctx.max_file_bytes as nat,
            "create_directory"@,
            *args,
            secrets::result_seq(r),
        ),
{
    proof {
        lemma_tool_names_distinct();
    }
    let path = match get_str(args, "path") {
        Some(p) => p,
        None => return err_text("missing path"),
    };
    let checked = checked_target(ctx, path.as_str(), "create");
    let ghost res = choose|res: Result<Seq<char>, Seq<char>>|
        can_resolve(ctx.backend, ctx.root@, path@, res) && secrets::result_seq(checked) == spec_checked(res, path@, "create"@);
    let target = match checked {
        Err(e) => return Err(e),
        Ok(t) => t,
    };
    let made = ctx.backend.create_directory(target.as_str());
    let ghost a = unit_result(made);
    if let Err(e) = made {
        return Err(e);
    }
    let mut out = String::new();
    push_str(&mut out, "Created directory `");
    push_str(&mut out, path.as_str());
    push_str(&mut out, "`");
    Ok(out)
}

fn answer(r: Result<String, String>) -> (t: ToolResult)
    ensures
        match r {
            Ok(s) => t.content@ == s@ && !t.is_error,
            Err(e) => t.content@ == e@ && t.is_error,
        },
{
    match r {
        Ok(s) => ToolResult { content: s, is_error: false },
        Err(e) => ToolResult { content: e, is_error: true },
    }
}

/// A tool's answer as a result: its text, as an error when it is one.
pub open spec fn tool_answer(r: ToolResult) -> Result<Seq<char>, Seq<char>> {
    if r.is_error {
        Err(r.content@)
    } else {
        Ok(r.content@)
    }
}

/// What a tool that works on its `path` argument does to the target, as its
/// refusal of a sensitive file names it.
pub open spec fn tool_verb(name: Seq<char>) -> Option<Seq<char>> {
    if name == "read_file"@ {
        Some("read"@)
    } else if name == "create_directory"@ {
        Some("create"@)
    } else if name == "write_file"@ {
        Some("write"@)
    } else if name == "str_replace"@ {
        Some("edit"@)
    } else {
        None
    }
}

/// Run one tool call. A call of an unknown tool, or with arguments that are
/// missing or name a path outside the workspace, is refused with a message
/// before the workspace is touched.
pub fn execute_tool<B: WorkspaceBackend>(ctx: &ToolContext<B>, call: &ToolCall) -> (r: ToolResult)
    ensures
        !is_known_tool(call.name@) ==> r.is_error && r.content@ == "unknown tool: "@ + call.name@,
        spec_arg_error(call.name@, call.arguments) matches Some(e) ==> r.is_error && r.content@ == e,
        call.name@ == "search_code"@ && !r.is_error ==> exists|hits: Seq<HitView>| #[trigger] spec_format_hits(hits) == r.content@,
        call.name@ == "get_project_structure"@ ==> !r.is_error && exists|root: Seq<char>, es: Seq<WalkEntry>|
            #![trigger spec_project_structure(root, es, spec_int_arg(call.arguments, "max_entries"@, 200, 10, 500) as nat)]
            spec_project_structure(root, es, spec_int_arg(call.arguments, "max_entries"@, 200, 10, 500) as nat)
                == r.content@,
        call.name@ == "list_agent_assets"@ ==> !r.is_error && exists|groups: Seq<(AssetKind, Vec<AgentAsset>)>|
            groups.map_values(|g: (AssetKind, Vec<AgentAsset>)| g.0) == spec_requested_kinds(call.arguments)
                && #[trigger] spec_format_asset_listing(groups) == r.content@,
        is_path_tool(call.name@) && spec_arg_error(call.name@, call.arguments) is None ==> path_tool_outcome(
            ctx.backend,
            ctx.root@,
            ctx.max_file_bytes as nat,
            call.name@,
            call.arguments,
            tool_answer(r),
        ),
{
    proof {
        lemma_tool_names_distinct();
    }
    let name = call.name.as_str();
    let args = &call.arguments;
    if str_eq(name, "read_file") {
        answer(tool_read_file(ctx, args))
    } else if str_eq(name, "list_directory") {
        answer(tool_list_directory(ctx, args))
    } else if str_eq(name, "search_code") {
        answer(tool_search_code(ctx, args))
    } else if str_eq(name, "get_project_structure") {
        answer(tool_project_structure(ctx, args))
    } else if str_eq(name, "list_agent_assets") {
        answer(tool_list_agent_assets(ctx, args))
    } else if str_eq(name, "write_file") {
        answer(tool_write_file(ctx, args))
    } else if str_eq(name, "str_replace") {
        answer(tool_str_replace(ctx, args))
    } else if str_eq(name, "create_directory") {
        answer(tool_create_directory(ctx, args))
    } else {
        ToolResult { content: prefixed_text("unknown tool: ", name), is_error: true }
    }
}


// ---------------------------------------------------------------------------
// Tool schemas offered to the model
// ---------------------------------------------------------------------------
fn js(s: &str) -> (r: JsonValue)
    ensures
        json::spec_as_str(r) == Some(s@),
        json_model(r) == JsonModel::Str(s@),
{
    JsonValue::String(string_of(&chars_of(s)))
}

fn key(k: &str) -> (r: String)
    ensures
        r@ == k@,
{
    string_of(&chars_of(k))
}

fn obj(entries: Vec<(String, JsonValue)>) -> (r: JsonValue)
    ensures
        r == JsonValue::Object(entries),
{
    JsonValue::Object(entries)
}

/// The schema of a string property, with its description when it has one.
pub open spec fn string_prop_model(description: Option<Seq<char>>) -> JsonModel {
    JsonModel::Object(
        seq![("type"@, JsonModel::Str("string"@))] + match description {
            Some(d) => seq![("description"@, JsonModel::Str(d))],
            None => Seq::empty(),
        },
    )
}

fn string_prop(description: Option<&str>) -> (r: JsonValue)
    ensures
        json_model(r) == string_prop_model(
            match description {
                Some(d) => Some(d@),
                None => None,
            },
        ),
{
    match description {
        Some(d) => {
            let entries = vec![(key("type"), js("string")), (key("description"), js(d))];
            proof {
                json::lemma_entry_models(entries@);
            }
            assert(entry_models(entries@) =~= seq![("type"@, JsonModel::Str("string"@)), ("description"@, JsonModel::Str(d@))]);
            assert(seq![("type"@, JsonModel::Str("string"@))] + seq![("description"@, JsonModel::Str(d@))] =~= seq![
                ("type"@, JsonModel::Str("string"@)),
                ("description"@, JsonModel::Str(d@)),
            ]);
            obj(entries)
        },
        None => {
            let entries = vec![(key("type"), js("string"))];
            proof {
                json::lemma_entry_models(entries@);
            }
            assert(entry_models(entries@) =~= seq![("type"@, JsonModel::Str("string"@))]);
            assert(seq![("type"@, JsonModel::Str("string"@))] + Seq::<(Seq<char>, JsonModel)>::empty() =~= seq![
                ("type"@, JsonModel::Str("string"@)),
            ]);
            obj(entries)
        },
    }
}

/// The schema of an integer property bounded by `min` and `max`.
pub open spec fn integer_prop_model(min: u64, max: u64) -> JsonModel {
    JsonModel::Object(
        seq![
            ("type"@, JsonModel::Str("integer"@)),
            ("minimum"@, JsonModel::Number(Some(min))),
            ("maximum"@, JsonModel::Number(Some(max))),
        ],
    )
}

fn integer_prop(min: u64, max: u64) -> (r: JsonValue)
    ensures
        json_model(r) == integer_prop_model(min, max),
{
    let entries = vec![
        (key("type"), js("integer")),
        (key("minimum"), JsonValue::Number(Some(min))),
        (key("maximum"), JsonValue::Number(Some(max))),
    ];
    proof {
        json::lemma_entry_models(entries@);
    }
    assert(entry_models(entries@) =~= seq![
        ("type"@, JsonModel::Str("integer"@)),
        ("minimum"@, JsonModel::Number(Some(min))),
        ("maximum"@, JsonModel::Number(Some(max))),
    ]);
    obj(entries)
}

/// The parameters schema of a tool: an object with `props` as its
/// properties and, when there are any, the names of the required ones.
pub open spec fn parameters_model(props: Seq<(String, JsonValue)>, required: Seq<Seq<char>>) -> JsonModel {
    JsonModel::Object(
        seq![("type"@, JsonModel::Str("object"@)), ("properties"@, JsonModel::Object(entry_models(props)))]
            + if required.len() == 0 {
            Seq::empty()
        } else {
            seq![("required"@, JsonModel::Array(required.map_values(|n: Seq<char>| JsonModel::Str(n))))]
        },
    )
}

fn parameters(props: Vec<(String, JsonValue)>, required: Vec<&str>) -> (r: JsonValue)
    ensures
        json_model(r) == parameters_model(props@, required@.map_values(|n: &str| n@)),
{
    let ghost names = required@.map_values(|n: &str| n@);
    let mut req: Vec<JsonValue> = Vec::new();
    let mut i: usize = 0;
    while i < required.len()
        invariant
            i <= required.len(),
            names == required@.map_values(|n: &str| n@),
            json_models(req@) =~= names.take(i as int).map_values(|n: Seq<char>| JsonModel::Str(n)),
        decreases required.len() - i,
    {
        let ghost before = req@;
        req.push(js(required[i]));
        assert(req@.drop_last() =~= before);
        assert(names.take(i + 1) =~= names.take(i as int).push(names[i as int]));
        i = i + 1;
    }
    assert(names.take(i as int) =~= names);
    let ghost pm = entry_models(props@);
    let p = obj(props);
    if required.len() == 0 {
        let entries = vec![(key("type"), js("object")), (key("properties"), p)];
        proof {
            json::lemma_entry_models(entries@);
        }
        assert(entry_models(entries@) =~= seq![
            ("type"@, JsonModel::Str("object"@)),
            ("properties"@, JsonModel::Object(pm)),
        ]);
        assert(seq![("type"@, JsonModel::Str("object"@)), ("properties"@, JsonModel::Object(pm))]
            + Seq::<(Seq<char>, JsonModel)>::empty() =~= seq![
            ("type"@, JsonModel::Str("object"@)),
            ("properties"@, JsonModel::Object(pm)),
        ]);
        obj(entries)
    } else {
        let ghost rm = json_models(req@);
        let entries = vec![(key("type"), js("object")), (key("properties"), p), (key("required"), JsonValue::Array(req))];
        proof {
            json::lemma_entry_models(entries@);
        }
        assert(entry_models(entries@) =~= seq![
            ("type"@, JsonModel::Str("object"@)),
            ("properties"@, JsonModel::Object(pm)),
            ("required"@, JsonModel::Array(rm)),
        ]);
        assert(rm == names.map_values(|n: Seq<char>| JsonModel::Str(n)));
        assert(seq![("type"@, JsonModel::Str("object"@)), ("properties"@, JsonModel::Object(pm))]
            + seq![("required"@, JsonModel::Array(rm))] =~= seq![
            ("type"@, JsonModel::Str("object"@)),
            ("properties"@, JsonModel::Object(pm)),
            ("required"@, JsonModel::Array(rm)),
        ]);
        obj(entries)
    }
}

/// The name of a function tool schema (`function.name`).
pub open spec fn spec_function_name(t: JsonValue) -> Option<Seq<char>> {
    match json::spec_get(t, "function"@) {
        Some(f) => json::spec_get_str(f, "name"@),
        None => None,
    }
}

/// The names of the tools of a schema list.
pub open spec fn spec_tool_names(v: JsonValue) -> Seq<Option<Seq<char>>> {
    match v {
        JsonValue::Array(items) => items@.map_values(|t: JsonValue| spec_function_name(t)),
        _ => Seq::empty(),
    }
}

fn function_tool(name: &str, description: &str, params: JsonValue) -> (r: JsonValue)
    ensures
        spec_function_name(r) == Some(name@),
{
    let inner = obj(vec![(key("name"), js(name)), (key("description"), js(description)), (key("parameters"), params)]);
    let ghost gi = inner;
    let r = obj(vec![(key("type"), js("function")), (key("function"), inner)]);
    let ghost gr = r;
    proof {
        reveal_strlit("type");
        reveal_strlit("function");
        reveal_strlit("name");
        assert("type"@.len() == 4);
        assert("function"@.len() == 8);
        match gr {
            JsonValue::Object(entries) => {
                assert(entries@[0].0@ == "type"@);
                assert(entries@[1].0@ == "function"@);
                assert(json::entry_index(entries@.drop_first(), "function"@) == Some(0int));
                assert(json::entry_index(entries@, "function"@) == Some(1int));
            },
            _ => {},
        }
        match gi {
            JsonValue::Object(entries) => {
                assert(entries@[0].0@ == "name"@);
                assert(json::entry_index(entries@, "name"@) == Some(0int));
            },
            _ => {},
        }
    }
    r
}

pub open spec fn spec_ask_tool_names() -> Seq<Option<Seq<char>>> {
    seq![
        Some("read_file"@),
        Some("list_directory"@),
        Some("search_code"@),
        Some("get_project_structure"@),
        Some("list_agent_assets"@),
    ]
}

pub open spec fn spec_write_tool_names() -> Seq<Option<Seq<char>>> {
    seq![Some("write_file"@), Some("str_replace"@), Some("create_directory"@)]
}

/// Ask mode offers read-only tools only: each tool it lists needs no approval
/// and none of them writes; each write tool offered in Edit and Agent mode
/// asks for confirmation.
pub proof fn law_ask_tools_are_read_only()
    ensures
        forall|i: int|
            0 <= i < spec_ask_tool_names().len() ==> (#[trigger] spec_ask_tool_names()[i] matches Some(
                n,
            ) && !is_write_tool(n) && spec_tool_permission(n) == PermissionLevel::ReadOnly),
        forall|i: int|
            0 <= i < spec_write_tool_names().len() ==> (#[trigger] spec_write_tool_names()[i] matches Some(
                n,
            ) && is_write_tool(n) && spec_tool_permission(n) == PermissionLevel::Confirm),
{
    lemma_tool_names_distinct();
    let a = spec_ask_tool_names();
    let w = spec_write_tool_names();
    assert(a[0] == Some("read_file"@));
    assert(a[1] == Some("list_directory"@));
    assert(a[2] == Some("search_code"@));
    assert(a[3] == Some("get_project_structure"@));
    assert(a[4] == Some("list_agent_assets"@));
    assert(w[0] == Some("write_file"@));
    assert(w[1] == Some("str_replace"@));
    assert(w[2] == Some("create_directory"@));
}

/// The read-only tools offered in Ask mode.
pub fn ask_tools() -> (r: JsonValue)
    ensures
        spec_tool_names(r) == spec_ask_tool_names(),
{
    let read = function_tool(
        "read_file",
        "Read a UTF-8 text file relative to the workspace root.",
        parameters(vec![(key("path"), string_prop(Some("Relative path from workspace root")))], vec!["path"]),
    );
    let list = function_tool(
        "list_directory",
        "List files and directories under a path relative to the workspace root.",
        parameters(vec![(key("path"), string_prop(Some("Relative directory path (default \".\")")))], vec![]),
    );
    let search = function_tool(
        "search_code",
        "Lexical search for a string across the workspace (skips target/node_modules/.git).",
        parameters(vec![(key("query"), string_prop(None)), (key("max_results"), integer_prop(1, 100))], vec!["query"]),
    );
    let structure = function_tool(
        "get_project_structure",
        "Return a shallow tree of the project (depth-limited).",
        parameters(vec![(key("max_depth"), integer_prop(1, 6)), (key("max_entries"), integer_prop(10, 500))], vec![]),
    );
    let assets = function_tool(
        "list_agent_assets",
        "List the Skills, MCPs, Subagents, Rules, Commands and Hooks available to this agent, including their scope and source path.",
        parameters(
            vec![(key("kind"), string_prop(Some("Optional filter: skills, mcps, subagents, rules, commands or hooks.")))],
            vec![],
        ),
    );
    let items = vec![read, list, search, structure, assets];
    let r = JsonValue::Array(items);
    assert(spec_tool_names(r) =~= spec_ask_tool_names());
    r
}

fn write_tools() -> (r: JsonValue)
    ensures
        spec_tool_names(r) == spec_write_tool_names(),
{
    let write = function_tool(
        "write_file",
        "Create or overwrite a UTF-8 text file relative to the workspace root. Creates parent directories as needed.",
        parameters(vec![(key("path"), string_prop(None)), (key("content"), string_prop(None))], vec!["path", "content"]),
    );
    let replace = function_tool(
        "str_replace",
        "Replace an exact substring in a file. Fails if old_string is missing or (unless replace_all) matches more than once.",
        parameters(
            vec![
                (key("path"), string_prop(None)),
                (key("old_string"), string_prop(None)),
                (key("new_string"), string_prop(None)),
                (key("replace_all"), obj(vec![(key("type"), js("boolean"))])),
            ],
            vec!["path", "old_string", "new_string"],
        ),
    );
    let mkdir = function_tool(
        "create_directory",
        "Create a directory (and parents) relative to the workspace root.",
        parameters(vec![(key("path"), string_prop(None))], vec!["path"]),
    );
    let items = vec![write, replace, mkdir];
    let r = JsonValue::Array(items);
    assert(spec_tool_names(r) =~= spec_write_tool_names());
    r
}

/// The elements of two schema lists, one after the other (an argument that
/// is not a list contributes nothing).
fn merge_tool_arrays(a: JsonValue, b: JsonValue) -> (r: JsonValue)
    ensures
        spec_tool_names(r) == spec_tool_names(a) + spec_tool_names(b),
{
    let mut out: Vec<JsonValue> = match a {
        JsonValue::Array(items) => items,
        _ => Vec::new(),
    };
    let ghost start = out@;
    match b {
        JsonValue::Array(mut extra) => {
            out.append(&mut extra);
        },
        _ => {},
    }
    let r = JsonValue::Array(out);
    assert(spec_tool_names(r) =~= spec_tool_names(a) + spec_tool_names(b));
    r
}

/// Ask + write tools for Edit / Agent modes.
pub fn edit_tools() -> (r: JsonValue)
    ensures
        spec_tool_names(r) == spec_ask_tool_names() + spec_write_tool_names(),
{
    merge_tool_arrays(ask_tools(), write_tools())
}

/// Agent mode tools (same write surface as Edit for this phase).
pub fn agent_tools() -> (r: JsonValue)
    ensures
        spec_tool_names(r) == spec_ask_tool_names() + spec_write_tool_names(),
{
    edit_tools()
}

/// The tools offered in a chat mode.
pub fn tools_for_mode(mode: crate::mode::AgentMode) -> (r: JsonValue)
    ensures
        spec_tool_names(r) == match mode {
            crate::mode::AgentMode::Ask => spec_ask_tool_names(),
            _ => spec_ask_tool_names() + spec_write_tool_names(),
        },
{
    match mode {
        crate::mode::AgentMode::Ask => ask_tools(),
        crate::mode::AgentMode::Edit => edit_tools(),
        crate::mode::AgentMode::Agent => agent_tools(),
    }
}

} // verus!
