//! YAML-ish frontmatter of markdown assets: `key: value` lines and folded
//! block scalars (`key: >-` followed by indented lines) between `---` fences.
use vstd::prelude::*;

use crate::text::{self, chars_of, chars_eq, chars_eq_str, string_of, slice_of, trim_exec, lower_exec, lead_ws_exec, utf8_len_prefix, extend_chars, split_once_exec, starts_with_exec, trim_end_exec};

verus! {

/// Frontmatter entries, in the order their keys first appeared.
pub open spec fn pairs_view(v: Seq<(String, String)>) -> Seq<(Seq<char>, Seq<char>)> {
    v.map_values(|p: (String, String)| (p.0@, p.1@))
}

/// Position of `k` among the keys of `m`.
pub open spec fn assoc_find(m: Seq<(Seq<char>, Seq<char>)>, k: Seq<char>) -> Option<int>
    decreases m.len(),
{
    if m.len() == 0 {
        None
    } else if m[0].0 == k {
        Some(0)
    } else {
        match assoc_find(m.drop_first(), k) {
            Some(i) => Some(i + 1),
            None => None,
        }
    }
}

/// Value stored under `k`.
pub open spec fn assoc_get(m: Seq<(Seq<char>, Seq<char>)>, k: Seq<char>) -> Option<Seq<char>> {
    match assoc_find(m, k) {
        Some(i) => Some(m[i].1),
        None => None,
    }
}

/// `HashMap::insert`: overwrite the value of an existing key, else add the key.
pub open spec fn assoc_insert(m: Seq<(Seq<char>, Seq<char>)>, k: Seq<char>, v: Seq<char>) -> Seq<
    (Seq<char>, Seq<char>),
> {
    match assoc_find(m, k) {
        Some(i) => m.update(i, (k, v)),
        None => m.push((k, v)),
    }
}

/// `HashMap::entry(k).or_default()`.
pub open spec fn assoc_or_default(m: Seq<(Seq<char>, Seq<char>)>, k: Seq<char>) -> Seq<
    (Seq<char>, Seq<char>),
> {
    match assoc_find(m, k) {
        Some(i) => m,
        None => m.push((k, Seq::empty())),
    }
}

/// Every key occurs once.
pub open spec fn keys_unique(m: Seq<(Seq<char>, Seq<char>)>) -> bool {
    forall|i: int, j: int| 0 <= i < m.len() && 0 <= j < m.len() && i != j ==> m[i].0 != m[j].0
}

pub open spec fn fence() -> Seq<char> {
    seq!['-', '-', '-']
}

/// A value that opens a folded or literal block scalar.
pub open spec fn is_block_marker(v: Seq<char>) -> bool {
    v == seq!['>', '-'] || v == seq!['>'] || v == seq!['|'] || v == seq!['|', '-']
}

/// Remove one pair of matching surrounding quotes.
pub open spec fn spec_unquote(value: Seq<char>) -> Seq<char> {
    let v = text::trim(value);
    if v.len() >= 2 && ((v[0] == '"' && v.last() == '"') || (v[0] == '\'' && v.last() == '\'')) {
        v.subrange(1, v.len() - 1)
    } else {
        v
    }
}

/// Loose boolean: `true/yes/on/1`, `false/no/off/0`, anything else is `default`.
pub open spec fn spec_parse_bool(value: Seq<char>, default: bool) -> bool {
    let v = text::lower(text::trim(value));
    if v == "true"@ || v == "yes"@ || v == "on"@ || v == "1"@ {
        true
    } else if v == "false"@ || v == "no"@ || v == "off"@ || v == "0"@ {
        false
    } else {
        default
    }
}

/// Parser state between two frontmatter lines.
pub struct FmState {
    pub meta: Seq<(Seq<char>, Seq<char>)>,
    pub current_key: Option<Seq<char>>,
    pub block_indent: Option<nat>,
}

pub open spec fn fm_init() -> FmState {
    FmState { meta: Seq::empty(), current_key: None, block_indent: None }
}

/// Width in bytes of the leading whitespace of a line.
pub open spec fn indent_of(line: Seq<char>) -> nat {
    text::utf8_len_seq(line.take(text::lead_ws(line) as int))
}

/// One frontmatter line (not the closing fence).
pub open spec fn fm_step(st: FmState, line: Seq<char>) -> FmState {
    let trimmed = text::trim(line);
    let indent = indent_of(line);
    if trimmed.len() == 0 || trimmed[0] == '#' {
        st
    } else if st.current_key is Some && st.block_indent is Some && indent
        > st.block_indent->0 {
        // Continuation of a block scalar: fold into one space-separated value.
        let key = st.current_key->0;
        let old = match assoc_get(st.meta, key) {
            Some(e) => e,
            None => Seq::empty(),
        };
        let joined = if old.len() > 0 {
            old.push(' ') + trimmed
        } else {
            trimmed
        };
        FmState { meta: assoc_insert(st.meta, key, joined), ..st }
    } else {
        let st1 = if st.current_key is Some && st.block_indent is Some {
            FmState { meta: st.meta, current_key: None, block_indent: None }
        } else {
            st
        };
        match text::split_once(trimmed, ':') {
            None => st1,
            Some((k, v)) => {
                let key = text::lower(text::trim(k));
                let value = text::trim(v);
                if is_block_marker(value) {
                    FmState {
                        meta: assoc_or_default(st1.meta, key),
                        current_key: Some(key),
                        block_indent: Some(indent),
                    }
                } else {
                    FmState {
                        meta: assoc_insert(st1.meta, key, spec_unquote(value)),
                        current_key: None,
                        block_indent: st1.block_indent,
                    }
                }
            },
        }
    }
}

/// A line of `str::lines` loses the `\r` of a `\r\n` ending.
pub open spec fn strip_cr(raw: Seq<char>) -> Seq<char> {
    if raw.len() > 0 && raw.last() == '\r' {
        raw.drop_last()
    } else {
        raw
    }
}

/// Scan the lines of `s` up to the closing fence. Returns the entries and, if a
/// closing fence was found, everything after the fence line.
pub open spec fn fm_scan(s: Seq<char>, st: FmState) -> (Seq<(Seq<char>, Seq<char>)>, Option<
    Seq<char>,
>)
    decreases s.len(),
{
    if s.len() == 0 {
        (st.meta, None)
    } else {
        match text::first_index(s, '\n') {
            Some(i) => {
                let line = strip_cr(s.take(i));
                if 0 <= i < s.len() {
                    if text::trim_end(line) == fence() {
                        (st.meta, Some(s.skip(i + 1)))
                    } else {
                        fm_scan(s.skip(i + 1), fm_step(st, line))
                    }
                } else {
                    (st.meta, None)
                }
            },
            None => {
                if text::trim_end(s) == fence() {
                    (st.meta, Some(Seq::empty()))
                } else {
                    (fm_step(st, s).meta, None)
                }
            },
        }
    }
}

/// Text after the fence line that opens the frontmatter, if `text` has one.
pub open spec fn fm_rest(text: Seq<char>) -> Option<Seq<char>> {
    let normalized = if text.len() > 0 && text[0] == '\u{feff}' {
        text.drop_first()
    } else {
        text
    };
    if text::starts_with(normalized, fence()) {
        let rest0 = normalized.skip(3);
        Some(
            if rest0.len() > 0 && rest0[0] == '\n' {
                rest0.drop_first()
            } else {
                rest0
            },
        )
    } else {
        None
    }
}

/// What `parse_frontmatter` returns: the entries and the markdown body.
pub open spec fn spec_parse_frontmatter(text: Seq<char>) -> (Seq<(Seq<char>, Seq<char>)>, Seq<char>) {
    let normalized = if text.len() > 0 && text[0] == '\u{feff}' {
        text.drop_first()
    } else {
        text
    };
    match fm_rest(text) {
        None => (Seq::empty(), normalized),
        Some(rest) => {
            let (meta, body) = fm_scan(rest, fm_init());
            (
                meta,
                match body {
                    Some(b) => b,
                    None => rest,
                },
            )
        },
    }
}

/// Parsed frontmatter entries.
pub struct Frontmatter {
    entries: Vec<(String, String)>,
}

impl View for Frontmatter {
    type V = Seq<(Seq<char>, Seq<char>)>;

    closed spec fn view(&self) -> Self::V {
        pairs_view(self.entries@)
    }
}

impl Frontmatter {
    /// Number of keys.
    pub fn len(&self) -> (r: usize)
        ensures
            r == self@.len(),
    {
        self.entries.len()
    }

    /// True when no key was read.
    pub fn is_empty(&self) -> (r: bool)
        ensures
            r == (self@.len() == 0),
    {
        self.entries.len() == 0
    }

    /// The value stored under `key`.
    pub fn get(&self, key: &str) -> (r: Option<&String>)
        ensures
            match assoc_get(self@, key@) {
                Some(v) => r matches Some(s) && s@ == v,
                None => r is None,
            },
    {
        let k = chars_of(key);
        match assoc_find_exec(&self.entries, &k) {
            Some(i) => {
                proof {
                    lemma_assoc_find(pairs_view(self.entries@), k@);
                }
                Some(&self.entries[i].1)
            },
            None => None,
        }
    }

    /// Key and value at position `i`, in first-appearance order.
    pub fn entry(&self, i: usize) -> (r: (&String, &String))
        requires
            i < self@.len(),
        ensures
            r.0@ == self@[i as int].0,
            r.1@ == self@[i as int].1,
    {
        (&self.entries[i].0, &self.entries[i].1)
    }
}

pub proof fn lemma_assoc_find(m: Seq<(Seq<char>, Seq<char>)>, k: Seq<char>)
    ensures
        match assoc_find(m, k) {
            Some(i) => 0 <= i < m.len() && m[i].0 == k && forall|j: int|
                0 <= j < i ==> #[trigger] m[j].0 != k,
            None => forall|j: int| 0 <= j < m.len() ==> #[trigger] m[j].0 != k,
        },
    decreases m.len(),
{
    if m.len() > 0 && m[0].0 != k {
        let t = m.drop_first();
        lemma_assoc_find(t, k);
        match assoc_find(t, k) {
            Some(i) => {
                assert forall|j: int| 0 <= j < i + 1 implies #[trigger] m[j].0 != k by {
                    if j > 0 {
                        assert(m[j] == t[j - 1]);
                    }
                }
            },
            None => {
                assert forall|j: int| 0 <= j < m.len() implies #[trigger] m[j].0 != k by {
                    if j > 0 {
                        assert(m[j] == t[j - 1]);
                    }
                }
            },
        }
    }
}

pub proof fn lemma_assoc_find_is(m: Seq<(Seq<char>, Seq<char>)>, k: Seq<char>, i: int)
    requires
        0 <= i < m.len(),
        m[i].0 == k,
        forall|j: int| 0 <= j < i ==> #[trigger] m[j].0 != k,
    ensures
        assoc_find(m, k) == Some(i),
{
    lemma_assoc_find(m, k);
    match assoc_find(m, k) {
        Some(x) => {
            if x < i {
                assert(m[x].0 != k);
            }
            if x > i {
                assert(m[i].0 != k);
            }
        },
        None => {
            assert(m[i].0 != k);
        },
    }
}

pub proof fn lemma_assoc_find_none(m: Seq<(Seq<char>, Seq<char>)>, k: Seq<char>)
    requires
        forall|j: int| 0 <= j < m.len() ==> #[trigger] m[j].0 != k,
    ensures
        assoc_find(m, k) == None::<int>,
{
    lemma_assoc_find(m, k);
    match assoc_find(m, k) {
        Some(x) => {
            assert(m[x].0 != k);
        },
        None => {},
    }
}

proof fn lemma_insert_keeps_keys_unique(m: Seq<(Seq<char>, Seq<char>)>, k: Seq<char>, v: Seq<char>)
    requires
        keys_unique(m),
    ensures
        keys_unique(assoc_insert(m, k, v)),
        keys_unique(assoc_or_default(m, k)),
{
    lemma_assoc_find(m, k);
    match assoc_find(m, k) {
        Some(i) => {
            let n = m.update(i, (k, v));
            assert forall|a: int, b: int| 0 <= a < n.len() && 0 <= b < n.len() && a != b implies n[a].0
                != n[b].0 by {
                assert(m[i].0 == k);
            }
        },
        None => {
            let n = m.push((k, v));
            assert forall|a: int, b: int| 0 <= a < n.len() && 0 <= b < n.len() && a != b implies n[a].0
                != n[b].0 by {
                if a < m.len() && b < m.len() {
                    assert(n[a] == m[a] && n[b] == m[b]);
                } else if a < m.len() {
                    assert(n[a] == m[a] && m[a].0 != k);
                } else {
                    assert(n[b] == m[b] && m[b].0 != k);
                }
            }
            let d = m.push((k, Seq::empty()));
            assert forall|a: int, b: int| 0 <= a < d.len() && 0 <= b < d.len() && a != b implies d[a].0
                != d[b].0 by {
                if a < m.len() && b < m.len() {
                    assert(d[a] == m[a] && d[b] == m[b]);
                } else if a < m.len() {
                    assert(d[a] == m[a] && m[a].0 != k);
                } else {
                    assert(d[b] == m[b] && m[b].0 != k);
                }
            }
        },
    }
}

proof fn lemma_step_keeps_keys_unique(st: FmState, line: Seq<char>)
    requires
        keys_unique(st.meta),
    ensures
        keys_unique(fm_step(st, line).meta),
{
    let trimmed = text::trim(line);
    if trimmed.len() == 0 || trimmed[0] == '#' {
    } else if st.current_key is Some && st.block_indent is Some && indent_of(line) > st.block_indent->0 {
        let key = st.current_key->0;
        let old = match assoc_get(st.meta, key) {
            Some(e) => e,
            None => Seq::empty(),
        };
        let joined = if old.len() > 0 {
            old.push(' ') + trimmed
        } else {
            trimmed
        };
        lemma_insert_keeps_keys_unique(st.meta, key, joined);
    } else {
        match text::split_once(trimmed, ':') {
            None => {},
            Some((k, v)) => {
                let key = text::lower(text::trim(k));
                lemma_insert_keeps_keys_unique(st.meta, key, spec_unquote(text::trim(v)));
            },
        }
    }
}

proof fn lemma_scan_keeps_keys_unique(s: Seq<char>, st: FmState)
    requires
        keys_unique(st.meta),
    ensures
        keys_unique(fm_scan(s, st).0),
    decreases s.len(),
{
    if s.len() > 0 {
        match text::first_index(s, '\n') {
            Some(i) => {
                let line = strip_cr(s.take(i));
                if 0 <= i < s.len() && text::trim_end(line) != fence() {
                    lemma_step_keeps_keys_unique(st, line);
                    lemma_scan_keeps_keys_unique(s.skip(i + 1), fm_step(st, line));
                }
            },
            None => {
                lemma_step_keeps_keys_unique(st, s);
            },
        }
    }
}

/// The frontmatter is a map: every key read from it occurs once among its
/// entries, however often the text repeats it.
pub proof fn law_frontmatter_keys_unique(text: Seq<char>)
    ensures
        keys_unique(spec_parse_frontmatter(text).0),
{
    match fm_rest(text) {
        None => {},
        Some(rest) => {
            lemma_scan_keeps_keys_unique(rest, fm_init());
        },
    }
}

/// Position of `key` among the entries.
fn assoc_find_exec(v: &Vec<(String, String)>, key: &Vec<char>) -> (r: Option<usize>)
    ensures
        r == match assoc_find(pairs_view(v@), key@) {
            Some(i) => Some(i as usize),
            None => None::<usize>,
        },
        r matches Some(i) ==> i < v.len(),
{
    let ghost m = pairs_view(v@);
    let mut i: usize = 0;
    while i < v.len()
        invariant
            i <= v.len(),
            m == pairs_view(v@),
            forall|j: int| 0 <= j < i ==> #[trigger] m[j].0 != key@,
        decreases v.len() - i,
    {
        let k = chars_of(v[i].0.as_str());
        if chars_eq(&k, key) {
            proof {
                lemma_assoc_find_is(m, key@, i as int);
            }
            return Some(i);
        }
        i = i + 1;
    }
    proof {
        lemma_assoc_find_none(m, key@);
    }
    None
}

/// `HashMap::insert` on the entry list.
fn assoc_insert_exec(v: &mut Vec<(String, String)>, key: &Vec<char>, value: &Vec<char>)
    ensures
        pairs_view(final(v)@) == assoc_insert(pairs_view(old(v)@), key@, value@),
{
    let ghost m = pairs_view(v@);
    let k = string_of(key);
    let val = string_of(value);
    proof {
        lemma_assoc_find(m, key@);
    }
    match assoc_find_exec(v, key) {
        Some(i) => {
            v.set(i, (k, val));
            assert(pairs_view(v@) =~= m.update(i as int, (key@, value@)));
        },
        None => {
            v.push((k, val));
            assert(pairs_view(v@) =~= m.push((key@, value@)));
        },
    }
}

/// `HashMap::entry(key).or_default()` on the entry list.
fn assoc_or_default_exec(v: &mut Vec<(String, String)>, key: &Vec<char>)
    ensures
        pairs_view(final(v)@) == assoc_or_default(pairs_view(old(v)@), key@),
{
    let ghost m = pairs_view(v@);
    match assoc_find_exec(v, key) {
        Some(i) => {},
        None => {
            let k = string_of(key);
            v.push((k, String::new()));
            assert(pairs_view(v@) =~= m.push((key@, Seq::empty())));
        },
    }
}

/// Value stored under `key`, or the empty text.
fn assoc_get_or_empty(v: &Vec<(String, String)>, key: &Vec<char>) -> (r: Vec<char>)
    ensures
        r@ == match assoc_get(pairs_view(v@), key@) {
            Some(e) => e,
            None => Seq::<char>::empty(),
        },
{
    proof {
        lemma_assoc_find(pairs_view(v@), key@);
    }
    match assoc_find_exec(v, key) {
        Some(i) => chars_of(v[i].1.as_str()),
        None => Vec::new(),
    }
}

/// Strip one pair of matching surrounding quotes (`"…"` or `'…'`).
pub fn unquote(value: &Vec<char>) -> (r: Vec<char>)
    ensures
        r@ == spec_unquote(value@),
{
    let v = trim_exec(value);
    let n = v.len();
    if n >= 2 && ((v[0] == '"' && v[n - 1] == '"') || (v[0] == '\'' && v[n - 1] == '\'')) {
        slice_of(&v, 1, n - 1)
    } else {
        v
    }
}

/// Loose boolean parse used for the `enabled` flag.
pub fn parse_bool(value: &Vec<char>, default: bool) -> (r: bool)
    ensures
        r == spec_parse_bool(value@, default),
{
    let t = trim_exec(value);
    let v = lower_exec(&t);
    if chars_eq_str(&v, "true") || chars_eq_str(&v, "yes") || chars_eq_str(&v, "on")
        || chars_eq_str(&v, "1") {
        true
    } else if chars_eq_str(&v, "false") || chars_eq_str(&v, "no") || chars_eq_str(&v, "off")
        || chars_eq_str(&v, "0") {
        false
    } else {
        default
    }
}

fn is_block_marker_exec(v: &Vec<char>) -> (r: bool)
    ensures
        r == is_block_marker(v@),
{
    let r = (v.len() == 2 && v[0] == '>' && v[1] == '-') || (v.len() == 1 && v[0] == '>') || (
    v.len() == 1 && v[0] == '|') || (v.len() == 2 && v[0] == '|' && v[1] == '-');
    proof {
        if v@ == seq!['>', '-'] || v@ == seq!['>'] || v@ == seq!['|'] || v@ == seq!['|', '-'] {
        } else {
            if v.len() == 2 {
                if v[0] == '>' && v[1] == '-' {
                    assert(v@ =~= seq!['>', '-']);
                }
                if v[0] == '|' && v[1] == '-' {
                    assert(v@ =~= seq!['|', '-']);
                }
            }
            if v.len() == 1 {
                if v[0] == '>' {
                    assert(v@ =~= seq!['>']);
                }
                if v[0] == '|' {
                    assert(v@ =~= seq!['|']);
                }
            }
        }
    }
    r
}

fn is_fence_exec(v: &Vec<char>) -> (r: bool)
    ensures
        r == (v@ == fence()),
{
    let r = v.len() == 3 && v[0] == '-' && v[1] == '-' && v[2] == '-';
    proof {
        if r {
            assert(v@ =~= fence());
        }
    }
    r
}

/// First index of `c` at or after `start`.
pub fn find_char_from(v: &Vec<char>, c: char, start: usize) -> (r: Option<usize>)
    requires
        start <= v.len(),
    ensures
        r == match text::first_index(v@.skip(start as int), c) {
            Some(i) => Some((i + start) as usize),
            None => None::<usize>,
        },
        r matches Some(i) ==> start <= i < v.len(),
{
    let ghost s = v@.skip(start as int);
    let mut i: usize = start;
    while i < v.len()
        invariant
            start <= i <= v.len(),
            s == v@.skip(start as int),
            forall|j: int| 0 <= j < i - start ==> #[trigger] s[j] != c,
        decreases v.len() - i,
    {
        if v[i] == c {
            proof {
                assert(s[i - start] == c);
                text::lemma_first_index_is(s, c, i - start);
            }
            return Some(i);
        }
        proof {
            assert(s[i - start] == v@[i as int]);
        }
        i = i + 1;
    }
    proof {
        text::lemma_first_index_none(s, c);
    }
    None
}

/// Executable parser state.
struct FmExec {
    meta: Vec<(String, String)>,
    current_key: Option<Vec<char>>,
    block_indent: Option<u128>,
}

impl FmExec {
    spec fn view_state(&self) -> FmState {
        FmState {
            meta: pairs_view(self.meta@),
            current_key: match self.current_key {
                Some(k) => Some(k@),
                None => None,
            },
            block_indent: match self.block_indent {
                Some(n) => Some(n as nat),
                None => None,
            },
        }
    }
}

fn fm_step_exec(st: &mut FmExec, line: &Vec<char>)
    ensures
        final(st).view_state() == fm_step(old(st).view_state(), line@),
{
    let trimmed = trim_exec(line);
    let lead = lead_ws_exec(line);
    let indent = utf8_len_prefix(line, lead);
    if trimmed.len() == 0 || trimmed[0] == '#' {
        return ;
    }
    let continuing = match (&st.current_key, st.block_indent) {
        (Some(_), Some(base)) => indent > base,
        _ => false,
    };
    if continuing {
        let key = match &st.current_key {
            Some(k) => k.clone(),
            None => Vec::new(),
        };
        assert(key@ == st.view_state().current_key->0);
        let old = assoc_get_or_empty(&st.meta, &key);
        let mut joined: Vec<char> = Vec::new();
        if old.len() > 0 {
            extend_chars(&mut joined, &old);
            joined.push(' ');
            extend_chars(&mut joined, &trimmed);
        } else {
            extend_chars(&mut joined, &trimmed);
        }
        assoc_insert_exec(&mut st.meta, &key, &joined);
        return ;
    }
    if st.current_key.is_some() && st.block_indent.is_some() {
        st.current_key = None;
        st.block_indent = None;
    }
    match split_once_exec(&trimmed, ':') {
        None => {},
        Some((k, v)) => {
            let kt = trim_exec(&k);
            let key = lower_exec(&kt);
            let value = trim_exec(&v);
            if is_block_marker_exec(&value) {
                assoc_or_default_exec(&mut st.meta, &key);
                st.current_key = Some(key);
                st.block_indent = Some(indent);
            } else {
                let uq = unquote(&value);
                assoc_insert_exec(&mut st.meta, &key, &uq);
                st.current_key = None;
            }
        },
    }
}

/// Split YAML-ish frontmatter from the markdown body.
///
/// Supports `key: value` lines and folded block scalars (`key: >-`), which
/// Cursor-style `SKILL.md` files use for multi-line descriptions. Keys are
/// lower-cased; a later line for the same key overwrites the earlier value.
pub fn parse_frontmatter(text: &str) -> (r: (Frontmatter, String))
    ensures
        r.0@ == spec_parse_frontmatter(text@).0,
        r.1@ == spec_parse_frontmatter(text@).1,
{
    let all = chars_of(text);
    let normalized = if all.len() > 0 && all[0] == '\u{feff}' {
        slice_of(&all, 1, all.len())
    } else {
        all
    };
    assert(normalized@ == (if text@.len() > 0 && text@[0] == '\u{feff}' {
        text@.drop_first()
    } else {
        text@
    }));
    let fence_v = vec!['-', '-', '-'];
    assert(fence_v@ == fence());
    if !starts_with_exec(&normalized, &fence_v) {
        let body = string_of(&normalized);
        let fm = Frontmatter { entries: Vec::new() };
        assert(pairs_view(fm.entries@) =~= Seq::empty());
        return (fm, body);
    }
    let rest = if normalized.len() > 3 && normalized[3] == '\n' {
        slice_of(&normalized, 4, normalized.len())
    } else {
        slice_of(&normalized, 3, normalized.len())
    };
    assert(fm_rest(text@) == Some(rest@)) by {
        let rest0 = normalized@.skip(3);
        if rest0.len() > 0 && rest0[0] == '\n' {
            assert(rest0.drop_first() =~= rest@);
        } else {
            assert(rest0 =~= rest@);
        }
    }
    let mut st = FmExec { meta: Vec::new(), current_key: None, block_indent: None };
    assert(st.view_state().meta =~= fm_init().meta);
    let ghost goal = fm_scan(rest@, fm_init());
    let mut pos: usize = 0;
    assert(rest@.skip(0) =~= rest@);
    let mut body: Option<Vec<char>> = None;
    while pos < rest.len()
        invariant_except_break
            pos <= rest.len(),
            fm_scan(rest@.skip(pos as int), st.view_state()) == goal,
            body is None,
        ensures
            match body {
                Some(b) => goal == (st.view_state().meta, Some(b@)),
                None => goal == (st.view_state().meta, None::<Seq<char>>),
            },
        decreases rest.len() - pos,
    {
        let ghost s = rest@.skip(pos as int);
        match find_char_from(&rest, '\n', pos) {
            Some(nl) => {
                proof {
                    text::lemma_first_index(s, '\n');
                    assert(text::first_index(s, '\n') == Some((nl - pos) as int));
                }
                let raw = slice_of(&rest, pos, nl);
                assert(raw@ == s.take(nl - pos));
                let line = if raw.len() > 0 && raw[raw.len() - 1] == '\r' {
                    slice_of(&raw, 0, raw.len() - 1)
                } else {
                    raw
                };
                assert(line@ == strip_cr(s.take(nl - pos)));
                let te = trim_end_exec(&line);
                assert(s.skip(nl - pos + 1) =~= rest@.skip(nl + 1));
                if is_fence_exec(&te) {
                    body = Some(slice_of(&rest, nl + 1, rest.len()));
                    assert(body->0@ =~= rest@.skip(nl + 1));
                    break ;
                }
                fm_step_exec(&mut st, &line);
                pos = nl + 1;
            },
            None => {
                proof {
                    text::lemma_first_index(s, '\n');
                    assert(text::first_index(s, '\n') == None::<int>);
                }
                let line = slice_of(&rest, pos, rest.len());
                assert(line@ =~= s);
                let te = trim_end_exec(&line);
                if is_fence_exec(&te) {
                    body = Some(Vec::new());
                    assert(body->0@ =~= Seq::<char>::empty());
                    break ;
                }
                fm_step_exec(&mut st, &line);
                pos = rest.len();
                assert(rest@.skip(pos as int) =~= Seq::<char>::empty());
            },
        }
    }
    let body_text = match body {
        Some(b) => string_of(&b),
        None => string_of(&rest),
    };
    (Frontmatter { entries: st.meta }, body_text)
}

// ---------------------------------------------------------------------------
// Rewriting the `enabled` flag
// ---------------------------------------------------------------------------
pub open spec fn bool_text(value: bool) -> Seq<char> {
    if value {
        "true"@
    } else {
        "false"@
    }
}

/// The line that records the flag.
pub open spec fn enabled_line(value: bool) -> Seq<char> {
    "enabled: "@ + bool_text(value) + seq!['\n']
}

/// A frontmatter line whose key is `enabled` (any ASCII case).
pub open spec fn is_enabled_line(t: Seq<char>) -> bool {
    match text::split_once(t, ':') {
        Some((k, _)) => text::eq_ignore_case(text::trim(k), "enabled"@),
        None => false,
    }
}

/// Copy the lines of `s` (each with its `\n`), replacing the first
/// `enabled:` line of the frontmatter by `flag`, dropping any later one, and
/// adding `flag` before the closing fence when the frontmatter had none.
pub open spec fn flag_scan(s: Seq<char>, flag: Seq<char>, replaced: bool, closed: bool) -> Seq<char>
    decreases s.len(),
{
    if s.len() == 0 {
        Seq::empty()
    } else {
        let cut = match text::first_index(s, '\n') {
            Some(i) => i + 1,
            None => s.len() as int,
        };
        if 0 < cut <= s.len() {
            let line = s.take(cut);
            let next = s.skip(cut);
            if !closed && text::trim_end(line) == fence() {
                (if replaced {
                    Seq::empty()
                } else {
                    flag
                }) + line + flag_scan(next, flag, true, true)
            } else if !closed && is_enabled_line(text::trim_end(line)) {
                (if replaced {
                    Seq::empty()
                } else {
                    flag
                }) + flag_scan(next, flag, true, false)
            } else {
                line + flag_scan(next, flag, replaced, closed)
            }
        } else {
            Seq::empty()
        }
    }
}

/// The text of a markdown asset after setting its `enabled` flag. A file
/// without frontmatter gets a minimal one naming it `name`.
pub open spec fn spec_set_enabled_text(text: Seq<char>, name: Seq<char>, value: bool) -> Seq<char> {
    if text::starts_with(text, "---\n"@) {
        "---\n"@ + flag_scan(text.skip(4), enabled_line(value), false, false)
    } else {
        "---\nname: "@ + name + "\nenabled: "@ + bool_text(value) + "\n---\n\n"@ + text
    }
}

fn is_enabled_line_exec(t: &Vec<char>) -> (r: bool)
    ensures
        r == is_enabled_line(t@),
{
    match split_once_exec(t, ':') {
        Some((k, _)) => {
            let kt = trim_exec(&k);
            text::eq_ignore_case_exec(&kt, &chars_of("enabled"))
        },
        None => false,
    }
}

/// Set the `enabled` flag of a markdown asset's text, touching only the
/// frontmatter `enabled:` line (inserting one when missing) so the rest of
/// the file — comments and formatting included — is kept as it was.
pub fn set_enabled_text(text: &str, name: &str, value: bool) -> (r: String)
    ensures
        r@ == spec_set_enabled_text(text@, name@, value),
{
    let all = chars_of(text);
    let prefix = vec!['-', '-', '-', '\n'];
    proof {
        reveal_strlit("---\n");
        assert(prefix@ =~= "---\n"@);
    }
    let mut out: Vec<char> = Vec::new();
    if !starts_with_exec(&all, &prefix) {
        text::extend_str(&mut out, "---\nname: ");
        text::extend_str(&mut out, name);
        text::extend_str(&mut out, "\nenabled: ");
        text::extend_str(&mut out, if value { "true" } else { "false" });
        text::extend_str(&mut out, "\n---\n\n");
        extend_chars(&mut out, &all);
        return string_of(&out);
    }
    let mut flag: Vec<char> = Vec::new();
    text::extend_str(&mut flag, "enabled: ");
    text::extend_str(&mut flag, if value { "true" } else { "false" });
    flag.push('\n');
    assert(flag@ =~= enabled_line(value));
    let rest = slice_of(&all, 4, all.len());
    assert(rest@ =~= text@.skip(4));
    extend_chars(&mut out, &prefix);
    let ghost goal = "---\n"@ + flag_scan(rest@, flag@, false, false);
    let mut replaced = false;
    let mut closed = false;
    let mut pos: usize = 0;
    assert(rest@.skip(0) =~= rest@);
    while pos < rest.len()
        invariant
            pos <= rest.len(),
            out@ + flag_scan(rest@.skip(pos as int), flag@, replaced, closed) == goal,
        decreases rest.len() - pos,
    {
        let ghost s = rest@.skip(pos as int);
        proof {
            text::lemma_first_index(s, '\n');
        }
        let cut = match find_char_from(&rest, '\n', pos) {
            Some(nl) => nl + 1,
            None => rest.len(),
        };
        assert(cut - pos == match text::first_index(s, '\n') {
            Some(i) => i + 1,
            None => s.len() as int,
        });
        let line = slice_of(&rest, pos, cut);
        assert(line@ =~= s.take(cut - pos));
        assert(s.skip(cut - pos) =~= rest@.skip(cut as int));
        let te = trim_end_exec(&line);
        if !closed && is_fence_exec(&te) {
            if !replaced {
                extend_chars(&mut out, &flag);
            }
            extend_chars(&mut out, &line);
            replaced = true;
            closed = true;
        } else if !closed && is_enabled_line_exec(&te) {
            if !replaced {
                extend_chars(&mut out, &flag);
            }
            replaced = true;
        } else {
            extend_chars(&mut out, &line);
        }
        pos = cut;
    }
    assert(rest@.skip(pos as int) =~= Seq::<char>::empty());
    string_of(&out)
}

// ---------------------------------------------------------------------------
// Reading back a rewritten flag
// ---------------------------------------------------------------------------
/// Whether the rewrite of the frontmatter lines `s` gets to write the flag:
/// a closing fence or an `enabled:` line comes before the text ends.
pub open spec fn flag_due(s: Seq<char>) -> bool
    decreases s.len(),
{
    if s.len() == 0 {
        false
    } else {
        let cut = match text::first_index(s, '\n') {
            Some(i) => i + 1,
            None => s.len() as int,
        };
        if 0 < cut <= s.len() {
            let line = s.take(cut);
            text::trim_end(line) == fence() || is_enabled_line(text::trim_end(line)) || flag_due(
                s.skip(cut),
            )
        } else {
            false
        }
    }
}

/// `p` holds one `\n`, at its end.
pub open spec fn one_line(p: Seq<char>) -> bool {
    p.len() > 0 && p.last() == '\n' && forall|j: int| 0 <= j < p.len() - 1 ==> #[trigger] p[j] != '\n'
}

proof fn lemma_trim_end_push_ws(x: Seq<char>, c: char)
    requires
        text::is_ws(c),
    ensures
        text::trim_end(x.push(c)) == text::trim_end(x),
{
    let y = x.push(c);
    assert(y.drop_last() =~= x);
    assert(text::trail_ws(y) == 1 + text::trail_ws(x));
    text::lemma_trail_ws_bound(x);
    assert(text::trim_end(y) =~= text::trim_end(x));
}

/// The text `strip_cr(p.drop_last())` that the parser sees of a line `p`
/// has the same trailing-trimmed form as the line.
proof fn lemma_line_trim_end(p: Seq<char>)
    requires
        p.len() > 0,
        p.last() == '\n',
    ensures
        text::trim_end(strip_cr(p.drop_last())) == text::trim_end(p),
{
    let x = p.drop_last();
    assert(x.push('\n') =~= p);
    lemma_trim_end_push_ws(x, '\n');
    if x.len() > 0 && x.last() == '\r' {
        assert(x.drop_last().push('\r') =~= x);
        lemma_trim_end_push_ws(x.drop_last(), '\r');
    }
}

/// Parsing a line followed by more text: the line is stepped over, unless
/// it is the closing fence.
proof fn lemma_scan_line(p: Seq<char>, x: Seq<char>, st: FmState)
    requires
        one_line(p),
    ensures
        text::trim_end(p) == fence() ==> fm_scan(p + x, st) == (st.meta, Some(x)),
        text::trim_end(p) != fence() ==> fm_scan(p + x, st) == fm_scan(
            x,
            fm_step(st, strip_cr(p.drop_last())),
        ),
{
    let s = p + x;
    let i = p.len() - 1;
    assert(s[i] == '\n');
    assert forall|j: int| 0 <= j < i implies #[trigger] s[j] != '\n' by {
        assert(s[j] == p[j]);
    }
    text::lemma_first_index_is(s, '\n', i);
    assert(s.take(i) =~= p.drop_last());
    assert(s.skip(i + 1) =~= x);
    lemma_line_trim_end(p);
}

/// Parsing a last line that ends the text without a `\n`.
proof fn lemma_scan_last(p: Seq<char>, st: FmState)
    requires
        p.len() > 0,
        forall|j: int| 0 <= j < p.len() ==> #[trigger] p[j] != '\n',
    ensures
        text::trim_end(p) == fence() ==> fm_scan(p, st) == (st.meta, Some(Seq::<char>::empty())),
        text::trim_end(p) != fence() ==> fm_scan(p, st) == (fm_step(st, p).meta, None::<Seq<char>>),
{
    text::lemma_first_index_none(p, '\n');
}

proof fn lemma_assoc_same_keys(m: Seq<(Seq<char>, Seq<char>)>, m2: Seq<(Seq<char>, Seq<char>)>, e: Seq<char>)
    requires
        m.len() == m2.len(),
        forall|j: int| 0 <= j < m.len() ==> #[trigger] m[j].0 == m2[j].0,
    ensures
        assoc_find(m, e) == assoc_find(m2, e),
    decreases m.len(),
{
    if m.len() > 0 {
        assert(m[0].0 == m2[0].0);
        assert forall|j: int| 0 <= j < m.len() - 1 implies #[trigger] m.drop_first()[j].0 == m2.drop_first()[j].0 by {
            assert(m.drop_first()[j] == m[j + 1]);
            assert(m2.drop_first()[j] == m2[j + 1]);
        }
        lemma_assoc_same_keys(m.drop_first(), m2.drop_first(), e);
    }
}

/// Writing one key leaves the value of any other key as it was, and the
/// written key reads back what was written.
proof fn lemma_assoc_insert_get(m: Seq<(Seq<char>, Seq<char>)>, k: Seq<char>, v: Seq<char>, e: Seq<char>)
    ensures
        k != e ==> assoc_get(assoc_insert(m, k, v), e) == assoc_get(m, e),
        k != e ==> assoc_get(assoc_or_default(m, k), e) == assoc_get(m, e),
        assoc_get(assoc_insert(m, e, v), e) == Some(v),
{
    lemma_assoc_find(m, k);
    lemma_assoc_find(m, e);
    match assoc_find(m, k) {
        Some(i) => {
            let m2 = m.update(i, (k, v));
            assert forall|j: int| 0 <= j < m.len() implies #[trigger] m[j].0 == m2[j].0 by {}
            lemma_assoc_same_keys(m, m2, e);
        },
        None => {
            let m2 = m.push((k, v));
            if k != e {
                match assoc_find(m, e) {
                    Some(x) => {
                        assert forall|j: int| 0 <= j < x implies #[trigger] m2[j].0 != e by {
                            assert(m2[j] == m[j]);
                        }
                        assert(m2[x] == m[x]);
                        lemma_assoc_find_is(m2, e, x);
                    },
                    None => {
                        assert forall|j: int| 0 <= j < m2.len() implies #[trigger] m2[j].0 != e by {
                            if j < m.len() {
                                assert(m2[j] == m[j]);
                            }
                        }
                        lemma_assoc_find_none(m2, e);
                    },
                }
                let m3 = m.push((k, Seq::<char>::empty()));
                match assoc_find(m, e) {
                    Some(x) => {
                        assert forall|j: int| 0 <= j < x implies #[trigger] m3[j].0 != e by {
                            assert(m3[j] == m[j]);
                        }
                        assert(m3[x] == m[x]);
                        lemma_assoc_find_is(m3, e, x);
                    },
                    None => {
                        assert forall|j: int| 0 <= j < m3.len() implies #[trigger] m3[j].0 != e by {
                            if j < m.len() {
                                assert(m3[j] == m[j]);
                            }
                        }
                        lemma_assoc_find_none(m3, e);
                    },
                }
            }
        },
    }
    match assoc_find(m, e) {
        Some(i) => {
            let m2 = m.update(i, (e, v));
            assert forall|j: int| 0 <= j < m.len() implies #[trigger] m[j].0 == m2[j].0 by {}
            lemma_assoc_same_keys(m, m2, e);
        },
        None => {
            let m2 = m.push((e, v));
            assert forall|j: int| 0 <= j < m.len() implies #[trigger] m2[j].0 != e by {
                assert(m2[j] == m[j]);
            }
            lemma_assoc_find_is(m2, e, m.len() as int);
        },
    }
}

/// Leading whitespace put before a text changes neither its trimmed form.
proof fn lemma_trim_ws_prefix(w: Seq<char>, k: Seq<char>)
    requires
        forall|j: int| 0 <= j < w.len() ==> text::is_ws(#[trigger] w[j]),
    ensures
        text::trim(w + k) == text::trim(k),
{
    let y = w + k;
    text::lemma_lead_ws_bound(k);
    let n: int = text::lead_ws(k) as int;
    assert forall|j: int| 0 <= j < w.len() + n implies text::is_ws(#[trigger] y[j]) by {
        if j >= w.len() {
            assert(y[j] == k[j - w.len()]);
        }
    }
    if w.len() + n < y.len() {
        assert(y[w.len() + n] == k[n]);
    }
    text::lemma_lead_ws(y, w.len() + n);
    assert(text::trim_start(y) =~= text::trim_start(k));
}

/// The key the parser reads off a line is `enabled` only for a line that
/// the rewrite counts as an `enabled:` line.
proof fn lemma_parser_key(x: Seq<char>)
    ensures
        (text::split_once(text::trim(x), ':') matches Some((k, v)) && text::lower(text::trim(k))
            == "enabled"@) ==> is_enabled_line(text::trim_end(x)),
{
    let a = text::lead_ws(x);
    text::lemma_lead_ws_bound(x);
    text::lemma_trail_ws_bound(x);
    let t = text::trim(x);
    if text::split_once(t, ':') is Some {
        let ts = text::trim_start(x);
        text::lemma_trail_ws_bound(ts);
        text::lemma_first_index(t, ':');
        let i = text::first_index(t, ':')->0;
        // `t` is not empty, so `x` has a non-blank character at `a`.
        assert(a < x.len());
        assert(ts[0] == x[a as int]);
        // The trailing blanks of the trimmed-start text are those of `x`.
        let tw = text::trail_ws(x);
        assert(tw < x.len() - a) by {
            if tw >= x.len() - a {
                assert(text::is_ws(x[a as int]));
            }
        }
        assert forall|j: int| ts.len() - tw <= j < ts.len() implies text::is_ws(#[trigger] ts[j]) by {
            assert(ts[j] == x[a + j]);
        }
        assert(!text::is_ws(ts[ts.len() - tw - 1])) by {
            assert(ts[ts.len() - tw - 1] == x[x.len() - tw - 1]);
        }
        text::lemma_trail_ws(ts, tw as int);
        let y = text::trim_end(x);
        assert(t =~= y.skip(a as int));
        assert(y.take(a as int) + t =~= y);
        // The first `:` of `y` is past its leading blanks.
        assert(y[a + i] == ':');
        assert forall|j: int| 0 <= j < a + i implies #[trigger] y[j] != ':' by {
            if j >= a {
                assert(y[j] == t[j - a]);
            } else {
                assert(text::is_ws(x[j]));
            }
        }
        text::lemma_first_index_is(y, ':', a + i);
        let k = t.take(i);
        assert(y.take(a + i) =~= y.take(a as int) + k);
        assert forall|j: int| 0 <= j < a implies text::is_ws(#[trigger] y.take(a as int)[j]) by {
            assert(y.take(a as int)[j] == x[j]);
        }
        lemma_trim_ws_prefix(y.take(a as int), k);
        reveal_strlit("enabled");
        text::lemma_plain_trim_lower("enabled"@);
    }
}

/// A line that is not an `enabled:` line leaves the flag where it was.
proof fn lemma_step_keeps_flag(st: FmState, x: Seq<char>, fv: Seq<char>)
    requires
        assoc_get(st.meta, "enabled"@) == Some(fv),
        st.current_key != Some("enabled"@),
        !is_enabled_line(text::trim_end(x)),
    ensures
        assoc_get(fm_step(st, x).meta, "enabled"@) == Some(fv),
        fm_step(st, x).current_key != Some("enabled"@),
{
    lemma_parser_key(x);
    let trimmed = text::trim(x);
    match st.current_key {
        Some(key) => {
            let old_v = match assoc_get(st.meta, key) {
                Some(e) => e,
                None => Seq::empty(),
            };
            let joined = if old_v.len() > 0 { old_v.push(' ') + trimmed } else { trimmed };
            lemma_assoc_insert_get(st.meta, key, joined, "enabled"@);
        },
        None => {},
    }
    match text::split_once(trimmed, ':') {
        Some((k, v)) => {
            let key = text::lower(text::trim(k));
            lemma_assoc_insert_get(st.meta, key, spec_unquote(text::trim(v)), "enabled"@);
        },
        None => {},
    }
}

/// The flag line sets the flag and ends any block scalar.
proof fn lemma_step_flag(st: FmState, b: bool)
    ensures
        assoc_get(fm_step(st, enabled_line(b).drop_last()).meta, "enabled"@) == Some(bool_text(b)),
        fm_step(st, enabled_line(b).drop_last()).current_key is None,
{
    reveal_strlit("enabled: ");
    reveal_strlit("enabled");
    reveal_strlit("true");
    reveal_strlit("false");
    let l = enabled_line(b).drop_last();
    let bt = bool_text(b);
    assert(l =~= "enabled: "@ + bt);
    assert(l[0] == 'e');
    assert(l[l.len() - 1] == 'e');
    text::lemma_lead_ws(l, 0);
    text::lemma_trail_ws(l, 0);
    assert(text::trim_start(l) =~= l);
    assert(text::trim(l) =~= l);
    assert(l.take(0) =~= Seq::<char>::empty());
    assert(indent_of(l) == 0);
    assert(l[7] == ':');
    assert forall|j: int| 0 <= j < 7 implies #[trigger] l[j] != ':' by {}
    text::lemma_first_index_is(l, ':', 7);
    assert(l.take(7) =~= "enabled"@);
    text::lemma_plain_trim_lower("enabled"@);
    let v = l.skip(8);
    assert(v =~= seq![' '] + bt);
    assert(v[0] == ' ');
    assert(v[v.len() - 1] == 'e');
    text::lemma_lead_ws(v, 1);
    text::lemma_trail_ws(v, 0);
    assert(text::trim(v) =~= bt);
    assert(!is_block_marker(bt));
    text::lemma_lead_ws(bt, 0);
    text::lemma_trail_ws(bt, 0);
    assert(text::trim(bt) =~= bt);
    assert(spec_unquote(bt) == bt);
    lemma_assoc_insert_get(
        if st.current_key is Some && st.block_indent is Some { st.meta } else { st.meta },
        "enabled"@,
        bt,
        "enabled"@,
    );
}

proof fn lemma_enabled_line_one_line(b: bool)
    ensures
        one_line(enabled_line(b)),
        text::trim_end(enabled_line(b)) != fence(),
        strip_cr(enabled_line(b).drop_last()) == enabled_line(b).drop_last(),
{
    reveal_strlit("enabled: ");
    reveal_strlit("true");
    reveal_strlit("false");
    let f = enabled_line(b);
    assert(f[0] == 'e');
    assert(f.drop_last().last() == 'e');
    lemma_line_trim_end(f);
    let l = f.drop_last();
    text::lemma_trail_ws(l, 0);
    assert(text::trim_end(l) =~= l);
    assert(text::trim_end(f)[0] == 'e');
}

/// The parser reads the flag that the rewrite of the frontmatter lines `s`
/// wrote, starting from parser state `st`.
proof fn lemma_flag_scan_parse(s: Seq<char>, b: bool, replaced: bool, st: FmState)
    requires
        replaced ==> (assoc_get(st.meta, "enabled"@) == Some(bool_text(b)) && st.current_key != Some(
            "enabled"@,
        )),
        !replaced ==> flag_due(s),
    ensures
        assoc_get(fm_scan(flag_scan(s, enabled_line(b), replaced, false), st).0, "enabled"@) == Some(
            bool_text(b),
        ),
    decreases s.len(),
{
    let flag = enabled_line(b);
    let goal = Some(bool_text(b));
    lemma_enabled_line_one_line(b);
    if s.len() == 0 {
        assert(flag_scan(s, flag, replaced, false) =~= Seq::<char>::empty());
        assert(fm_scan(Seq::<char>::empty(), st).0 == st.meta);
    } else {
        text::lemma_first_index(s, '\n');
        let cut = match text::first_index(s, '\n') {
            Some(i) => i + 1,
            None => s.len() as int,
        };
        let line = s.take(cut);
        let next = s.skip(cut);
        let newline = text::first_index(s, '\n') is Some;
        if newline {
            assert(one_line(line)) by {
                assert forall|j: int| 0 <= j < line.len() - 1 implies #[trigger] line[j] != '\n' by {
                    assert(line[j] == s[j]);
                }
            }
        } else {
            assert(next =~= Seq::<char>::empty());
            assert forall|j: int| 0 <= j < line.len() implies #[trigger] line[j] != '\n' by {
                assert(line[j] == s[j]);
            }
        }
        let fl = flag.drop_last();
        let st_f = fm_step(st, fl);
        lemma_step_flag(st, b);
        if text::trim_end(line) == fence() {
            let x = flag_scan(next, flag, true, true);
            let rest = line + x;
            if newline {
                lemma_scan_line(line, x, st);
                lemma_scan_line(line, x, st_f);
            } else {
                assert(x =~= Seq::<char>::empty());
                assert(rest =~= line);
                lemma_scan_last(line, st);
                lemma_scan_last(line, st_f);
            }
            assert(fm_scan(rest, st).0 == st.meta);
            assert(fm_scan(rest, st_f).0 == st_f.meta);
            if !replaced {
                assert(flag_scan(s, flag, replaced, false) =~= flag + rest);
                lemma_scan_line(flag, rest, st);
                assert(assoc_get(fm_scan(flag + rest, st).0, "enabled"@) == goal);
            } else {
                assert(flag_scan(s, flag, replaced, false) =~= rest);
            }
        } else if is_enabled_line(text::trim_end(line)) {
            let x = flag_scan(next, flag, true, false);
            if !replaced {
                lemma_flag_scan_parse(next, b, true, st_f);
                assert(flag_scan(s, flag, replaced, false) =~= flag + x);
                lemma_scan_line(flag, x, st);
                assert(assoc_get(fm_scan(flag + x, st).0, "enabled"@) == goal);
            } else {
                lemma_flag_scan_parse(next, b, true, st);
                assert(flag_scan(s, flag, replaced, false) =~= x);
            }
        } else {
            let tail = flag_scan(next, flag, replaced, false);
            assert(flag_scan(s, flag, replaced, false) =~= line + tail);
            if newline {
                let pl = strip_cr(line.drop_last());
                lemma_scan_line(line, tail, st);
                lemma_line_trim_end(line);
                if replaced {
                    lemma_step_keeps_flag(st, pl, bool_text(b));
                } else {
                    assert(flag_due(next));
                }
                lemma_flag_scan_parse(next, b, replaced, fm_step(st, pl));
                assert(assoc_get(fm_scan(line + tail, st).0, "enabled"@) == goal);
            } else {
                assert(tail =~= Seq::<char>::empty());
                assert(line + tail =~= line);
                lemma_scan_last(line, st);
                if replaced {
                    lemma_step_keeps_flag(st, line, bool_text(b));
                } else {
                    assert(!flag_due(next));
                    assert(!flag_due(s));
                }
                assert(assoc_get(fm_scan(line, st).0, "enabled"@) == goal);
            }
        }
    }
}

proof fn lemma_reads_back_rewritten(text: Seq<char>, value: bool)
    requires
        text::starts_with(text, "---\n"@),
        flag_due(text.skip(4)),
    ensures
        assoc_get(spec_parse_frontmatter(spec_set_enabled_text(text, seq![], value)).0, "enabled"@)
            == Some(bool_text(value)),
{
    reveal_strlit("---\n");
    let out = spec_set_enabled_text(text, seq![], value);
    assert(fence() =~= seq!['-', '-', '-']);
    let f = flag_scan(text.skip(4), enabled_line(value), false, false);
    assert(out =~= "---\n"@ + f);
    assert(out.take(3) =~= fence());
    assert(out.skip(3) =~= seq!['\n'] + f);
    assert((seq!['\n'] + f).drop_first() =~= f);
    assert(fm_rest(out) == Some(f));
    lemma_flag_scan_parse(text.skip(4), value, false, fm_init());
}

#[verifier::rlimit(40)]
proof fn lemma_reads_back_fresh(text: Seq<char>, name: Seq<char>, value: bool)
    requires
        !text::starts_with(text, "---\n"@),
        !text::has_char(name, '\n'),
    ensures
        assoc_get(spec_parse_frontmatter(spec_set_enabled_text(text, name, value)).0, "enabled"@)
            == Some(bool_text(value)),
        spec_parse_frontmatter(spec_set_enabled_text(text, name, value)).1 == seq!['\n'] + text,
{
    reveal_strlit("---\n");
    reveal_strlit("---\nname: ");
    reveal_strlit("\nenabled: ");
    reveal_strlit("\n---\n\n");
    reveal_strlit("enabled: ");
    reveal_strlit("name: ");
    let out = spec_set_enabled_text(text, name, value);
    let bt = bool_text(value);
    assert(fence() =~= seq!['-', '-', '-']);
    let nl = "name: "@ + name + seq!['\n'];
    let fl = seq!['-', '-', '-', '\n'];
    let q = fl + (seq!['\n'] + text);
    let m = nl + (enabled_line(value) + q);
    assert(out =~= "---\n"@ + m);
    assert(out.take(3) =~= fence());
    assert(out.skip(3) =~= seq!['\n'] + m);
    assert((seq!['\n'] + m).drop_first() =~= m);
    assert(fm_rest(out) == Some(m));
    assert(one_line(nl)) by {
        assert forall|j: int| 0 <= j < nl.len() - 1 implies #[trigger] nl[j] != '\n' by {
            if j >= 6 {
                assert(nl[j] == name[j - 6]);
            }
        }
    }
    lemma_line_trim_end(nl);
    let pn = strip_cr(nl.drop_last());
    assert(text::trim_end(nl) != fence()) by {
        assert(nl[0] == 'n');
        text::lemma_trail_ws_bound(nl);
        if text::trim_end(nl) == fence() {
            assert(text::trim_end(nl).len() == 3);
            assert(text::trim_end(nl)[0] == nl[0]);
        }
    }
    lemma_scan_line(nl, enabled_line(value) + q, fm_init());
    let st1 = fm_step(fm_init(), pn);
    lemma_enabled_line_one_line(value);
    lemma_scan_line(enabled_line(value), q, st1);
    lemma_step_flag(st1, value);
    let st2 = fm_step(st1, enabled_line(value).drop_last());
    assert(one_line(fl));
    text::lemma_trail_ws(fl, 1);
    assert(text::trim_end(fl) =~= fence());
    lemma_scan_line(fl, seq!['\n'] + text, st2);
}

/// After the `enabled` flag of a markdown text is set to `value`, its
/// frontmatter reads back `value`. This holds of every text except one that
/// opens a frontmatter (`---` and a newline) which is never closed and has no
/// `enabled:` line: its rewrite writes no flag, and the flag reads as the
/// default `true`. The name given for a new frontmatter is a single line.
pub proof fn law_set_enabled_reads_back(text: Seq<char>, name: Seq<char>, value: bool)
    requires
        !text::has_char(name, '\n'),
        text::starts_with(text, "---\n"@) ==> flag_due(text.skip(4)),
    ensures
        assoc_get(spec_parse_frontmatter(spec_set_enabled_text(text, name, value)).0, "enabled"@)
            == Some(bool_text(value)),
        spec_parse_bool(bool_text(value), true) == value,
{
    if text::starts_with(text, "---\n"@) {
        lemma_reads_back_rewritten(text, value);
        assert(spec_set_enabled_text(text, name, value) == spec_set_enabled_text(text, seq![], value));
    } else {
        lemma_reads_back_fresh(text, name, value);
    }
    reveal_strlit("true");
    reveal_strlit("false");
    reveal_strlit("yes");
    reveal_strlit("on");
    reveal_strlit("1");
    reveal_strlit("no");
    reveal_strlit("off");
    reveal_strlit("0");
    text::lemma_plain_trim_lower(bool_text(value));
}

/// Where parsing stops does not depend on the parser state.
proof fn lemma_scan_body_stateless(s: Seq<char>, st1: FmState, st2: FmState)
    ensures
        fm_scan(s, st1).1 == fm_scan(s, st2).1,
    decreases s.len(),
{
    if s.len() > 0 {
        text::lemma_first_index(s, '\n');
        match text::first_index(s, '\n') {
            Some(i) => {
                let line = strip_cr(s.take(i));
                if text::trim_end(line) != fence() {
                    lemma_scan_body_stateless(s.skip(i + 1), fm_step(st1, line), fm_step(st2, line));
                }
            },
            None => {},
        }
    }
}

/// Past the closing fence the rewrite copies the text unchanged.
proof fn lemma_flag_scan_closed(s: Seq<char>, flag: Seq<char>, replaced: bool)
    ensures
        flag_scan(s, flag, replaced, true) == s,
    decreases s.len(),
{
    if s.len() > 0 {
        text::lemma_first_index(s, '\n');
        let cut = match text::first_index(s, '\n') {
            Some(i) => i + 1,
            None => s.len() as int,
        };
        lemma_flag_scan_closed(s.skip(cut), flag, replaced);
        assert(s.take(cut) + s.skip(cut) =~= s);
    }
}

/// The rewrite of the frontmatter lines `s` leaves the closing fence, and
/// what follows it, where the parser finds them.
proof fn lemma_flag_scan_body(s: Seq<char>, b: bool, replaced: bool, st1: FmState, st2: FmState)
    ensures
        fm_scan(flag_scan(s, enabled_line(b), replaced, false), st1).1 == fm_scan(s, st2).1,
    decreases s.len(),
{
    let flag = enabled_line(b);
    lemma_enabled_line_one_line(b);
    let fst = fm_step(st1, strip_cr(flag.drop_last()));
    if s.len() > 0 {
        text::lemma_first_index(s, '\n');
        match text::first_index(s, '\n') {
            Some(i) => {
                let p = s.take(i + 1);
                let next = s.skip(i + 1);
                assert(p + next =~= s);
                assert(one_line(p)) by {
                    assert forall|j: int| 0 <= j < p.len() - 1 implies #[trigger] p[j] != '\n' by {
                        assert(p[j] == s[j]);
                    }
                }
                lemma_scan_line(p, next, st2);
                let pst2 = fm_step(st2, strip_cr(p.drop_last()));
                let fz = if replaced { Seq::<char>::empty() } else { flag };
                if text::trim_end(p) == fence() {
                    assert(flag_scan(s, flag, replaced, false) == fz + p + flag_scan(next, flag, true, true));
                    lemma_flag_scan_closed(next, flag, true);
                    lemma_scan_line(p, next, st1);
                    if !replaced {
                        assert((flag + p) + next =~= flag + (p + next));
                        lemma_scan_line(flag, p + next, st1);
                        lemma_scan_line(p, next, fst);
                    } else {
                        assert(Seq::<char>::empty() + p + next =~= p + next);
                    }
                } else if is_enabled_line(text::trim_end(p)) {
                    let rest = flag_scan(next, flag, true, false);
                    assert(flag_scan(s, flag, replaced, false) == fz + rest);
                    lemma_flag_scan_body(next, b, true, st1, pst2);
                    if !replaced {
                        lemma_scan_line(flag, rest, st1);
                        lemma_flag_scan_body(next, b, true, fst, pst2);
                    } else {
                        assert(Seq::<char>::empty() + rest =~= rest);
                    }
                } else {
                    let rest = flag_scan(next, flag, replaced, false);
                    assert(flag_scan(s, flag, replaced, false) == p + rest);
                    lemma_scan_line(p, rest, st1);
                    lemma_flag_scan_body(next, b, replaced, fm_step(st1, strip_cr(p.drop_last())), pst2);
                }
            },
            None => {
                assert(s.take(s.len() as int) =~= s);
                assert(s.skip(s.len() as int) =~= Seq::<char>::empty());
                lemma_scan_last(s, st2);
                lemma_scan_last(s, st1);
                let e = Seq::<char>::empty();
                assert(flag_scan(e, flag, true, true) == e);
                assert(flag_scan(e, flag, true, false) == e);
                let fz = if replaced { e } else { flag };
                if text::trim_end(s) == fence() {
                    assert(flag_scan(s, flag, replaced, false) == fz + s + flag_scan(e, flag, true, true));
                    if !replaced {
                        assert((flag + s) + Seq::<char>::empty() =~= flag + s);
                        lemma_scan_line(flag, s, st1);
                        lemma_scan_last(s, fst);
                    } else {
                        assert(Seq::<char>::empty() + s + Seq::<char>::empty() =~= s);
                    }
                } else if is_enabled_line(text::trim_end(s)) {
                    assert(flag_scan(s, flag, replaced, false) == fz + flag_scan(e, flag, true, false));
                    if !replaced {
                        assert(flag + Seq::<char>::empty() =~= flag);
                        assert(flag =~= flag + Seq::<char>::empty());
                        lemma_scan_line(flag, Seq::<char>::empty(), st1);
                    } else {
                        assert(Seq::<char>::empty() + Seq::<char>::empty() =~= Seq::<char>::empty());
                    }
                } else {
                    assert(flag_scan(e, flag, replaced, false) == e);
                    assert(flag_scan(s, flag, replaced, false) == s + flag_scan(e, flag, replaced, false));
                    assert(s + e =~= s);
                    lemma_scan_body_stateless(s, st1, st2);
                }
            },
        }
    }
}

/// Setting the `enabled` flag keeps the markdown body. A text whose
/// frontmatter opens with `---` and a newline and is closed keeps everything
/// after its closing fence; any other text is kept whole, after the new
/// frontmatter and one blank line. The name given for a new frontmatter is a
/// single line.
pub proof fn law_set_enabled_keeps_body(text: Seq<char>, name: Seq<char>, value: bool)
    requires
        !text::has_char(name, '\n'),
        text::starts_with(text, "---\n"@) ==> fm_scan(text.skip(4), fm_init()).1 is Some,
    ensures
        text::starts_with(text, "---\n"@) ==> spec_parse_frontmatter(spec_set_enabled_text(text, name, value)).1
            == spec_parse_frontmatter(text).1,
        !text::starts_with(text, "---\n"@) ==> spec_parse_frontmatter(spec_set_enabled_text(text, name, value)).1
            == seq!['\n'] + text,
{
    reveal_strlit("---\n");
    assert(fence() =~= seq!['-', '-', '-']);
    if text::starts_with(text, "---\n"@) {
        let out = spec_set_enabled_text(text, name, value);
        let f = flag_scan(text.skip(4), enabled_line(value), false, false);
        assert(out =~= "---\n"@ + f);
        assert(out.take(3) =~= fence());
        assert(out.skip(3) =~= seq!['\n'] + f);
        assert((seq!['\n'] + f).drop_first() =~= f);
        assert(fm_rest(out) == Some(f));
        assert(text.take(3) =~= fence());
        assert(text.skip(3) =~= seq!['\n'] + text.skip(4));
        assert((seq!['\n'] + text.skip(4)).drop_first() =~= text.skip(4));
        assert(fm_rest(text) == Some(text.skip(4)));
        lemma_flag_scan_body(text.skip(4), value, false, fm_init(), fm_init());
    } else {
        lemma_reads_back_fresh(text, name, value);
    }
}

} // verus!

