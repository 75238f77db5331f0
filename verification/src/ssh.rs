//! OpenSSH `~/.ssh/config` Host entries: the hosts a config declares, how
//! they are listed, and the arguments `ssh` / `scp` are run with for them.
//! Reading files (and the files an `Include` names) is the application's.
use vstd::prelude::*;

use crate::assets::{lex_lt, lex_lt_exec};
use crate::order;
use crate::paths::{self, path_join, path_is_absolute, path_parent, path_file_name, path_strip_prefix, home_dir};
use crate::text::{self, chars_of, string_of, slice_of, trim_exec, lower_exec, chars_eq_str, push_str, push_chars, is_ws_exec, find_char_exec, lines_exec, decimal_exec, has_char_exec};

verus! {

/// A remote host reachable over SSH.
#[derive(Debug, Clone)]
pub struct SshHost {
    pub user: Option<String>,
    pub host: String,
    pub port: Option<usize>,
    /// The `Host` alias of `~/.ssh/config`, when the entry came from there.
    pub alias: Option<String>,
    pub identity_file: Option<String>,
    pub identities_only: Option<bool>,
    pub server_alive_interval: Option<u64>,
    pub server_alive_count_max: Option<u64>,
}

pub open spec fn opt_view(o: Option<String>) -> Option<Seq<char>> {
    match o {
        Some(s) => Some(s@),
        None => None,
    }
}

/// An SSH host as plain values.
pub struct SshHostView {
    pub user: Option<Seq<char>>,
    pub host: Seq<char>,
    pub port: Option<usize>,
    pub alias: Option<Seq<char>>,
    pub identity_file: Option<Seq<char>>,
    pub identities_only: Option<bool>,
    pub server_alive_interval: Option<u64>,
    pub server_alive_count_max: Option<u64>,
}

impl View for SshHost {
    type V = SshHostView;

    open spec fn view(&self) -> SshHostView {
        SshHostView {
            user: opt_view(self.user),
            host: self.host@,
            port: self.port,
            alias: opt_view(self.alias),
            identity_file: opt_view(self.identity_file),
            identities_only: self.identities_only,
            server_alive_interval: self.server_alive_interval,
            server_alive_count_max: self.server_alive_count_max,
        }
    }
}

/// `user@host`, or the host alone.
pub open spec fn spec_user_host(h: SshHostView) -> Seq<char> {
    match h.user {
        Some(u) => u + "@"@ + h.host,
        None => h.host,
    }
}

/// The name a host is listed under: its alias, else `user@host`.
pub open spec fn spec_display_name(h: SshHostView) -> Seq<char> {
    match h.alias {
        Some(a) => a,
        None => spec_user_host(h),
    }
}

fn copy_opt(o: &Option<String>) -> (r: Option<String>)
    ensures
        opt_view(r) == opt_view(*o),
{
    match o {
        Some(s) => Some(string_of(&chars_of(s.as_str()))),
        None => None,
    }
}

impl SshHost {
    /// A copy with the same view.
    pub fn copy(&self) -> (r: SshHost)
        ensures
            r@ == self@,
    {
        SshHost {
            user: copy_opt(&self.user),
            host: string_of(&chars_of(self.host.as_str())),
            port: self.port,
            alias: copy_opt(&self.alias),
            identity_file: copy_opt(&self.identity_file),
            identities_only: self.identities_only,
            server_alive_interval: self.server_alive_interval,
            server_alive_count_max: self.server_alive_count_max,
        }
    }

    /// `user@host`, or the host alone.
    pub fn user_host(&self) -> (r: String)
        ensures
            r@ == spec_user_host(self@),
    {
        let mut out = String::new();
        match &self.user {
            Some(u) => {
                push_str(&mut out, u.as_str());
                push_str(&mut out, "@");
                push_str(&mut out, self.host.as_str());
            },
            None => push_str(&mut out, self.host.as_str()),
        }
        out
    }

    /// The name the host is listed under: its alias, else `user@host`.
    pub fn display_name(&self) -> (r: String)
        ensures
            r@ == spec_display_name(self@),
    {
        match &self.alias {
            Some(a) => string_of(&chars_of(a.as_str())),
            None => self.user_host(),
        }
    }

    /// What `ssh` is pointed at: the alias (so OpenSSH applies the config
    /// entry), else `user@host`.
    pub fn ssh_cli_target(&self) -> (r: String)
        ensures
            r@ == spec_display_name(self@),
    {
        self.display_name()
    }
}

// ---------------------------------------------------------------------------
// Lexing a config line
// ---------------------------------------------------------------------------
/// Index of the first whitespace character.
pub open spec fn first_ws(s: Seq<char>) -> Option<int>
    decreases s.len(),
{
    if s.len() == 0 {
        None
    } else if text::is_ws(s[0]) {
        Some(0)
    } else {
        match first_ws(s.drop_first()) {
            Some(i) => Some(i + 1),
            None => None,
        }
    }
}

proof fn lemma_first_ws(s: Seq<char>)
    ensures
        match first_ws(s) {
            Some(i) => 0 <= i < s.len() && text::is_ws(s[i]) && forall|j: int|
                0 <= j < i ==> !text::is_ws(#[trigger] s[j]),
            None => forall|j: int| 0 <= j < s.len() ==> !text::is_ws(#[trigger] s[j]),
        },
    decreases s.len(),
{
    if s.len() > 0 && !text::is_ws(s[0]) {
        let t = s.drop_first();
        lemma_first_ws(t);
        assert forall|j: int| 0 < j < s.len() implies s[j] == t[j - 1] by {}
    }
}

proof fn lemma_first_ws_is(s: Seq<char>, i: int)
    requires
        0 <= i <= s.len(),
        i < s.len() ==> text::is_ws(s[i]),
        forall|j: int| 0 <= j < i ==> !text::is_ws(#[trigger] s[j]),
    ensures
        first_ws(s) == (if i < s.len() { Some(i) } else { None::<int> }),
{
    lemma_first_ws(s);
    match first_ws(s) {
        Some(k) => {
            if k < i {
                assert(!text::is_ws(s[k]));
            }
            if k > i {
                assert(text::is_ws(s[i]));
            }
        },
        None => {
            if i < s.len() {
                assert(!text::is_ws(s[i]));
            }
        },
    }
}

fn first_ws_exec(v: &Vec<char>) -> (r: Option<usize>)
    ensures
        match first_ws(v@) {
            Some(i) => r == Some(i as usize),
            None => r is None,
        },
        r matches Some(i) ==> i < v.len(),
{
    let mut i: usize = 0;
    while i < v.len() && !is_ws_exec(v[i])
        invariant
            i <= v.len(),
            forall|j: int| 0 <= j < i ==> !text::is_ws(#[trigger] v@[j]),
        decreases v.len() - i,
    {
        i = i + 1;
    }
    proof {
        lemma_first_ws_is(v@, i as int);
    }
    if i < v.len() {
        Some(i)
    } else {
        None
    }
}

/// `key = value`, `key value`, or a lone key, both parts trimmed.
pub open spec fn split_key_value(line: Seq<char>) -> (Seq<char>, Seq<char>) {
    match text::split_once(line, '=') {
        Some((k, v)) => (text::trim(k), text::trim(v)),
        None => match first_ws(line) {
            Some(i) => (text::trim(line.take(i)), text::trim(line.skip(i + 1))),
            None => (line, Seq::empty()),
        },
    }
}

fn split_key_value_exec(line: &Vec<char>) -> (r: (Vec<char>, Vec<char>))
    ensures
        (r.0@, r.1@) == split_key_value(line@),
{
    proof {
        text::lemma_first_index(line@, '=');
        lemma_first_ws(line@);
    }
    match find_char_exec(line, '=') {
        Some(i) => {
            let k = slice_of(line, 0, i);
            let v = slice_of(line, i + 1, line.len());
            assert(k@ =~= line@.take(i as int));
            assert(v@ =~= line@.skip(i + 1));
            (trim_exec(&k), trim_exec(&v))
        },
        None => match first_ws_exec(line) {
            Some(i) => {
                let k = slice_of(line, 0, i);
                let v = slice_of(line, i + 1, line.len());
                assert(k@ =~= line@.take(i as int));
                assert(v@ =~= line@.skip(i + 1));
                (trim_exec(&k), trim_exec(&v))
            },
            None => {
                let k = slice_of(line, 0, line.len());
                let v: Vec<char> = Vec::new();
                assert(k@ =~= line@);
                assert(v@ =~= Seq::<char>::empty());
                (k, v)
            },
        },
    }
}

/// The whitespace-separated words of `s` (`str::split_whitespace`).
pub open spec fn words(s: Seq<char>) -> Seq<Seq<char>>
    decreases s.len(),
{
    let t = text::trim_start(s);
    if t.len() == 0 || t.len() > s.len() {
        Seq::empty()
    } else {
        match first_ws(t) {
            Some(n) => if 0 < n < t.len() {
                seq![t.take(n)] + words(t.skip(n))
            } else {
                seq![t]
            },
            None => seq![t],
        }
    }
}

fn words_exec(v: &Vec<char>) -> (r: Vec<Vec<char>>)
    ensures
        r@.map_values(|w: Vec<char>| w@) == words(v@),
{
    let mut out: Vec<Vec<char>> = Vec::new();
    let mut rest = slice_of(v, 0, v.len());
    assert(rest@ =~= v@);
    let ghost goal = words(v@);
    assert(out@.map_values(|w: Vec<char>| w@) =~= Seq::<Seq<char>>::empty());
    loop
        invariant
            goal == words(v@),
            out@.map_values(|w: Vec<char>| w@) + words(rest@) == goal,
        decreases rest.len(),
    {
        let ghost before = out@.map_values(|w: Vec<char>| w@);
        let t = text::trim_start_exec(&rest);
        proof {
            text::lemma_lead_ws_bound(rest@);
        }
        assert(t@.len() <= rest@.len());
        if t.len() == 0 {
            assert(words(rest@) =~= Seq::<Seq<char>>::empty());
            assert(before + Seq::<Seq<char>>::empty() =~= before);
            return out;
        }
        proof {
            lemma_first_ws(t@);
        }
        match first_ws_exec(&t) {
            Some(n) => {
                assert(t@[0] == rest@[text::lead_ws(rest@) as int]);
                assert(n > 0);
                let w = slice_of(&t, 0, n);
                let r2 = slice_of(&t, n, t.len());
                assert(w@ =~= t@.take(n as int));
                assert(r2@ =~= t@.skip(n as int));
                out.push(w);
                assert(out@.map_values(|w: Vec<char>| w@) =~= before.push(t@.take(n as int)));
                assert(before.push(t@.take(n as int)) + words(r2@) =~= before + (seq![t@.take(n as int)]
                    + words(r2@)));
                rest = r2;
            },
            None => {
                out.push(t);
                assert(out@.map_values(|w: Vec<char>| w@) =~= before.push(t@));
                assert(before + seq![t@] =~= before.push(t@));
                return out;
            },
        }
    }
}


// ---------------------------------------------------------------------------
// Values of directives
// ---------------------------------------------------------------------------
/// `yes` / `true` / `1` and `no` / `false` / `0`, trimmed, ASCII case ignored.
pub open spec fn parse_yes_no(value: Seq<char>) -> Option<bool> {
    let v = text::lower(text::trim(value));
    if v == "yes"@ || v == "true"@ || v == "1"@ {
        Some(true)
    } else if v == "no"@ || v == "false"@ || v == "0"@ {
        Some(false)
    } else {
        None
    }
}

fn parse_yes_no_exec(value: &Vec<char>) -> (r: Option<bool>)
    ensures
        r == parse_yes_no(value@),
{
    let v = lower_exec(&trim_exec(value));
    if chars_eq_str(&v, "yes") || chars_eq_str(&v, "true") || chars_eq_str(&v, "1") {
        Some(true)
    } else if chars_eq_str(&v, "no") || chars_eq_str(&v, "false") || chars_eq_str(&v, "0") {
        Some(false)
    } else {
        None
    }
}

pub open spec fn all_digits(s: Seq<char>) -> bool {
    s.len() > 0 && forall|i: int| 0 <= i < s.len() ==> text::is_ascii_digit(#[trigger] s[i])
}

/// The number written by decimal digits.
pub open spec fn digits_value(s: Seq<char>) -> nat
    decreases s.len(),
{
    if s.len() == 0 {
        0
    } else {
        digits_value(s.drop_last()) * 10 + ((s.last() as nat) - ('0' as nat)) as nat
    }
}

/// What `str::parse` gives for an unsigned integer type whose largest value
/// is `max`: an optional `+`, then one or more decimal digits, no overflow.
pub open spec fn parse_uint(s: Seq<char>, max: nat) -> Option<nat> {
    let d = if s.len() > 0 && s[0] == '+' { s.drop_first() } else { s };
    if all_digits(d) && digits_value(d) <= max {
        Some(digits_value(d))
    } else {
        None
    }
}

proof fn lemma_digits_mono(s: Seq<char>, k: int)
    requires
        0 <= k <= s.len(),
        forall|i: int| 0 <= i < s.len() ==> text::is_ascii_digit(#[trigger] s[i]),
    ensures
        digits_value(s.take(k)) <= digits_value(s),
    decreases s.len() - k,
{
    if k < s.len() {
        lemma_digits_mono(s, k + 1);
        assert(s.take(k + 1).drop_last() =~= s.take(k));
        assert(text::is_ascii_digit(s[k]));
    } else {
        assert(s.take(k) =~= s);
    }
}

pub(crate) fn parse_uint_exec(s: &Vec<char>, max: u64) -> (r: Option<u64>)
    ensures
        match parse_uint(s@, max as nat) {
            Some(n) => r == Some(n as u64),
            None => r is None,
        },
{
    let start: usize = if s.len() > 0 && s[0] == '+' { 1 } else { 0 };
    let ghost d = if s@.len() > 0 && s@[0] == '+' { s@.drop_first() } else { s@ };
    assert(d =~= s@.skip(start as int));
    if start >= s.len() {
        return None;
    }
    let mut acc: u64 = 0;
    let mut i: usize = start;
    while i < s.len()
        invariant
            start <= i <= s.len(),
            start < s.len(),
            d == s@.skip(start as int),
            d == (if s@.len() > 0 && s@[0] == '+' { s@.drop_first() } else { s@ }),
            forall|j: int| start <= j < i ==> text::is_ascii_digit(#[trigger] s@[j]),
            acc as nat == digits_value(d.take(i - start)),
            acc <= max,
        decreases s.len() - i,
    {
        let c = s[i];
        assert(d.take(i + 1 - start).drop_last() =~= d.take(i - start));
        assert(d.take(i + 1 - start).last() == c);
        assert(d[i - start] == s@[i as int]);
        if !('0' <= c && c <= '9') {
            assert(!text::is_ascii_digit(d[i - start]));
            assert(!all_digits(d));
            return None;
        }
        let digit: u64 = (c as u32 - '0' as u32) as u64;
        let next: u128 = acc as u128 * 10 + digit as u128;
        assert(next == digits_value(d.take(i + 1 - start)));
        if next > max as u128 {
            proof {
                if all_digits(d) {
                    lemma_digits_mono(d, i + 1 - start);
                }
            }
            return None;
        }
        acc = next as u64;
        i = i + 1;
    }
    assert(d.take(i - start) =~= d);
    Some(acc)
}

// ---------------------------------------------------------------------------
// Host blocks
// ---------------------------------------------------------------------------
/// The settings collected for one `Host` block.
struct HostBuilder {
    alias: String,
    hostname: Option<String>,
    user: Option<String>,
    port: Option<usize>,
    identity_file: Option<String>,
    identities_only: Option<bool>,
    server_alive_interval: Option<u64>,
    server_alive_count_max: Option<u64>,
}

pub struct BuilderView {
    pub alias: Seq<char>,
    pub hostname: Option<Seq<char>>,
    pub user: Option<Seq<char>>,
    pub port: Option<usize>,
    pub identity_file: Option<Seq<char>>,
    pub identities_only: Option<bool>,
    pub server_alive_interval: Option<u64>,
    pub server_alive_count_max: Option<u64>,
}

impl View for HostBuilder {
    type V = BuilderView;

    closed spec fn view(&self) -> BuilderView {
        BuilderView {
            alias: self.alias@,
            hostname: opt_view(self.hostname),
            user: opt_view(self.user),
            port: self.port,
            identity_file: opt_view(self.identity_file),
            identities_only: self.identities_only,
            server_alive_interval: self.server_alive_interval,
            server_alive_count_max: self.server_alive_count_max,
        }
    }
}

pub open spec fn new_builder(alias: Seq<char>) -> BuilderView {
    BuilderView {
        alias,
        hostname: None,
        user: None,
        port: None,
        identity_file: None,
        identities_only: None,
        server_alive_interval: None,
        server_alive_count_max: None,
    }
}

/// The host a block declares: `HostName` (else the alias) must not be empty.
pub open spec fn build(b: BuilderView) -> Option<SshHostView> {
    let host = match b.hostname {
        Some(h) => h,
        None => b.alias,
    };
    if host.len() == 0 {
        None
    } else {
        Some(
            SshHostView {
                user: b.user,
                host,
                port: b.port,
                alias: Some(b.alias),
                identity_file: b.identity_file,
                identities_only: b.identities_only,
                server_alive_interval: b.server_alive_interval,
                server_alive_count_max: b.server_alive_count_max,
            },
        )
    }
}

impl HostBuilder {
    fn build(self) -> (r: Option<SshHost>)
        ensures
            match build(self@) {
                Some(h) => r matches Some(x) && x@ == h,
                None => r is None,
            },
    {
        let host = match &self.hostname {
            Some(h) => string_of(&chars_of(h.as_str())),
            None => string_of(&chars_of(self.alias.as_str())),
        };
        if chars_of(host.as_str()).len() == 0 {
            return None;
        }
        Some(
            SshHost {
                user: self.user,
                host,
                port: self.port,
                alias: Some(self.alias),
                identity_file: self.identity_file,
                identities_only: self.identities_only,
                server_alive_interval: self.server_alive_interval,
                server_alive_count_max: self.server_alive_count_max,
            },
        )
    }
}

/// A setting line inside a `Host` block (`key` ASCII-lower-cased).
pub open spec fn apply_directive(b: BuilderView, key: Seq<char>, value: Seq<char>) -> BuilderView {
    if key == "hostname"@ {
        BuilderView { hostname: Some(text::trim(value)), ..b }
    } else if key == "user"@ {
        BuilderView { user: Some(text::trim(value)), ..b }
    } else if key == "port"@ {
        match parse_uint(text::trim(value), usize::MAX as nat) {
            Some(n) => BuilderView { port: Some(n as usize), ..b },
            None => b,
        }
    } else if key == "identityfile"@ {
        BuilderView { identity_file: Some(text::trim(value)), ..b }
    } else if key == "identitiesonly"@ {
        match parse_yes_no(value) {
            Some(v) => BuilderView { identities_only: Some(v), ..b },
            None => b,
        }
    } else if key == "serveraliveinterval"@ {
        match parse_uint(text::trim(value), u64::MAX as nat) {
            Some(n) => BuilderView { server_alive_interval: Some(n as u64), ..b },
            None => b,
        }
    } else if key == "serveralivecountmax"@ {
        match parse_uint(text::trim(value), u64::MAX as nat) {
            Some(n) => BuilderView { server_alive_count_max: Some(n as u64), ..b },
            None => b,
        }
    } else {
        b
    }
}

/// A directive of a `Host` block sets only its own field of the host being
/// built, every other field kept: `HostName`, `User` and `IdentityFile` take
/// the trimmed value; `Port`, `ServerAliveInterval` and `ServerAliveCountMax`
/// take the number `N` the trimmed value writes in decimal digits (when it
/// fits); `IdentitiesOnly` takes `yes` as true and `no` as false; any other
/// key changes nothing.
pub proof fn law_directive_sets_its_own_field(b: BuilderView, key: Seq<char>, value: Seq<char>)
    ensures
        apply_directive(b, "hostname"@, value) == (BuilderView { hostname: Some(text::trim(value)), ..b }),
        apply_directive(b, "user"@, value) == (BuilderView { user: Some(text::trim(value)), ..b }),
        apply_directive(b, "identityfile"@, value) == (BuilderView { identity_file: Some(text::trim(value)), ..b }),
        all_digits(text::trim(value)) && digits_value(text::trim(value)) <= usize::MAX ==> apply_directive(
            b,
            "port"@,
            value,
        ) == (BuilderView { port: Some(digits_value(text::trim(value)) as usize), ..b }),
        all_digits(text::trim(value)) && digits_value(text::trim(value)) <= u64::MAX ==> apply_directive(
            b,
            "serveraliveinterval"@,
            value,
        ) == (BuilderView { server_alive_interval: Some(digits_value(text::trim(value)) as u64), ..b }),
        all_digits(text::trim(value)) && digits_value(text::trim(value)) <= u64::MAX ==> apply_directive(
            b,
            "serveralivecountmax"@,
            value,
        ) == (BuilderView { server_alive_count_max: Some(digits_value(text::trim(value)) as u64), ..b }),
        text::lower(text::trim(value)) == "yes"@ ==> apply_directive(b, "identitiesonly"@, value) == (BuilderView {
            identities_only: Some(true),
            ..b }),
        text::lower(text::trim(value)) == "no"@ ==> apply_directive(b, "identitiesonly"@, value) == (BuilderView {
            identities_only: Some(false),
            ..b }),
        key != "hostname"@ && key != "user"@ && key != "port"@ && key != "identityfile"@ && key
            != "identitiesonly"@ && key != "serveraliveinterval"@ && key != "serveralivecountmax"@
            ==> apply_directive(b, key, value) == b,
{
    reveal_strlit("hostname");
    reveal_strlit("user");
    reveal_strlit("port");
    reveal_strlit("identityfile");
    reveal_strlit("identitiesonly");
    reveal_strlit("serveraliveinterval");
    reveal_strlit("serveralivecountmax");
    reveal_strlit("yes");
    reveal_strlit("no");
    reveal_strlit("true");
    reveal_strlit("false");
    reveal_strlit("1");
    reveal_strlit("0");
    let t = text::trim(value);
    if t.len() > 0 {
        assert(all_digits(t) ==> t[0] != '+');
    }
    assert("hostname"@.len() == 8 && "user"@.len() == 4 && "port"@.len() == 4 && "identityfile"@.len() == 12);
    assert("user"@[0] != "port"@[0]);
    assert("no"@.len() == 2 && "yes"@.len() == 3 && "true"@.len() == 4 && "1"@.len() == 1);
    assert("serveraliveinterval"@[11] != "serveralivecountmax"@[11]);
    assert("identityfile"@[7] != "identitiesonly"@[7]);
}

impl HostBuilder {
    fn apply(&mut self, key: &Vec<char>, value: &Vec<char>)
        ensures
            final(self)@ == apply_directive(old(self)@, key@, value@),
    {
        if chars_eq_str(key, "hostname") {
            self.hostname = Some(string_of(&trim_exec(value)));
        } else if chars_eq_str(key, "user") {
            self.user = Some(string_of(&trim_exec(value)));
        } else if chars_eq_str(key, "port") {
            match parse_uint_exec(&trim_exec(value), usize::MAX as u64) {
                Some(n) => {
                    self.port = Some(n as usize);
                },
                None => {},
            }
        } else if chars_eq_str(key, "identityfile") {
            self.identity_file = Some(string_of(&trim_exec(value)));
        } else if chars_eq_str(key, "identitiesonly") {
            match parse_yes_no_exec(value) {
                Some(v) => {
                    self.identities_only = Some(v);
                },
                None => {},
            }
        } else if chars_eq_str(key, "serveraliveinterval") {
            match parse_uint_exec(&trim_exec(value), u64::MAX) {
                Some(n) => {
                    self.server_alive_interval = Some(n);
                },
                None => {},
            }
        } else if chars_eq_str(key, "serveralivecountmax") {
            match parse_uint_exec(&trim_exec(value), u64::MAX) {
                Some(n) => {
                    self.server_alive_count_max = Some(n);
                },
                None => {},
            }
        }
    }
}


// ---------------------------------------------------------------------------
// Reading a config text
// ---------------------------------------------------------------------------
/// What a config text declares, in order: the hosts of its `Host` blocks and
/// the patterns of its `Include` lines (whose files the caller reads).
#[derive(Debug, Clone)]
pub enum SshConfigEntry {
    Host(SshHost),
    Include(Vec<String>),
}

pub enum EntryView {
    Host(SshHostView),
    Include(Seq<Seq<char>>),
}

pub open spec fn entry_view(e: SshConfigEntry) -> EntryView {
    match e {
        SshConfigEntry::Host(h) => EntryView::Host(h@),
        SshConfigEntry::Include(ps) => EntryView::Include(ps@.map_values(|p: String| p@)),
    }
}

pub open spec fn entries_view(es: Seq<SshConfigEntry>) -> Seq<EntryView> {
    es.map_values(|e: SshConfigEntry| entry_view(e))
}

/// The parser's state after some lines: the open `Host` block, if any, and
/// what was declared before it.
pub struct ParseState {
    pub cur: Option<BuilderView>,
    pub entries: Seq<EntryView>,
}

/// The declarations once the open block is closed.
pub open spec fn flush(st: ParseState) -> Seq<EntryView> {
    match st.cur {
        Some(b) => match build(b) {
            Some(h) => st.entries.push(EntryView::Host(h)),
            None => st.entries,
        },
        None => st.entries,
    }
}

/// The first pattern of a `Host` line that names one host (no `*`, no `?`).
pub open spec fn first_concrete(ws: Seq<Seq<char>>) -> Option<Seq<char>>
    decreases ws.len(),
{
    if ws.len() == 0 {
        None
    } else if ws[0].len() > 0 && !text::has_char(ws[0], '*') && !text::has_char(ws[0], '?') {
        Some(ws[0])
    } else {
        first_concrete(ws.drop_first())
    }
}

/// One line of the config. Blank lines and `#` comments are skipped; `Host`,
/// `Match` and `Include` close the open block (`Host` opens the next one when
/// it names a concrete host); other settings apply to the open block.
pub open spec fn step(st: ParseState, raw: Seq<char>) -> ParseState {
    let line = text::trim(raw);
    if line.len() == 0 || line[0] == '#' {
        st
    } else {
        let (key, value) = split_key_value(line);
        let kl = text::lower(key);
        if kl == "include"@ {
            ParseState { cur: None, entries: flush(st).push(EntryView::Include(words(value))) }
        } else if kl == "host"@ {
            ParseState {
                cur: match first_concrete(words(value)) {
                    Some(a) => Some(new_builder(a)),
                    None => None,
                },
                entries: flush(st),
            }
        } else if kl == "match"@ {
            ParseState { cur: None, entries: flush(st) }
        } else {
            match st.cur {
                Some(b) => ParseState { cur: Some(apply_directive(b, kl, value)), entries: st.entries },
                None => st,
            }
        }
    }
}

/// Inside a `Host` block, a line `Key value` (or `Key=value`) other than
/// `Host`, `Match` and `Include` applies the directive to the block's host,
/// its key compared in any ASCII case, and declares nothing else; outside a
/// block such a line is ignored. Blank lines and `#` comments change nothing.
pub proof fn law_directive_line(st: ParseState, raw: Seq<char>)
    ensures
        (text::trim(raw).len() == 0 || text::trim(raw)[0] == '#') ==> step(st, raw) == st,
        ({
            let line = text::trim(raw);
            let key = text::lower(split_key_value(line).0);
            let value = split_key_value(line).1;
            (line.len() > 0 && line[0] != '#' && key != "include"@ && key != "host"@ && key != "match"@) ==> step(st, raw)
                == (match st.cur {
                Some(b) => ParseState { cur: Some(apply_directive(b, key, value)), entries: st.entries },
                None => st,
            })
        }),
{
}

pub open spec fn parse_lines(ls: Seq<Seq<char>>) -> ParseState
    decreases ls.len(),
{
    if ls.len() == 0 {
        ParseState { cur: None, entries: Seq::empty() }
    } else {
        step(parse_lines(ls.drop_last()), ls.last())
    }
}

/// Everything a config text declares.
pub open spec fn spec_config_entries(text: Seq<char>) -> Seq<EntryView> {
    flush(parse_lines(text::lines(text)))
}

fn first_concrete_exec(ws: &Vec<Vec<char>>) -> (r: Option<Vec<char>>)
    ensures
        match first_concrete(ws@.map_values(|w: Vec<char>| w@)) {
            Some(a) => r matches Some(x) && x@ == a,
            None => r is None,
        },
{
    let ghost wv = ws@.map_values(|w: Vec<char>| w@);
    let mut i: usize = 0;
    assert(wv.skip(0) =~= wv);
    while i < ws.len()
        invariant
            i <= ws.len(),
            wv == ws@.map_values(|w: Vec<char>| w@),
            first_concrete(wv.skip(i as int)) == first_concrete(wv),
        decreases ws.len() - i,
    {
        assert(wv.skip(i as int)[0] == ws@[i as int]@);
        assert(wv.skip(i as int).drop_first() =~= wv.skip(i + 1));
        let w = &ws[i];
        if w.len() > 0 && !has_char_exec(w, '*') && !has_char_exec(w, '?') {
            return Some(slice_of(w, 0, w.len()));
        }
        i = i + 1;
    }
    assert(wv.skip(i as int) =~= Seq::<Seq<char>>::empty());
    None
}

fn flush_exec(cur: Option<HostBuilder>, entries: &mut Vec<SshConfigEntry>)
    ensures
        entries_view(final(entries)@) == flush(
            ParseState {
                cur: match cur {
                    Some(b) => Some(b@),
                    None => None,
                },
                entries: entries_view(old(entries)@),
            },
        ),
{
    match cur {
        Some(b) => {
            match b.build() {
                Some(h) => {
                    let ghost before = entries_view(entries@);
                    entries.push(SshConfigEntry::Host(h));
                    assert(entries_view(entries@) =~= before.push(entry_view(SshConfigEntry::Host(h))));
                },
                None => {},
            }
        },
        None => {},
    }
}

fn strings_of(ws: &Vec<Vec<char>>) -> (r: Vec<String>)
    ensures
        r@.map_values(|p: String| p@) == ws@.map_values(|w: Vec<char>| w@),
{
    let mut out: Vec<String> = Vec::new();
    let mut i: usize = 0;
    while i < ws.len()
        invariant
            i <= ws.len(),
            out@.map_values(|p: String| p@) =~= ws@.take(i as int).map_values(|w: Vec<char>| w@),
        decreases ws.len() - i,
    {
        let ghost before = out@.map_values(|p: String| p@);
        out.push(string_of(&ws[i]));
        assert(out@.map_values(|p: String| p@) =~= before.push(ws@[i as int]@));
        assert(ws@.take(i + 1) =~= ws@.take(i as int).push(ws@[i as int]));
        i = i + 1;
    }
    assert(ws@.take(ws.len() as int) =~= ws@);
    out
}

/// The hosts and `Include` patterns a config text declares, in order.
pub fn parse_config_entries(config: &str) -> (r: Vec<SshConfigEntry>)
    ensures
        entries_view(r@) == spec_config_entries(config@),
{
    let ls = lines_exec(&chars_of(config));
    let ghost lv = ls@.map_values(|p: Vec<char>| p@);
    let mut cur: Option<HostBuilder> = None;
    let mut entries: Vec<SshConfigEntry> = Vec::new();
    let mut i: usize = 0;
    assert(lv.take(0) =~= Seq::<Seq<char>>::empty());
    assert(entries_view(entries@) =~= Seq::<EntryView>::empty());
    while i < ls.len()
        invariant
            i <= ls.len(),
            lv == ls@.map_values(|p: Vec<char>| p@),
            lv == text::lines(config@),
            parse_lines(lv.take(i as int)) == (ParseState {
                cur: match cur {
                    Some(b) => Some(b@),
                    None => None,
                },
                entries: entries_view(entries@),
            }),
        decreases ls.len() - i,
    {
        proof {
            assert(lv.take(i + 1).drop_last() =~= lv.take(i as int));
            assert(lv.take(i + 1).last() == ls@[i as int]@);
        }
        let line = trim_exec(&ls[i]);
        if line.len() == 0 || line[0] == '#' {
        } else {
            let (key, value) = split_key_value_exec(&line);
            let kl = lower_exec(&key);
            if chars_eq_str(&kl, "include") {
                let c = cur;
                cur = None;
                flush_exec(c, &mut entries);
                let ws = words_exec(&value);
                let ghost before = entries_view(entries@);
                let pats = strings_of(&ws);
                entries.push(SshConfigEntry::Include(pats));
                assert(entries_view(entries@) =~= before.push(EntryView::Include(words(value@))));
            } else if chars_eq_str(&kl, "host") {
                let c = cur;
                flush_exec(c, &mut entries);
                let ws = words_exec(&value);
                cur = match first_concrete_exec(&ws) {
                    Some(a) => Some(
                        HostBuilder {
                            alias: string_of(&a),
                            hostname: None,
                            user: None,
                            port: None,
                            identity_file: None,
                            identities_only: None,
                            server_alive_interval: None,
                            server_alive_count_max: None,
                        },
                    ),
                    None => None,
                };
            } else if chars_eq_str(&kl, "match") {
                let c = cur;
                cur = None;
                flush_exec(c, &mut entries);
            } else {
                match &mut cur {
                    Some(b) => {
                        b.apply(&kl, &value);
                    },
                    None => {},
                }
            }
        }
        i = i + 1;
    }
    assert(lv.take(ls.len() as int) =~= lv);
    flush_exec(cur, &mut entries);
    entries
}


// ---------------------------------------------------------------------------
// Listing hosts
// ---------------------------------------------------------------------------
pub open spec fn hosts_view(hs: Seq<SshHost>) -> Seq<SshHostView> {
    hs.map_values(|h: SshHost| h@)
}

/// The hosts of the entries in order, the `k`-th `Include` contributing the
/// `k`-th list of `included` (the hosts of the files it names, as the caller
/// read them; nothing when the list is missing).
pub open spec fn collect_hosts(entries: Seq<EntryView>, included: Seq<Seq<SshHostView>>) -> Seq<SshHostView>
    decreases entries.len(),
{
    if entries.len() == 0 {
        Seq::empty()
    } else {
        match entries[0] {
            EntryView::Host(h) => seq![h] + collect_hosts(entries.drop_first(), included),
            EntryView::Include(_) => if included.len() > 0 {
                included[0] + collect_hosts(entries.drop_first(), included.drop_first())
            } else {
                collect_hosts(entries.drop_first(), included)
            },
        }
    }
}

/// What makes two hosts the same entry: the alias, else `user@host|port`
/// (port 22 when none is set).
pub open spec fn host_key(h: SshHostView) -> Seq<char> {
    match h.alias {
        Some(a) => a,
        None => spec_user_host(h) + "|"@ + text::decimal(
            match h.port {
                Some(p) => p as nat,
                None => 22,
            },
        ),
    }
}

pub open spec fn key_taken(d: Seq<SshHostView>, key: Seq<char>) -> bool {
    exists|i: int| 0 <= i < d.len() && host_key(d[i]) == key
}

/// The first host of each key, in order.
pub open spec fn dedupe_hosts(s: Seq<SshHostView>) -> Seq<SshHostView>
    decreases s.len(),
{
    if s.len() == 0 {
        Seq::empty()
    } else {
        let d = dedupe_hosts(s.drop_last());
        if key_taken(d, host_key(s.last())) {
            d
        } else {
            d.push(s.last())
        }
    }
}

/// Sort key of a host: its display name, ASCII-lower-cased.
pub open spec fn sort_key(h: SshHostView) -> Seq<char> {
    text::lower(spec_display_name(h))
}

pub open spec fn host_insert_pos(sorted: Seq<SshHostView>, h: SshHostView) -> int
    decreases sorted.len(),
{
    if sorted.len() == 0 {
        0
    } else if lex_lt(sort_key(h), sort_key(sorted[0])) {
        0
    } else {
        1 + host_insert_pos(sorted.drop_first(), h)
    }
}

/// Stable sort by [`sort_key`] (insertion sort).
pub open spec fn sort_hosts(s: Seq<SshHostView>) -> Seq<SshHostView>
    decreases s.len(),
{
    if s.len() == 0 {
        Seq::empty()
    } else {
        let sorted = sort_hosts(s.drop_last());
        sorted.insert(host_insert_pos(sorted, s.last()), s.last())
    }
}

pub open spec fn spec_dedupe_and_sort(s: Seq<SshHostView>) -> Seq<SshHostView> {
    sort_hosts(dedupe_hosts(s))
}

proof fn lemma_host_insert_pos_step(sorted: Seq<SshHostView>, h: SshHostView, p: int)
    requires
        0 <= p <= sorted.len(),
        forall|j: int| 0 <= j < p ==> !lex_lt(sort_key(h), sort_key(#[trigger] sorted[j])),
        p == sorted.len() || lex_lt(sort_key(h), sort_key(sorted[p])),
    ensures
        host_insert_pos(sorted, h) == p,
    decreases p,
{
    if p > 0 {
        let t = sorted.drop_first();
        assert forall|j: int| 0 <= j < p - 1 implies !lex_lt(sort_key(h), sort_key(#[trigger] t[j])) by {
            assert(t[j] == sorted[j + 1]);
        }
        if p < sorted.len() {
            assert(t[p - 1] == sorted[p]);
        }
        lemma_host_insert_pos_step(t, h, p - 1);
    }
}

/// The sort key of a host, as a function.
pub open spec fn sort_key_fn() -> spec_fn(SshHostView) -> Seq<char> {
    |h: SshHostView| sort_key(h)
}

/// The identity of a host, as a function.
pub open spec fn host_key_fn() -> spec_fn(SshHostView) -> Seq<char> {
    |h: SshHostView| host_key(h)
}

proof fn lemma_host_insert_pos_is(sorted: Seq<SshHostView>, h: SshHostView)
    ensures
        host_insert_pos(sorted, h) == order::ins_pos(sorted, h, sort_key_fn()),
    decreases sorted.len(),
{
    if sorted.len() > 0 {
        lemma_host_insert_pos_is(sorted.drop_first(), h);
    }
}

proof fn lemma_sort_hosts_is(s: Seq<SshHostView>)
    ensures
        sort_hosts(s) == order::sort_by(s, sort_key_fn()),
    decreases s.len(),
{
    if s.len() > 0 {
        lemma_sort_hosts_is(s.drop_last());
        lemma_host_insert_pos_is(sort_hosts(s.drop_last()), s.last());
    }
}

proof fn lemma_dedupe_hosts_is(s: Seq<SshHostView>)
    ensures
        dedupe_hosts(s) == order::dedupe_by(s, host_key_fn()),
    decreases s.len(),
{
    if s.len() > 0 {
        lemma_dedupe_hosts_is(s.drop_last());
        let d = dedupe_hosts(s.drop_last());
        let k = host_key(s.last());
        if key_taken(d, k) {
            let i = choose|i: int| 0 <= i < d.len() && host_key(d[i]) == k;
            assert((host_key_fn())(d[i]) == k);
        }
        if order::taken_by(d, k, host_key_fn()) {
            let i = choose|i: int| 0 <= i < d.len() && (host_key_fn())(#[trigger] d[i]) == k;
            assert(host_key(d[i]) == k);
        }
        assert((host_key_fn())(s.last()) == k);
    }
}

/// The host list is sorted by ASCII-lower-cased display name, never holds two
/// hosts of the same key (alias, else `user@host|port`), keeps every key that
/// was read, and keeps the first host read for each key.
pub proof fn law_dedupe_and_sort_hosts(hosts: Seq<SshHostView>)
    ensures
        order::sorted_by(spec_dedupe_and_sort(hosts), sort_key_fn()),
        order::unique_by(spec_dedupe_and_sort(hosts), host_key_fn()),
        forall|i: int|
            0 <= i < hosts.len() ==> order::taken_by(spec_dedupe_and_sort(hosts), host_key(#[trigger] hosts[i]), host_key_fn()),
        forall|j: int|
            0 <= j < spec_dedupe_and_sort(hosts).len() ==> order::first_of(
                hosts,
                #[trigger] spec_dedupe_and_sort(hosts)[j],
                host_key_fn(),
            ),
{
    lemma_dedupe_hosts_is(hosts);
    let d = dedupe_hosts(hosts);
    lemma_sort_hosts_is(d);
    order::lemma_dedupe_by(hosts, host_key_fn());
    order::lemma_sort_by(d, sort_key_fn());
    order::lemma_sort_unique(d, sort_key_fn(), host_key_fn());
    let m = sort_hosts(d);
    assert forall|i: int| 0 <= i < hosts.len() implies order::taken_by(m, host_key(#[trigger] hosts[i]), host_key_fn()) by {
        assert((host_key_fn())(hosts[i]) == host_key(hosts[i]));
        assert(order::taken_by(d, (host_key_fn())(hosts[i]), host_key_fn()));
        let k = choose|k: int| 0 <= k < d.len() && (host_key_fn())(#[trigger] d[k]) == (host_key_fn())(hosts[i]);
        assert(d.contains(d[k]));
        assert(m.contains(d[k]));
        let j = choose|j: int| 0 <= j < m.len() && m[j] == d[k];
        assert((host_key_fn())(m[j]) == host_key(hosts[i]));
    }
    assert forall|j: int| 0 <= j < m.len() implies order::first_of(hosts, #[trigger] m[j], host_key_fn()) by {
        assert(m.contains(m[j]));
        assert(d.contains(m[j]));
        let k = choose|k: int| 0 <= k < d.len() && d[k] == m[j];
        assert(order::first_of(hosts, d[k], host_key_fn()));
    }
}

fn host_key_exec(h: &SshHost) -> (r: Vec<char>)
    ensures
        r@ == host_key(h@),
{
    match &h.alias {
        Some(a) => chars_of(a.as_str()),
        None => {
            let mut out = String::new();
            push_str(&mut out, h.user_host().as_str());
            push_str(&mut out, "|");
            let p: usize = match h.port {
                Some(p) => p,
                None => 22,
            };
            push_chars(&mut out, &decimal_exec(p as u128));
            chars_of(out.as_str())
        },
    }
}

/// Keep the first host of each key, then sort by display name (ASCII case
/// ignored), keeping the order of equal names.
pub fn dedupe_and_sort_hosts(hosts: &mut Vec<SshHost>)
    ensures
        hosts_view(final(hosts)@) == spec_dedupe_and_sort(hosts_view(old(hosts)@)),
{
    let ghost fv = hosts_view(hosts@);
    let mut kept: Vec<SshHost> = Vec::new();
    let mut kept_keys: Vec<Vec<char>> = Vec::new();
    let mut i: usize = 0;
    assert(hosts_view(kept@) =~= Seq::<SshHostView>::empty());
    while i < hosts.len()
        invariant
            i <= hosts.len(),
            fv == hosts_view(hosts@),
            hosts_view(kept@) == dedupe_hosts(fv.take(i as int)),
            kept_keys@.len() == kept@.len(),
            forall|j: int| 0 <= j < kept@.len() ==> (#[trigger] kept_keys@[j])@ == host_key(kept@[j]@),
        decreases hosts.len() - i,
    {
        proof {
            assert(fv.take(i + 1).drop_last() =~= fv.take(i as int));
            assert(fv.take(i + 1).last() == fv[i as int]);
        }
        let ghost d = hosts_view(kept@);
        let key = host_key_exec(&hosts[i]);
        let mut taken = false;
        let mut j: usize = 0;
        while j < kept.len()
            invariant
                j <= kept.len(),
                kept_keys@.len() == kept@.len(),
                d == hosts_view(kept@),
                key@ == host_key(fv[i as int]),
                i < hosts.len(),
                fv == hosts_view(hosts@),
                forall|t: int| 0 <= t < kept@.len() ==> (#[trigger] kept_keys@[t])@ == host_key(kept@[t]@),
                taken == (exists|k: int| 0 <= k < j && host_key(d[k]) == key@),
            decreases kept.len() - j,
        {
            assert(d[j as int] == kept@[j as int]@);
            if text::chars_eq(&kept_keys[j], &key) {
                taken = true;
            }
            j = j + 1;
        }
        if !taken {
            let c = hosts[i].copy();
            let ghost kb = kept_keys@;
            kept.push(c);
            kept_keys.push(key);
            assert(hosts_view(kept@) =~= d.push(fv[i as int]));
            assert forall|t: int| 0 <= t < kept@.len() implies (#[trigger] kept_keys@[t])@ == host_key(
                kept@[t]@,
            ) by {
                if t < kept@.len() - 1 {
                    assert(kept_keys@[t] == kb[t]);
                }
            }
        }
        i = i + 1;
    }
    assert(fv.take(hosts.len() as int) =~= fv);
    let ghost dv = hosts_view(kept@);
    let mut out: Vec<SshHost> = Vec::new();
    let mut keys: Vec<Vec<char>> = Vec::new();
    let mut k: usize = 0;
    assert(hosts_view(out@) =~= Seq::<SshHostView>::empty());
    while k < kept.len()
        invariant
            k <= kept.len(),
            dv == hosts_view(kept@),
            hosts_view(out@) == sort_hosts(dv.take(k as int)),
            keys@.len() == out@.len(),
            forall|j: int| 0 <= j < keys@.len() ==> (#[trigger] keys@[j])@ == sort_key(out@[j]@),
        decreases kept.len() - k,
    {
        proof {
            assert(dv.take(k + 1).drop_last() =~= dv.take(k as int));
            assert(dv.take(k + 1).last() == dv[k as int]);
        }
        let ghost sorted = hosts_view(out@);
        let h = kept[k].copy();
        let key = lower_exec(&chars_of(h.display_name().as_str()));
        let mut p: usize = 0;
        while p < out.len() && !lex_lt_exec(&key, &keys[p])
            invariant
                p <= out.len() == keys@.len(),
                sorted == hosts_view(out@),
                key@ == sort_key(h@),
                forall|j: int| 0 <= j < keys@.len() ==> (#[trigger] keys@[j])@ == sort_key(out@[j]@),
                forall|j: int| 0 <= j < p ==> !lex_lt(sort_key(h@), sort_key(#[trigger] sorted[j])),
            decreases out.len() - p,
        {
            assert(sorted[p as int] == out@[p as int]@);
            p = p + 1;
        }
        proof {
            if p < out.len() {
                assert(sorted[p as int] == out@[p as int]@);
            }
            lemma_host_insert_pos_step(sorted, h@, p as int);
        }
        let ghost out_before = out@;
        let ghost keys_before = keys@;
        out.insert(p, h);
        keys.insert(p, key);
        proof {
            assert(hosts_view(out@) =~= sorted.insert(p as int, h@));
            assert forall|j: int| 0 <= j < keys@.len() implies (#[trigger] keys@[j])@ == sort_key(
                out@[j]@,
            ) by {
                if j < p {
                    assert(keys@[j] == keys_before[j]);
                    assert(out@[j] == out_before[j]);
                } else if j > p {
                    assert(keys@[j] == keys_before[j - 1]);
                    assert(out@[j] == out_before[j - 1]);
                }
            }
        }
        k = k + 1;
    }
    assert(dv.take(kept.len() as int) =~= dv);
    *hosts = out;
}


/// Deepest `Include` nesting that is followed.
pub const MAX_INCLUDE_DEPTH: usize = 8;

/// `path` is already among the config files `visited` (the same path,
/// component by component).
pub open spec fn include_seen(visited: Seq<Seq<char>>, path: Seq<char>) -> bool {
    exists|i: int| 0 <= i < visited.len() && paths::spec_same_path(visited[i], path)
}

/// Whether a config file reached through `Include` at nesting `depth` is
/// read, given the real path `canon` of the file: a file already visited is
/// not read again, nor one nested deeper than [`MAX_INCLUDE_DEPTH`]. The file
/// is recorded as visited either way.
pub fn enter_include(visited: &mut Vec<String>, canon: &str, depth: usize) -> (r: bool)
    ensures
        include_seen(old(visited)@.map_values(|s: String| s@), canon@) ==> final(visited)@.map_values(|s: String| s@)
            == old(visited)@.map_values(|s: String| s@),
        !include_seen(old(visited)@.map_values(|s: String| s@), canon@) ==> final(visited)@.map_values(
            |s: String| s@,
        ) == old(visited)@.map_values(|s: String| s@).push(canon@),
        r == (!include_seen(old(visited)@.map_values(|s: String| s@), canon@) && depth <= MAX_INCLUDE_DEPTH),
{
    let ghost vv = visited@.map_values(|s: String| s@);
    let mut seen = false;
    let mut i: usize = 0;
    while i < visited.len()
        invariant
            i <= visited.len(),
            vv == visited@.map_values(|s: String| s@),
            seen == (exists|k: int| 0 <= k < i && paths::spec_same_path(vv[k], canon@)),
        decreases visited.len() - i,
    {
        assert(vv[i as int] == visited@[i as int]@);
        if paths::same_path(visited[i].as_str(), canon) {
            seen = true;
        }
        i = i + 1;
    }
    if seen {
        return false;
    }
    visited.push(string_of(&chars_of(canon)));
    assert(visited@.map_values(|s: String| s@) =~= vv.push(canon@));
    depth <= MAX_INCLUDE_DEPTH
}

pub open spec fn included_view(inc: Seq<Vec<SshHost>>) -> Seq<Seq<SshHostView>> {
    inc.map_values(|v: Vec<SshHost>| hosts_view(v@))
}

fn copy_hosts(src: &Vec<SshHost>, out: &mut Vec<SshHost>)
    ensures
        hosts_view(final(out)@) == hosts_view(old(out)@) + hosts_view(src@),
{
    let ghost start = hosts_view(out@);
    let mut i: usize = 0;
    while i < src.len()
        invariant
            i <= src.len(),
            hosts_view(out@) =~= start + hosts_view(src@.take(i as int)),
        decreases src.len() - i,
    {
        let ghost before = hosts_view(out@);
        out.push(src[i].copy());
        assert(hosts_view(out@) =~= before.push(src@[i as int]@));
        assert(src@.take(i + 1) =~= src@.take(i as int).push(src@[i as int]));
        i = i + 1;
    }
    assert(src@.take(src.len() as int) =~= src@);
}

/// The hosts declared by `entries`, with `included[k]` standing for the
/// hosts of the files that the `k`-th `Include` names.
pub fn collect_hosts_from(entries: &Vec<SshConfigEntry>, included: &Vec<Vec<SshHost>>) -> (r: Vec<SshHost>)
    ensures
        hosts_view(r@) == collect_hosts(entries_view(entries@), included_view(included@)),
{
    let ghost ev = entries_view(entries@);
    let ghost iv = included_view(included@);
    let ghost goal = collect_hosts(ev, iv);
    let mut out: Vec<SshHost> = Vec::new();
    let mut i: usize = 0;
    let mut k: usize = 0;
    assert(ev.skip(0) =~= ev);
    assert(iv.skip(0) =~= iv);
    assert(hosts_view(out@) =~= Seq::<SshHostView>::empty());
    while i < entries.len()
        invariant
            i <= entries.len(),
            k <= included.len(),
            ev == entries_view(entries@),
            iv == included_view(included@),
            goal == collect_hosts(ev, iv),
            hosts_view(out@) + collect_hosts(ev.skip(i as int), iv.skip(k as int)) == goal,
        decreases entries.len() - i,
    {
        let ghost before = hosts_view(out@);
        assert(ev.skip(i as int)[0] == entry_view(entries@[i as int]));
        assert(ev.skip(i as int).drop_first() =~= ev.skip(i + 1));
        match &entries[i] {
            SshConfigEntry::Host(h) => {
                out.push(h.copy());
                assert(hosts_view(out@) =~= before.push(h@));
                assert(before.push(h@) + collect_hosts(ev.skip(i + 1), iv.skip(k as int)) =~= before
                    + (seq![h@] + collect_hosts(ev.skip(i + 1), iv.skip(k as int))));
            },
            SshConfigEntry::Include(_) => {
                if k < included.len() {
                    assert(iv.skip(k as int)[0] == hosts_view(included@[k as int]@));
                    assert(iv.skip(k as int).drop_first() =~= iv.skip(k + 1));
                    copy_hosts(&included[k], &mut out);
                    assert(hosts_view(out@) + collect_hosts(ev.skip(i + 1), iv.skip(k + 1)) =~= before
                        + (hosts_view(included@[k as int]@) + collect_hosts(ev.skip(i + 1), iv.skip(k + 1))));
                    k = k + 1;
                } else {
                    assert(iv.skip(k as int) =~= Seq::<Seq<SshHostView>>::empty());
                }
            },
        }
        i = i + 1;
    }
    assert(ev.skip(i as int) =~= Seq::<EntryView>::empty());
    assert(hosts_view(out@) + Seq::<SshHostView>::empty() =~= hosts_view(out@));
    out
}

/// Why a config text was refused.
#[derive(Debug, Clone, Copy, PartialEq, Eq, Structural)]
pub enum SshConfigError {
    /// The text declares no concrete host.
    NoHosts,
}

impl SshConfigError {
    pub fn message(self) -> (r: &'static str)
        ensures
            r@ == "No Host entries found"@,
    {
        "No Host entries found"
    }
}

/// The hosts a config text lists (included files contributing their hosts
/// in place), one per key, sorted by display name.
pub open spec fn spec_config_hosts(config: Seq<char>, included: Seq<Seq<SshHostView>>) -> Seq<SshHostView> {
    spec_dedupe_and_sort(collect_hosts(spec_config_entries(config), included))
}

/// Lenient parse: the hosts of a config text, wildcard-only blocks skipped.
/// `included[k]` holds the hosts of the files the `k`-th `Include` names.
pub fn parse_ssh_config_hosts_lenient(config: &str, included: &Vec<Vec<SshHost>>) -> (r: Vec<SshHost>)
    ensures
        hosts_view(r@) == spec_config_hosts(config@, included_view(included@)),
{
    let entries = parse_config_entries(config);
    let mut hosts = collect_hosts_from(&entries, included);
    dedupe_and_sort_hosts(&mut hosts);
    hosts
}

/// Strict parse used when validating a pasted/new Host block: an error when
/// the text lists no host.
pub fn parse_ssh_config_hosts(config: &str, included: &Vec<Vec<SshHost>>) -> (r: Result<Vec<SshHost>, SshConfigError>)
    ensures
        spec_config_hosts(config@, included_view(included@)).len() == 0 ==> r == Err::<
            Vec<SshHost>,
            SshConfigError,
        >(SshConfigError::NoHosts),
        spec_config_hosts(config@, included_view(included@)).len() > 0 ==> (r matches Ok(v)
            && hosts_view(v@) == spec_config_hosts(config@, included_view(included@))),
{
    let hosts = parse_ssh_config_hosts_lenient(config, included);
    if hosts.len() == 0 {
        Err(SshConfigError::NoHosts)
    } else {
        Ok(hosts)
    }
}

/// Starting text for a new Host block.
pub fn ssh_host_template() -> (r: &'static str)
    ensures
        r@ == "Host my-server\n  HostName 192.168.1.10\n  User ubuntu\n  Port 22\n  # IdentityFile ~/pem/key.pem\n  # IdentitiesOnly yes\n  # ServerAliveInterval 60\n  # ServerAliveCountMax 3\n"@,
{
    "Host my-server\n  HostName 192.168.1.10\n  User ubuntu\n  Port 22\n  # IdentityFile ~/pem/key.pem\n  # IdentitiesOnly yes\n  # ServerAliveInterval 60\n  # ServerAliveCountMax 3\n"
}


// ---------------------------------------------------------------------------
// Command lines
// ---------------------------------------------------------------------------
/// Runs `ssh` / `scp` against one host.
pub struct SshRemote {
    pub ssh: SshHost,
}

/// Connection-sharing options passed first on Unix (none on Windows).
pub open spec fn spec_ssh_args(unix: bool) -> Seq<Seq<char>> {
    if unix {
        seq![
            "-o"@,
            "ControlMaster=auto"@,
            "-o"@,
            "ControlPath=~/.ssh/cm_%C"@,
            "-o"@,
            "ControlPersist=30m"@,
            "-o"@,
            "ConnectTimeout=15"@,
        ]
    } else {
        Seq::empty()
    }
}

/// Flags that spell out the host's settings; none when the host has an
/// alias, since OpenSSH then reads them from the config itself.
pub open spec fn spec_explicit_options(h: SshHostView, identity: Option<Seq<char>>) -> Seq<Seq<char>> {
    if h.alias is Some {
        Seq::empty()
    } else {
        let a = match identity {
            Some(i) => seq!["-i"@, i],
            None => Seq::empty(),
        };
        let b = if h.identities_only == Some(true) {
            seq!["-o"@, "IdentitiesOnly=yes"@]
        } else {
            Seq::empty()
        };
        let c = match h.server_alive_interval {
            Some(n) => seq!["-o"@, "ServerAliveInterval="@ + text::decimal(n as nat)],
            None => Seq::empty(),
        };
        let d = match h.server_alive_count_max {
            Some(n) => seq!["-o"@, "ServerAliveCountMax="@ + text::decimal(n as nat)],
            None => Seq::empty(),
        };
        a + b + c + d
    }
}

/// The port flag (`-p` for ssh, `-P` for scp) when no alias is used.
pub open spec fn spec_port_flag(h: SshHostView, flag: Seq<char>) -> Seq<Seq<char>> {
    if h.alias is None && h.port is Some {
        seq![flag, text::decimal(h.port.unwrap() as nat)]
    } else {
        Seq::empty()
    }
}

/// Arguments of `ssh` for the host.
pub open spec fn spec_ssh_command_args(h: SshHostView, unix: bool, identity: Option<Seq<char>>, debug: bool) -> Seq<Seq<char>> {
    spec_ssh_args(unix) + spec_explicit_options(h, identity) + spec_port_flag(h, "-p"@) + seq![
        spec_display_name(h),
    ] + (if debug { seq!["-v"@] } else { Seq::empty() })
}

/// Arguments of `scp` copying `local` to `remote` on the host.
pub open spec fn spec_scp_args(h: SshHostView, unix: bool, identity: Option<Seq<char>>, local: Seq<char>, remote: Seq<char>) -> Seq<Seq<char>> {
    let target = if h.alias is Some { spec_display_name(h) } else { spec_user_host(h) };
    spec_ssh_args(unix) + spec_explicit_options(h, identity) + spec_port_flag(h, "-P"@) + seq![
        local,
        target + ":"@ + remote,
    ]
}

fn push_arg(args: &mut Vec<String>, a: &str)
    ensures
        final(args)@.map_values(|s: String| s@) == old(args)@.map_values(|s: String| s@).push(a@),
{
    let ghost before = args@.map_values(|s: String| s@);
    args.push(string_of(&chars_of(a)));
    assert(args@.map_values(|s: String| s@) =~= before.push(a@));
}

fn push_prefixed_number(args: &mut Vec<String>, prefix: &str, n: u64)
    ensures
        final(args)@.map_values(|s: String| s@) == old(args)@.map_values(|s: String| s@).push(
            prefix@ + text::decimal(n as nat),
        ),
{
    let mut s = String::new();
    push_str(&mut s, prefix);
    push_chars(&mut s, &decimal_exec(n as u128));
    push_arg(args, s.as_str());
}

impl SshRemote {
    pub fn ssh_args(unix: bool) -> (r: Vec<String>)
        ensures
            r@.map_values(|s: String| s@) == spec_ssh_args(unix),
    {
        let mut args: Vec<String> = Vec::new();
        assert(args@.map_values(|s: String| s@) =~= Seq::<Seq<char>>::empty());
        if unix {
            push_arg(&mut args, "-o");
            push_arg(&mut args, "ControlMaster=auto");
            push_arg(&mut args, "-o");
            push_arg(&mut args, "ControlPath=~/.ssh/cm_%C");
            push_arg(&mut args, "-o");
            push_arg(&mut args, "ControlPersist=30m");
            push_arg(&mut args, "-o");
            push_arg(&mut args, "ConnectTimeout=15");
            assert(args@.map_values(|s: String| s@) =~= spec_ssh_args(unix));
        }
        args
    }

    /// Whether `ssh` is pointed at the config alias (so OpenSSH reads the
    /// host's settings itself).
    pub fn use_config_alias(ssh: &SshHost) -> (r: bool)
        ensures
            r == (ssh@.alias is Some),
    {
        ssh.alias.is_some()
    }

    /// Appends the explicit flags for `ssh`; `identity` is its identity file
    /// with `~` expanded.
    pub fn apply_explicit_options(args: &mut Vec<String>, ssh: &SshHost, identity: &Option<String>)
        ensures
            final(args)@.map_values(|s: String| s@) == old(args)@.map_values(|s: String| s@)
                + spec_explicit_options(ssh@, opt_view(*identity)),
    {
        let ghost start = args@.map_values(|s: String| s@);
        if Self::use_config_alias(ssh) {
            assert(start + Seq::<Seq<char>>::empty() =~= start);
            return;
        }
        match identity {
            Some(i) => {
                push_arg(args, "-i");
                push_arg(args, i.as_str());
            },
            None => {},
        }
        let ghost after_a = args@.map_values(|s: String| s@);
        if ssh.identities_only == Some(true) {
            push_arg(args, "-o");
            push_arg(args, "IdentitiesOnly=yes");
        }
        let ghost after_b = args@.map_values(|s: String| s@);
        match ssh.server_alive_interval {
            Some(n) => {
                push_arg(args, "-o");
                push_prefixed_number(args, "ServerAliveInterval=", n);
            },
            None => {},
        }
        let ghost after_c = args@.map_values(|s: String| s@);
        match ssh.server_alive_count_max {
            Some(n) => {
                push_arg(args, "-o");
                push_prefixed_number(args, "ServerAliveCountMax=", n);
            },
            None => {},
        }
        let ghost h = ssh@;
        let ghost a = match opt_view(*identity) {
            Some(i) => seq!["-i"@, i],
            None => Seq::empty(),
        };
        let ghost b = if h.identities_only == Some(true) {
            seq!["-o"@, "IdentitiesOnly=yes"@]
        } else {
            Seq::empty()
        };
        let ghost c = match h.server_alive_interval {
            Some(n) => seq!["-o"@, "ServerAliveInterval="@ + text::decimal(n as nat)],
            None => Seq::<Seq<char>>::empty(),
        };
        let ghost d = match h.server_alive_count_max {
            Some(n) => seq!["-o"@, "ServerAliveCountMax="@ + text::decimal(n as nat)],
            None => Seq::<Seq<char>>::empty(),
        };
        assert(after_a =~= start + a);
        assert(after_b =~= start + a + b);
        assert(after_c =~= start + a + b + c);
        assert(args@.map_values(|s: String| s@) =~= start + (a + b + c + d));
    }

    fn push_port_flag(args: &mut Vec<String>, ssh: &SshHost, flag: &str)
        ensures
            final(args)@.map_values(|s: String| s@) == old(args)@.map_values(|s: String| s@)
                + spec_port_flag(ssh@, flag@),
    {
        let ghost start = args@.map_values(|s: String| s@);
        if !Self::use_config_alias(ssh) {
            match ssh.port {
                Some(p) => {
                    push_arg(args, flag);
                    let d = decimal_exec(p as u128);
                    push_arg(args, string_of(&d).as_str());
                    assert(args@.map_values(|s: String| s@) =~= start + spec_port_flag(ssh@, flag@));
                    return;
                },
                None => {},
            }
        }
        assert(start + Seq::<Seq<char>>::empty() =~= start);
    }

    /// Arguments of `ssh` for this host.
    pub fn ssh_command_args(&self, unix: bool, identity: &Option<String>, debug: bool) -> (r: Vec<String>)
        ensures
            r@.map_values(|s: String| s@) == spec_ssh_command_args(self.ssh@, unix, opt_view(*identity), debug),
    {
        let mut args = Self::ssh_args(unix);
        Self::apply_explicit_options(&mut args, &self.ssh, identity);
        Self::push_port_flag(&mut args, &self.ssh, "-p");
        let target = self.ssh.ssh_cli_target();
        push_arg(&mut args, target.as_str());
        let ghost before = args@.map_values(|s: String| s@);
        if debug {
            push_arg(&mut args, "-v");
        }
        assert(args@.map_values(|s: String| s@) =~= spec_ssh_command_args(self.ssh@, unix, opt_view(*identity), debug));
        args
    }

    /// Arguments of `scp` copying `local` to `remote` on this host.
    pub fn scp_args(&self, unix: bool, identity: &Option<String>, local: &str, remote: &str) -> (r: Vec<String>)
        ensures
            r@.map_values(|s: String| s@) == spec_scp_args(self.ssh@, unix, opt_view(*identity), local@, remote@),
    {
        let mut args = Self::ssh_args(unix);
        Self::apply_explicit_options(&mut args, &self.ssh, identity);
        Self::push_port_flag(&mut args, &self.ssh, "-P");
        push_arg(&mut args, local);
        let mut dest = if Self::use_config_alias(&self.ssh) {
            self.ssh.ssh_cli_target()
        } else {
            self.ssh.user_host()
        };
        push_str(&mut dest, ":");
        push_str(&mut dest, remote);
        push_arg(&mut args, dest.as_str());
        assert(args@.map_values(|s: String| s@) =~= spec_scp_args(self.ssh@, unix, opt_view(*identity), local@, remote@));
        args
    }
}

// ---------------------------------------------------------------------------
// Include directives and the config file
// ---------------------------------------------------------------------------
pub open spec fn str_opt_view(o: Option<&str>) -> Option<Seq<char>> {
    match o {
        Some(s) => Some(s@),
        None => None,
    }
}

/// `~/rest` and `~` with the home directory put in (when it is known); any
/// other path is left as it is.
pub open spec fn spec_expand_tilde(path: Seq<char>, home: Option<Seq<char>>) -> Seq<char> {
    if text::starts_with(path, "~/"@) {
        match home {
            Some(h) => paths::spec_path_join(h, path.skip(2)),
            None => path,
        }
    } else if path == "~"@ {
        match home {
            Some(h) => h,
            None => path,
        }
    } else {
        path
    }
}

/// `path` with a leading `~` replaced by the home directory `home`.
pub fn expand_tilde(path: &str, home: Option<&str>) -> (r: String)
    ensures
        r@ == spec_expand_tilde(path@, str_opt_view(home)),
{
    let v = chars_of(path);
    proof {
        reveal_strlit("~/");
    }
    if text::starts_with_exec(&v, &chars_of("~/")) {
        assert("~/"@.len() == 2);
        match home {
            Some(h) => {
                let rest = string_of(&slice_of(&v, 2, v.len()));
                assert(rest@ == path@.skip(2));
                path_join(h, rest.as_str())
            },
            None => string_of(&v),
        }
    } else if chars_eq_str(&v, "~") {
        match home {
            Some(h) => string_of(&chars_of(h)),
            None => string_of(&v),
        }
    } else {
        string_of(&v)
    }
}

/// Whether the glob `pattern` compiles into a matcher: globset's `Glob::new`
/// accepts it and a `GlobSet` holding it builds.
pub uninterp spec fn spec_glob_valid(pattern: Seq<char>) -> bool;

/// Whether the `GlobSet` built from the glob `pattern` matches `name`
/// (globset's `GlobSet::is_match`).
pub uninterp spec fn spec_glob_is_match(pattern: Seq<char>, name: Seq<char>) -> bool;

/// Calls `globset::Glob::new(pattern)` and, when it succeeds,
/// `GlobSetBuilder::build` on a builder holding the glob; whether both
/// succeed is named `spec_glob_valid` of the pattern. Both report failure as
/// an `Err`, not a panic.
#[verifier::external_body]
fn glob_valid(pattern: &str) -> (r: bool)
    ensures
        r == spec_glob_valid(pattern@),
{
    match globset::Glob::new(pattern) {
        Ok(g) => globset::GlobSetBuilder::new().add(g).build().is_ok(),
        Err(_) => false,
    }
}

/// Calls `globset::Glob::new(pattern)`, `GlobSetBuilder::build` on a builder
/// holding it, and `GlobSet::is_match(name)`: `None` when the pattern does not
/// compile into a matcher, else whether it matches, named
/// `spec_glob_is_match` of the two texts.
#[verifier::external_body]
fn glob_is_match(pattern: &str, name: &str) -> (r: Option<bool>)
    ensures
        match r {
            Some(b) => spec_glob_valid(pattern@) && b == spec_glob_is_match(pattern@, name@),
            None => !spec_glob_valid(pattern@),
        },
{
    match globset::Glob::new(pattern) {
        Ok(g) => match globset::GlobSetBuilder::new().add(g).build() {
            Ok(set) => Some(set.is_match(name)),
            Err(_) => None,
        },
        Err(_) => None,
    }
}

/// What an `Include` pattern names, before the filesystem is consulted.
#[derive(Debug, Clone, PartialEq, Eq)]
pub enum IncludeTarget {
    /// One file, read when it exists.
    File(String),
    /// The files of `dir` whose names match the glob `pattern`.
    Glob { dir: String, pattern: String },
    /// Nothing to read.
    Nothing,
}

/// The path an `Include` pattern stands for: `~` expanded, and a relative
/// pattern taken from `base_dir`.
pub open spec fn spec_include_path(pattern: Seq<char>, base_dir: Seq<char>, home: Option<Seq<char>>) -> Seq<char> {
    let e = spec_expand_tilde(pattern, home);
    if paths::spec_is_absolute(e) {
        e
    } else {
        paths::spec_path_join(base_dir, e)
    }
}

/// A pattern without `*` or `?` names one file; with them, the file-name part
/// is a glob over the files of the parent directory, provided the path has a
/// parent and a file name and the glob compiles.
pub open spec fn is_include_target(r: IncludeTarget, path: Seq<char>) -> bool {
    if !text::has_char(path, '*') && !text::has_char(path, '?') {
        r matches IncludeTarget::File(f) && f@ == path
    } else {
        match (paths::spec_parent(path), paths::spec_file_name(path)) {
            (Some(d), Some(n)) => if spec_glob_valid(n) {
                r matches IncludeTarget::Glob { dir, pattern } && dir@ == d && pattern@ == n
            } else {
                r is Nothing
            },
            _ => r is Nothing,
        }
    }
}

/// What the `Include` pattern `pattern` of a config file in `base_dir` names.
pub fn include_target(pattern: &str, base_dir: &str, home: Option<&str>) -> (r: IncludeTarget)
    ensures
        is_include_target(r, spec_include_path(pattern@, base_dir@, str_opt_view(home))),
{
    let expanded = expand_tilde(pattern, home);
    let path = if path_is_absolute(expanded.as_str()) {
        expanded
    } else {
        path_join(base_dir, expanded.as_str())
    };
    let v = chars_of(path.as_str());
    if !has_char_exec(&v, '*') && !has_char_exec(&v, '?') {
        return IncludeTarget::File(path);
    }
    let dir = match path_parent(path.as_str()) {
        Some(d) => d,
        None => return IncludeTarget::Nothing,
    };
    let name = match path_file_name(path.as_str()) {
        Some(n) => n,
        None => return IncludeTarget::Nothing,
    };
    if !glob_valid(name.as_str()) {
        return IncludeTarget::Nothing;
    }
    IncludeTarget::Glob { dir, pattern: name }
}

pub open spec fn names_view(v: Seq<String>) -> Seq<Seq<char>> {
    v.map_values(|s: String| s@)
}

/// The names of `names` that the glob `pattern` matches, in scan order.
pub open spec fn glob_matches(pattern: Seq<char>, names: Seq<Seq<char>>) -> Seq<Seq<char>>
    decreases names.len(),
{
    if names.len() == 0 {
        Seq::empty()
    } else {
        let prev = glob_matches(pattern, names.drop_last());
        if spec_glob_is_match(pattern, names.last()) {
            prev.push(names.last())
        } else {
            prev
        }
    }
}

/// Position where `n` goes in `sorted`: after every name not greater than it.
pub open spec fn name_insert_pos(sorted: Seq<Seq<char>>, n: Seq<char>) -> int
    decreases sorted.len(),
{
    if sorted.len() == 0 {
        0
    } else if lex_lt(n, sorted[0]) {
        0
    } else {
        1 + name_insert_pos(sorted.drop_first(), n)
    }
}

/// Names in code-point order (insertion sort).
pub open spec fn sort_names(s: Seq<Seq<char>>) -> Seq<Seq<char>>
    decreases s.len(),
{
    if s.len() == 0 {
        Seq::empty()
    } else {
        let sorted = sort_names(s.drop_last());
        sorted.insert(name_insert_pos(sorted, s.last()), s.last())
    }
}

proof fn lemma_name_insert_pos_step(sorted: Seq<Seq<char>>, n: Seq<char>, p: int)
    requires
        0 <= p <= sorted.len(),
        forall|j: int| 0 <= j < p ==> !lex_lt(n, #[trigger] sorted[j]),
        p == sorted.len() || lex_lt(n, sorted[p]),
    ensures
        name_insert_pos(sorted, n) == p,
    decreases p,
{
    if p > 0 {
        let t = sorted.drop_first();
        assert forall|j: int| 0 <= j < p - 1 implies !lex_lt(n, #[trigger] t[j]) by {
            assert(t[j] == sorted[j + 1]);
        }
        if p < sorted.len() {
            assert(t[p - 1] == sorted[p]);
        }
        lemma_name_insert_pos_step(t, n, p - 1);
    }
}

/// A text as its own sort key.
pub open spec fn self_key_fn() -> spec_fn(Seq<char>) -> Seq<char> {
    |n: Seq<char>| n
}

proof fn lemma_name_insert_pos_is(sorted: Seq<Seq<char>>, n: Seq<char>)
    ensures
        name_insert_pos(sorted, n) == order::ins_pos(sorted, n, self_key_fn()),
    decreases sorted.len(),
{
    if sorted.len() > 0 {
        lemma_name_insert_pos_is(sorted.drop_first(), n);
    }
}

proof fn lemma_sort_names_is(s: Seq<Seq<char>>)
    ensures
        sort_names(s) == order::sort_by(s, self_key_fn()),
    decreases s.len(),
{
    if s.len() > 0 {
        lemma_sort_names_is(s.drop_last());
        lemma_name_insert_pos_is(sort_names(s.drop_last()), s.last());
    }
}

/// The included file names come in code-point order, each of them a name
/// that was listed and that the glob matches, and none that matches is left
/// out.
pub proof fn law_include_names(pattern: Seq<char>, names: Seq<Seq<char>>)
    ensures
        order::sorted_by(sort_names(glob_matches(pattern, names)), self_key_fn()),
        forall|n: Seq<char>|
            #[trigger] sort_names(glob_matches(pattern, names)).contains(n) <==> (names.contains(n)
                && spec_glob_is_match(pattern, n)),
    decreases names.len(),
{
    let g = glob_matches(pattern, names);
    lemma_sort_names_is(g);
    order::lemma_sort_by(g, self_key_fn());
    if names.len() > 0 {
        law_include_names(pattern, names.drop_last());
        lemma_sort_names_is(glob_matches(pattern, names.drop_last()));
        order::lemma_sort_by(glob_matches(pattern, names.drop_last()), self_key_fn());
        let p = glob_matches(pattern, names.drop_last());
        assert forall|n: Seq<char>| #[trigger] g.contains(n) <==> (names.contains(n) && spec_glob_is_match(pattern, n)) by {
            assert(order::sort_by(p, self_key_fn()).contains(n) <==> p.contains(n));
            assert(sort_names(p).contains(n) <==> (names.drop_last().contains(n) && spec_glob_is_match(pattern, n)));
            if spec_glob_is_match(pattern, names.last()) {
                assert(g == p.push(names.last()));
                if g.contains(n) {
                    let k = choose|k: int| 0 <= k < g.len() && g[k] == n;
                    if k < p.len() {
                        assert(p[k] == n);
                        assert(p.contains(n));
                    }
                }
                if p.contains(n) {
                    let k = choose|k: int| 0 <= k < p.len() && p[k] == n;
                    assert(g[k] == n);
                }
                if n == names.last() {
                    assert(g[p.len() as int] == n);
                }
            }
            if names.contains(n) {
                let k = choose|k: int| 0 <= k < names.len() && names[k] == n;
                if k < names.len() - 1 {
                    assert(names.drop_last()[k] == n);
                }
            }
            if names.drop_last().contains(n) {
                let k = choose|k: int| 0 <= k < names.len() - 1 && names.drop_last()[k] == n;
                assert(names[k] == n);
            }
            if n == names.last() {
                assert(names[names.len() - 1] == n);
            }
        }
    } else {
        assert forall|n: Seq<char>| #[trigger] g.contains(n) <==> (names.contains(n) && spec_glob_is_match(pattern, n)) by {
            if names.contains(n) {
                let k = choose|k: int| 0 <= k < names.len() && names[k] == n;
            }
        }
    }
}

/// Of `names`, the file names of an include directory, those the glob
/// `pattern` matches, sorted; none when the pattern does not compile.
pub fn matching_include_names(pattern: &str, names: &Vec<String>) -> (r: Vec<String>)
    ensures
        spec_glob_valid(pattern@) ==> names_view(r@) == sort_names(glob_matches(pattern@, names_view(names@))),
        !spec_glob_valid(pattern@) ==> r@.len() == 0,
{
    if !glob_valid(pattern) {
        return Vec::new();
    }
    let ghost nv = names_view(names@);
    let mut matched: Vec<String> = Vec::new();
    let mut i: usize = 0;
    assert(names_view(matched@) =~= Seq::<Seq<char>>::empty());
    while i < names.len()
        invariant
            i <= names.len(),
            nv == names_view(names@),
            spec_glob_valid(pattern@),
            names_view(matched@) == glob_matches(pattern@, nv.take(i as int)),
        decreases names.len() - i,
    {
        proof {
            assert(nv.take(i + 1).drop_last() =~= nv.take(i as int));
            assert(nv.take(i + 1).last() == names@[i as int]@);
        }
        match glob_is_match(pattern, names[i].as_str()) {
            Some(true) => {
                matched.push(names[i].clone());
                assert(names_view(matched@) =~= glob_matches(pattern@, nv.take(i + 1)));
            },
            Some(false) => {},
            None => {
                return Vec::new();
            },
        }
        i = i + 1;
    }
    assert(nv.take(names.len() as int) =~= nv);
    let ghost mv = names_view(matched@);
    let mut out: Vec<String> = Vec::new();
    let mut k: usize = 0;
    assert(names_view(out@) =~= Seq::<Seq<char>>::empty());
    while k < matched.len()
        invariant
            k <= matched.len(),
            mv == names_view(matched@),
            names_view(out@) == sort_names(mv.take(k as int)),
        decreases matched.len() - k,
    {
        proof {
            assert(mv.take(k + 1).drop_last() =~= mv.take(k as int));
            assert(mv.take(k + 1).last() == mv[k as int]);
        }
        let ghost sorted = names_view(out@);
        let n = chars_of(matched[k].as_str());
        let mut p: usize = 0;
        while p < out.len() && !lex_lt_exec(&n, &chars_of(out[p].as_str()))
            invariant
                p <= out.len(),
                k < matched.len(),
                sorted == names_view(out@),
                n@ == mv[k as int],
                forall|j: int| 0 <= j < p ==> !lex_lt(mv[k as int], #[trigger] sorted[j]),
            decreases out.len() - p,
        {
            p = p + 1;
        }
        proof {
            lemma_name_insert_pos_step(sorted, mv[k as int], p as int);
        }
        out.insert(p, matched[k].clone());
        assert(names_view(out@) =~= sorted.insert(p as int, mv[k as int]));
        k = k + 1;
    }
    assert(mv.take(matched.len() as int) =~= mv);
    out
}

/// `path` shown relative to the home directory `home` as `~/...` when it is
/// under it, else as it is.
pub open spec fn spec_display_path(path: Seq<char>, home: Option<Seq<char>>) -> Seq<char> {
    match home {
        Some(h) => match paths::spec_strip_prefix(path, h) {
            Some(rel) => "~/"@ + rel,
            None => path,
        },
        None => path,
    }
}

/// `path` shown relative to the home directory `home`.
pub fn display_path_with_home(path: &str, home: Option<&str>) -> (r: String)
    ensures
        r@ == spec_display_path(path@, str_opt_view(home)),
{
    match home {
        Some(h) => match path_strip_prefix(path, h) {
            Some(rel) => {
                let mut out = String::new();
                push_str(&mut out, "~/");
                push_str(&mut out, rel.as_str());
                out
            },
            None => string_of(&chars_of(path)),
        },
        None => string_of(&chars_of(path)),
    }
}

/// `path` shown relative to the user's home directory, for status messages.
/// The home directory is whatever the environment gives.
pub fn ssh_config_display_path(path: &str) -> (r: String)
    ensures
        exists|home: Option<Seq<char>>| r@ == spec_display_path(path@, home),
{
    let home = home_dir();
    let r = match &home {
        Some(h) => display_path_with_home(path, Some(h.as_str())),
        None => display_path_with_home(path, None),
    };
    assert(r@ == spec_display_path(path@, match home { Some(h) => Some(h@), None => None }));
    r
}

/// The config text after appending a Host `block`: the existing text ends
/// with a blank line first (when it is not empty), then the block without its
/// trailing whitespace and a final newline.
pub open spec fn spec_append_host_block(existing: Seq<char>, block: Seq<char>) -> Seq<char> {
    let e1 = if existing.len() > 0 && !text::ends_with(existing, "\n"@) {
        existing.push('\n')
    } else {
        existing
    };
    let e2 = if !text::ends_with(e1, "\n\n"@) && e1.len() > 0 {
        e1.push('\n')
    } else {
        e1
    };
    e2 + text::trim_end(block) + "\n"@
}

/// The new text of the config file once `block` is appended to `existing`.
pub fn append_host_block_text(existing: &str, block: &str) -> (r: String)
    ensures
        r@ == spec_append_host_block(existing@, block@),
{
    let mut v = chars_of(existing);
    if v.len() > 0 && !text::ends_with_exec(&v, &chars_of("\n")) {
        v.push('\n');
    }
    if !text::ends_with_exec(&v, &chars_of("\n\n")) && v.len() > 0 {
        v.push('\n');
    }
    let t = text::trim_end_exec(&chars_of(block));
    let mut out = string_of(&v);
    push_chars(&mut out, &t);
    push_str(&mut out, "\n");
    out
}

} // verus!

