//! Secret hygiene for the workspace tools: credential files are not read,
//! credential-looking lines are masked, paths stay under the workspace root.
use vstd::prelude::*;

use crate::paths::{self, path_file_name, path_is_absolute, path_join, path_parent, path_starts_with};
use crate::tools::{self, WorkspaceBackend, join_strings};
use crate::text::{self, chars_of, string_of, lower_exec, chars_eq_str, starts_with_exec, ends_with_exec, extend_chars, extend_str, split_once_exec, trim_end_exec, lines_exec, split_char_exec};

verus! {

/// Lines that look like `<credential key> = value` or `<key>: value`.
pub const SECRET_PATTERN: &'static str = "(?i)(api[_-]?key|password|passwd|secret|token|private[_-]?key)\\s*[=:]\\s*\\S+";

/// Whether the regular expression `pattern` (in `regex` crate syntax) matches
/// somewhere in `text`; `None` when the pattern does not compile.
pub uninterp spec fn spec_regex_is_match(pattern: Seq<char>, text: Seq<char>) -> Option<bool>;

/// Compiles `pattern` with `regex::Regex::new` and calls `Regex::is_match` on
/// `text`. The result is named by `spec_regex_is_match` of the two texts;
/// what the `regex` syntax matches is not restated here.
#[verifier::external_body]
fn regex_is_match(pattern: &str, text: &str) -> (r: Option<bool>)
    ensures
        r == spec_regex_is_match(pattern@, text@),
{
    match regex::Regex::new(pattern) {
        Ok(re) => Some(re.is_match(text)),
        Err(_) => None,
    }
}

/// Whether a file name marks a credential file (`.env`, `.env.*`, `*.pem`,
/// `*.key`, SSH keys, `credentials.json`, `secrets.json`), ignoring ASCII case.
pub open spec fn is_sensitive_name(name: Seq<char>) -> bool {
    let lower = text::lower(name);
    ||| lower == ".env"@
    ||| text::starts_with(lower, ".env."@)
    ||| text::ends_with(lower, ".pem"@)
    ||| text::ends_with(lower, ".key"@)
    ||| lower == "id_rsa"@
    ||| lower == "id_ed25519"@
    ||| lower == "credentials.json"@
    ||| lower == "secrets.json"@
}

pub open spec fn spec_is_sensitive_path(path: Seq<char>) -> bool {
    match paths::spec_file_name(path) {
        Some(name) => is_sensitive_name(name),
        None => false,
    }
}

/// Paths that Ask/Edit tools must not read by default.
pub fn is_sensitive_path(path: &str) -> (r: bool)
    ensures
        r == spec_is_sensitive_path(path@),
{
    let name = match path_file_name(path) {
        Some(n) => n,
        None => return false,
    };
    let lower = lower_exec(&chars_of(name.as_str()));
    chars_eq_str(&lower, ".env") || starts_with_exec(&lower, &chars_of(".env."))
        || ends_with_exec(&lower, &chars_of(".pem")) || ends_with_exec(&lower, &chars_of(".key"))
        || chars_eq_str(&lower, "id_rsa") || chars_eq_str(&lower, "id_ed25519") || chars_eq_str(
        &lower,
        "credentials.json",
    ) || chars_eq_str(&lower, "secrets.json")
}

/// Whether a line looks like it carries a credential.
pub open spec fn is_secret_line(line: Seq<char>) -> bool {
    spec_regex_is_match(SECRET_PATTERN@, line) == Some(true)
}

/// One line of redacted output (with its `\n`): a secret line keeps what
/// precedes its first `=` (or else `:`) and masks the rest.
pub open spec fn redact_line(line: Seq<char>) -> Seq<char> {
    if is_secret_line(line) {
        match text::split_once(line, '=') {
            Some((prefix, _)) => text::trim_end(prefix) + "=********\n"@,
            None => match text::split_once(line, ':') {
                Some((prefix, _)) => text::trim_end(prefix) + ": ********\n"@,
                None => "********\n"@,
            },
        }
    } else {
        line.push('\n')
    }
}

pub open spec fn redact_lines(ls: Seq<Seq<char>>) -> Seq<char>
    decreases ls.len(),
{
    if ls.len() == 0 {
        Seq::empty()
    } else {
        redact_lines(ls.drop_last()) + redact_line(ls.last())
    }
}

pub open spec fn spec_redact_secrets(content: Seq<char>) -> Seq<char> {
    redact_lines(text::lines(content))
}

/// Mask the value of every line that looks like a credential assignment.
pub fn redact_secrets(content: &str) -> (r: String)
    ensures
        r@ == spec_redact_secrets(content@),
{
    let ls = lines_exec(&chars_of(content));
    let ghost lv = ls@.map_values(|p: Vec<char>| p@);
    let mut out: Vec<char> = Vec::new();
    let mut i: usize = 0;
    assert(lv.take(0) =~= Seq::<Seq<char>>::empty());
    while i < ls.len()
        invariant
            i <= ls.len(),
            lv == ls@.map_values(|p: Vec<char>| p@),
            out@ == redact_lines(lv.take(i as int)),
        decreases ls.len() - i,
    {
        proof {
            assert(lv.take(i + 1).drop_last() =~= lv.take(i as int));
            assert(lv.take(i + 1).last() == ls@[i as int]@);
        }
        let line = &ls[i];
        let ls_str = string_of(line);
        let matched = regex_is_match(SECRET_PATTERN, ls_str.as_str());
        if matched == Some(true) {
            match split_once_exec(line, '=') {
                Some((prefix, _)) => {
                    let t = trim_end_exec(&prefix);
                    extend_chars(&mut out, &t);
                    extend_str(&mut out, "=********\n");
                },
                None => match split_once_exec(line, ':') {
                    Some((prefix, _)) => {
                        let t = trim_end_exec(&prefix);
                        extend_chars(&mut out, &t);
                        extend_str(&mut out, ": ********\n");
                    },
                    None => {
                        extend_str(&mut out, "********\n");
                    },
                },
            }
        } else {
            extend_chars(&mut out, line);
            out.push('\n');
        }
        assert(out@ =~= redact_lines(lv.take(i + 1)));
        i = i + 1;
    }
    assert(lv.take(ls.len() as int) =~= lv);
    string_of(&out)
}

/// Why a relative path was refused.
#[derive(Debug, Clone, Copy, PartialEq, Eq, Structural)]
pub enum PathError {
    /// The path is absolute.
    Absolute,
    /// A `..` climbs above the root.
    Escapes,
}

pub open spec fn path_error_message(e: PathError) -> Seq<char> {
    match e {
        PathError::Absolute => "absolute paths are not allowed"@,
        PathError::Escapes => "path escapes workspace root"@,
    }
}

impl PathError {
    pub fn message(self) -> (r: &'static str)
        ensures
            r@ == path_error_message(self),
    {
        match self {
            PathError::Absolute => "absolute paths are not allowed",
            PathError::Escapes => "path escapes workspace root",
        }
    }
}

/// Resolve the components of a relative path, given the names already kept:
/// a `.` vanishes, `..` drops the last kept name and fails when there is
/// none, and a root or a prefix makes the path absolute.
pub open spec fn normalize_acc(parts: Seq<paths::PartView>, acc: Seq<Seq<char>>) -> Result<Seq<Seq<char>>, PathError>
    decreases parts.len(),
{
    if parts.len() == 0 {
        Ok(acc)
    } else {
        match parts[0] {
            paths::PartView::Normal(n) => normalize_acc(parts.drop_first(), acc.push(n)),
            paths::PartView::Current => normalize_acc(parts.drop_first(), acc),
            paths::PartView::Parent => if acc.len() == 0 {
                Err(PathError::Escapes)
            } else {
                normalize_acc(parts.drop_first(), acc.drop_last())
            },
            _ => Err(PathError::Absolute),
        }
    }
}

/// The names of a relative path with `.` and `..` resolved over its
/// components (`Path::components`); an absolute path is refused first.
pub open spec fn spec_normalize_relative(relative: Seq<char>) -> Result<Seq<Seq<char>>, PathError> {
    if paths::spec_is_absolute(relative) {
        Err(PathError::Absolute)
    } else {
        normalize_acc(paths::spec_path_parts(relative), Seq::empty())
    }
}

/// The names of `relative` with `.` and `..` resolved, refusing absolute
/// paths and paths that climb above their start. Each name is a normal
/// component (not empty, `.` or `..`, and without `/`), so joining them under
/// the root cannot climb out of it.
pub fn normalize_relative(relative: &str) -> (r: Result<Vec<String>, PathError>)
    ensures
        match spec_normalize_relative(relative@) {
            Ok(parts) => r matches Ok(v) && v@.map_values(|s: String| s@) == parts,
            Err(e) => r == Err::<Vec<String>, PathError>(e),
        },
        r matches Ok(v) ==> forall|i: int| 0 <= i < v@.len() ==> paths::is_normal_name(#[trigger] v@[i]@),
{
    if path_is_absolute(relative) {
        return Err(PathError::Absolute);
    }
    let parts = paths::path_parts(relative);
    let ghost pv = parts@.map_values(|p: paths::PathPart| paths::part_view(p));
    let ghost goal = normalize_acc(pv, Seq::empty());
    let mut acc: Vec<String> = Vec::new();
    let mut i: usize = 0;
    assert(pv.skip(0) =~= pv);
    assert(acc@.map_values(|s: String| s@) =~= Seq::<Seq<char>>::empty());
    while i < parts.len()
        invariant
            i <= parts.len(),
            pv == parts@.map_values(|p: paths::PathPart| paths::part_view(p)),
            pv == paths::spec_path_parts(relative@),
            !paths::spec_is_absolute(relative@),
            goal == normalize_acc(pv, Seq::empty()),
            normalize_acc(pv.skip(i as int), acc@.map_values(|s: String| s@)) == goal,
            forall|k: int| 0 <= k < acc@.len() ==> paths::is_normal_name(#[trigger] acc@[k]@),
            forall|k: int|
                0 <= k < parts@.len() ==> (#[trigger] parts@[k] matches paths::PathPart::Normal(n)
                    ==> paths::is_normal_name(n@)),
        decreases parts.len() - i,
    {
        let ghost av = acc@.map_values(|s: String| s@);
        proof {
            assert(pv.skip(i as int)[0] == paths::part_view(parts@[i as int]));
            assert(pv.skip(i as int).drop_first() =~= pv.skip(i + 1));
        }
        match &parts[i] {
            paths::PathPart::Normal(n) => {
                let kept = string_of(&chars_of(n.as_str()));
                acc.push(kept);
                assert(acc@.map_values(|s: String| s@) =~= av.push(n@));
            },
            paths::PathPart::Current => {},
            paths::PathPart::Parent => {
                if acc.len() == 0 {
                    assert(av =~= Seq::<Seq<char>>::empty());
                    return Err(PathError::Escapes);
                }
                acc.pop();
                assert(acc@.map_values(|s: String| s@) =~= av.drop_last());
            },
            _ => {
                return Err(PathError::Absolute);
            },
        }
        i = i + 1;
    }
    assert(pv.skip(parts.len() as int) =~= Seq::<paths::PartView>::empty());
    Ok(acc)
}


/// What the filesystem said while a path was resolved: the canonical root,
/// the canonical form of the joined path, and, when that failed and the
/// parent directory exists, the canonical parent.
pub struct Probes {
    pub root: Result<Seq<char>, Seq<char>>,
    pub joined: Result<Seq<char>, Seq<char>>,
    pub parent_exists: bool,
    pub parent: Result<Seq<char>, Seq<char>>,
}

/// The path a normalized relative path resolves to under the root, given
/// what the filesystem said: the real path when the target exists, else the
/// real parent joined with the file name, else the logical join; refused
/// when the result is not under the real root.
pub open spec fn spec_settle(joined: Seq<char>, p: Probes) -> Result<Seq<char>, Seq<char>> {
    match p.root {
        Err(e) => Err("cannot resolve workspace root: "@ + e),
        Ok(croot) => {
            let escape = Err("path escapes workspace root"@);
            match p.joined {
                Ok(c) => if paths::spec_path_starts_with(c, croot) { Ok(c) } else { escape },
                Err(_) => match paths::spec_parent(joined) {
                    Some(par) if p.parent_exists => match p.parent {
                        Err(e) => Err("cannot resolve parent path: "@ + e),
                        Ok(pc) => if !paths::spec_path_starts_with(pc, croot) {
                            escape
                        } else {
                            match paths::spec_file_name(joined) {
                                Some(n) => Ok(paths::spec_path_join(pc, n)),
                                None => Err("invalid path"@),
                            }
                        },
                    },
                    _ => if paths::spec_path_starts_with(joined, croot) { Ok(joined) } else { escape },
                },
            }
        },
    }
}

/// `root` joined with the normal components of `relative`.
pub open spec fn spec_joined(root: Seq<char>, parts: Seq<Seq<char>>) -> Seq<char> {
    paths::spec_path_join(root, tools::join(parts, "/"@))
}

fn prefixed(prefix: &str, e: &String) -> (r: String)
    ensures
        r@ == prefix@ + e@,
{
    let mut out = String::new();
    text::push_str(&mut out, prefix);
    text::push_str(&mut out, e.as_str());
    out
}

/// The answers of the file system that resolving a path consults: the
/// canonical root, the canonical joined path, whether its parent exists and
/// the canonical parent. An answer that was not asked for is never read.
pub struct PathProbes {
    pub root: Result<String, String>,
    pub joined: Result<String, String>,
    pub parent_exists: bool,
    pub parent: Result<String, String>,
}

pub open spec fn result_seq(r: Result<String, String>) -> Result<Seq<char>, Seq<char>> {
    match r {
        Ok(s) => Ok(s@),
        Err(e) => Err(e@),
    }
}

impl View for PathProbes {
    type V = Probes;

    open spec fn view(&self) -> Probes {
        Probes {
            root: result_seq(self.root),
            joined: result_seq(self.joined),
            parent_exists: self.parent_exists,
            parent: result_seq(self.parent),
        }
    }
}

pub open spec fn answer_matches(r: Result<String, String>, x: Result<Seq<char>, Seq<char>>) -> bool {
    match x {
        Ok(v) => r matches Ok(y) && y@ == v,
        Err(v) => r matches Err(y) && y@ == v,
    }
}

/// The file name of `joined`, if any, read as a path, is a single normal
/// component (see [`paths::is_one_name`]): always on Unix.
pub open spec fn file_name_is_one_name(joined: Seq<char>) -> bool {
    match paths::spec_file_name(joined) {
        Some(n) => paths::is_one_name(n),
        None => true,
    }
}

/// Where the path `joined` (the root joined with a normalized relative path)
/// resolves, given what the file system answered: see [`spec_settle`]. A
/// path it gives lies under the canonical root, component by component
/// (when the file name is a single normal component when read as a path:
/// see [`file_name_is_one_name`]).
pub fn settle_path(joined: &str, probes: &PathProbes) -> (r: Result<String, String>)
    ensures
        answer_matches(r, spec_settle(joined@, probes@)),
        r matches Ok(x) ==> (probes.root matches Ok(c) && (file_name_is_one_name(joined@)
            ==> paths::spec_path_starts_with(x@, c@))),
{
    let croot = match &probes.root {
        Ok(c) => c,
        Err(e) => return Err(prefixed("cannot resolve workspace root: ", e)),
    };
    match &probes.joined {
        Ok(c) => {
            if path_starts_with(c.as_str(), croot.as_str()) {
                Ok(string_of(&chars_of(c.as_str())))
            } else {
                Err(string_of(&chars_of("path escapes workspace root")))
            }
        },
        Err(_) => {
            let has_parent = match path_parent(joined) {
                Some(_) => probes.parent_exists,
                None => false,
            };
            if has_parent {
                match &probes.parent {
                    Err(e) => Err(prefixed("cannot resolve parent path: ", e)),
                    Ok(pc) => {
                        if !path_starts_with(pc.as_str(), croot.as_str()) {
                            Err(string_of(&chars_of("path escapes workspace root")))
                        } else {
                            match path_file_name(joined) {
                                Some(n) => Ok(path_join(pc.as_str(), n.as_str())),
                                None => Err(string_of(&chars_of("invalid path"))),
                            }
                        }
                    },
                }
            } else if path_starts_with(joined, croot.as_str()) {
                Ok(string_of(&chars_of(joined)))
            } else {
                Err(string_of(&chars_of("path escapes workspace root")))
            }
        },
    }
}

/// `p` holds what `backend` answered while resolving `joined` under `root`:
/// the real path of the root; once that is known, the real path of `joined`;
/// when that failed and `joined` has a parent, whether the parent exists;
/// and, when it does, the real path of the parent.
pub open spec fn probes_answered<B: WorkspaceBackend>(backend: &B, root: Seq<char>, joined: Seq<char>, p: Probes) -> bool {
    &&& backend.canonical_answer(root, p.root)
    &&& p.root is Ok ==> backend.canonical_answer(joined, p.joined)
    &&& (p.root is Ok && p.joined is Err && paths::spec_parent(joined) is Some) ==> backend.exists_answer(
        paths::spec_parent(joined).unwrap(),
        p.parent_exists,
    )
    &&& p.parent_exists ==> (paths::spec_parent(joined) is Some && backend.canonical_answer(
        paths::spec_parent(joined).unwrap(),
        p.parent,
    ))
}

/// Resolve `relative` under the workspace root, rejecting path traversal and
/// absolute escapes. `..` and absolute paths are refused before the
/// filesystem is asked anything; the rest is [`settle_path`] on the answers
/// the backend gave to the requests [`probes_answered`] lists, so a path it gives lies under the canonical root it
/// was given (when its file name is one [`file_name_is_one_name`] admits).
pub fn resolve_under_root<B: WorkspaceBackend>(backend: &B, root: &str, relative: &str) -> (r: Result<String, String>)
    ensures
        match spec_normalize_relative(relative@) {
            Err(e) => r matches Err(m) && m@ == path_error_message(e),
            Ok(parts) => exists|p: Probes|
                #![trigger spec_settle(spec_joined(root@, parts), p)]
                probes_answered(backend, root@, spec_joined(root@, parts), p)
                && answer_matches(r, spec_settle(spec_joined(root@, parts), p)) && (r matches Ok(x) ==> (p.root matches Ok(
                    c,
                ) && (file_name_is_one_name(spec_joined(root@, parts)) ==> paths::spec_path_starts_with(x@, c)))),
        },
{
    let parts = match normalize_relative(relative) {
        Ok(parts) => parts,
        Err(e) => return Err(string_of(&chars_of(e.message()))),
    };
    let normalized = join_strings(&parts, "/");
    let joined = path_join(root, normalized.as_str());
    let ghost jv = spec_joined(root@, parts@.map_values(|s: String| s@));
    assert(joined@ == jv);
    let root_probe = backend.canonicalize(root);
    let probes = match root_probe {
        Err(e) => PathProbes { root: Err(e), joined: Err(String::new()), parent_exists: false, parent: Err(String::new()) },
        Ok(c) => {
            let joined_probe = backend.canonicalize(joined.as_str());
            match joined_probe {
                Ok(j) => PathProbes { root: Ok(c), joined: Ok(j), parent_exists: false, parent: Err(String::new()) },
                Err(je) => match path_parent(joined.as_str()) {
                    Some(par) => {
                        if backend.path_exists(par.as_str()) {
                            let parent_probe = backend.canonicalize(par.as_str());
                            PathProbes { root: Ok(c), joined: Err(je), parent_exists: true, parent: parent_probe }
                        } else {
                            PathProbes { root: Ok(c), joined: Err(je), parent_exists: false, parent: Err(String::new()) }
                        }
                    },
                    None => PathProbes { root: Ok(c), joined: Err(je), parent_exists: false, parent: Err(String::new()) },
                },
            }
        },
    };
    let r = settle_path(joined.as_str(), &probes);
    let ghost pv = probes@;
    assert(answer_matches(r, spec_settle(spec_joined(root@, parts@.map_values(|s: String| s@)), pv)));
    assert(r matches Ok(x) ==> (pv.root matches Ok(c) && (file_name_is_one_name(jv) ==> paths::spec_path_starts_with(x@, c))));
    assert(probes_answered(backend, root@, jv, pv));
    r
}

} // verus!
