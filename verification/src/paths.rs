//! Paths are carried as text. What `std::path` computes on them is called,
//! not rebuilt: each wrapper below makes one `Path` call, and its result is
//! named by an uninterpreted spec function of the text it was given.
use std::path::{Component, Path};

use vstd::prelude::*;

use crate::text;

verus! {

/// A component of a path, as `Path::components` gives it.
#[derive(Debug)]
pub enum PathPart {
    /// A Windows prefix such as `C:`, as text.
    Prefix(String),
    /// The root directory.
    Root,
    /// A leading `.`.
    Current,
    /// `..`.
    Parent,
    /// A name.
    Normal(String),
}

/// A path component as a value.
pub enum PartView {
    Prefix(Seq<char>),
    Root,
    Current,
    Parent,
    Normal(Seq<char>),
}

pub open spec fn part_view(p: PathPart) -> PartView {
    match p {
        PathPart::Prefix(s) => PartView::Prefix(s@),
        PathPart::Root => PartView::Root,
        PathPart::Current => PartView::Current,
        PathPart::Parent => PartView::Parent,
        PathPart::Normal(s) => PartView::Normal(s@),
    }
}

/// A name that can be a normal component: not empty, not `.` or `..`, and
/// without `/`.
pub open spec fn is_normal_name(n: Seq<char>) -> bool {
    n.len() > 0 && n != seq!['.'] && n != seq!['.', '.'] && !text::has_char(n, '/')
}

/// `Path::components`: the components of a path, in order.
pub uninterp spec fn spec_path_parts(path: Seq<char>) -> Seq<PartView>;

/// Calls `Path::components` and takes each component as a [`PathPart`]; the
/// result is named `spec_path_parts` of the path. As the documentation of
/// `components` says, repeated separators are ignored, `.` is dropped except
/// at the start (where it is `CurDir`) and `..` is `ParentDir`, so a normal
/// component is a non-empty name other than `.` and `..`, and holds no `/`.
#[verifier::external_body]
pub(crate) fn path_parts(path: &str) -> (r: Vec<PathPart>)
    ensures
        r@.map_values(|p: PathPart| part_view(p)) == spec_path_parts(path@),
        forall|i: int| 0 <= i < r@.len() ==> (#[trigger] r@[i] matches PathPart::Normal(n) ==> is_normal_name(n@)),
{
    let mut out = Vec::new();
    for c in Path::new(path).components() {
        out.push(match c {
            Component::Prefix(p) => PathPart::Prefix(p.as_os_str().to_string_lossy().into_owned()),
            Component::RootDir => PathPart::Root,
            Component::CurDir => PathPart::Current,
            Component::ParentDir => PathPart::Parent,
            Component::Normal(n) => PathPart::Normal(n.to_string_lossy().into_owned()),
        });
    }
    out
}

fn part_eq(a: &PathPart, b: &PathPart) -> (r: bool)
    ensures
        r == (part_view(*a) == part_view(*b)),
{
    match (a, b) {
        (PathPart::Prefix(x), PathPart::Prefix(y)) => text::str_eq(x.as_str(), y.as_str()),
        (PathPart::Root, PathPart::Root) => true,
        (PathPart::Current, PathPart::Current) => true,
        (PathPart::Parent, PathPart::Parent) => true,
        (PathPart::Normal(x), PathPart::Normal(y)) => text::str_eq(x.as_str(), y.as_str()),
        _ => false,
    }
}

/// Two paths are the same path as `Path`'s `==` compares them: component by
/// component.
pub open spec fn spec_same_path(a: Seq<char>, b: Seq<char>) -> bool {
    spec_path_parts(a) == spec_path_parts(b)
}

/// Whether `a` and `b` have the same components.
pub fn same_path(a: &str, b: &str) -> (r: bool)
    ensures
        r == spec_same_path(a@, b@),
{
    let x = path_parts(a);
    let y = path_parts(b);
    let ghost xv = x@.map_values(|p: PathPart| part_view(p));
    let ghost yv = y@.map_values(|p: PathPart| part_view(p));
    if x.len() != y.len() {
        assert(xv.len() != yv.len());
        return false;
    }
    let mut i: usize = 0;
    while i < x.len()
        invariant
            i <= x.len(),
            x.len() == y.len(),
            xv == x@.map_values(|p: PathPart| part_view(p)),
            yv == y@.map_values(|p: PathPart| part_view(p)),
            xv == spec_path_parts(a@),
            yv == spec_path_parts(b@),
            forall|k: int| 0 <= k < i ==> xv[k] == yv[k],
        decreases x.len() - i,
    {
        assert(xv[i as int] == part_view(x@[i as int]) && yv[i as int] == part_view(y@[i as int]));
        if !part_eq(&x[i], &y[i]) {
            assert(xv != yv);
            return false;
        }
        i = i + 1;
    }
    assert(xv =~= yv);
    true
}

/// `part`, read as a path, is a single normal component: itself. On Unix
/// every file name is; on Windows one led by a drive letter and `:` is not.
pub open spec fn is_one_name(part: Seq<char>) -> bool {
    spec_path_parts(part) == seq![PartView::Normal(part)]
}

/// `Path::join`: `part` appended to `base` as a new component.
pub uninterp spec fn spec_path_join(base: Seq<char>, part: Seq<char>) -> Seq<char>;

/// `Path::file_name`: the final component, if any.
pub uninterp spec fn spec_file_name(path: Seq<char>) -> Option<Seq<char>>;

/// `Path::file_stem`: the final component without its extension, if any.
pub uninterp spec fn spec_file_stem(path: Seq<char>) -> Option<Seq<char>>;

/// `Path::extension`: the extension of the final component, if any.
pub uninterp spec fn spec_extension(path: Seq<char>) -> Option<Seq<char>>;

/// `Path::parent`: the path without its final component, if any.
pub uninterp spec fn spec_parent(path: Seq<char>) -> Option<Seq<char>>;

/// Calls `Path::join` and renders the result as text. The result is a
/// function of the two texts (named `spec_path_join`); and, as `Path::push`
/// documents, a relative part without root or prefix is appended, so the
/// result starts with `base`, component by component, when the part is one
/// normal component (`is_one_name`).
#[verifier::external_body]
pub(crate) fn path_join(base: &str, part: &str) -> (r: String)
    ensures
        r@ == spec_path_join(base@, part@),
        is_one_name(part@) ==> spec_path_starts_with(r@, base@),
{
    Path::new(base).join(part).to_string_lossy().into_owned()
}

/// Calls `Path::file_name`; the result is named `spec_file_name` of the text.
#[verifier::external_body]
pub(crate) fn path_file_name(path: &str) -> (r: Option<String>)
    ensures
        match r {
            Some(s) => spec_file_name(path@) == Some(s@),
            None => spec_file_name(path@) is None,
        },
{
    match Path::new(path).file_name() {
        Some(n) => Some(n.to_string_lossy().into_owned()),
        None => None,
    }
}

/// Calls `Path::file_stem`; the result is named `spec_file_stem` of the text.
#[verifier::external_body]
pub(crate) fn path_file_stem(path: &str) -> (r: Option<String>)
    ensures
        match r {
            Some(s) => spec_file_stem(path@) == Some(s@),
            None => spec_file_stem(path@) is None,
        },
{
    match Path::new(path).file_stem() {
        Some(n) => Some(n.to_string_lossy().into_owned()),
        None => None,
    }
}

/// Calls `Path::extension`; the result is named `spec_extension` of the text.
#[verifier::external_body]
pub(crate) fn path_extension(path: &str) -> (r: Option<String>)
    ensures
        match r {
            Some(s) => spec_extension(path@) == Some(s@),
            None => spec_extension(path@) is None,
        },
{
    match Path::new(path).extension() {
        Some(n) => Some(n.to_string_lossy().into_owned()),
        None => None,
    }
}

/// Calls `Path::parent`; the result is named `spec_parent` of the text.
#[verifier::external_body]
pub(crate) fn path_parent(path: &str) -> (r: Option<String>)
    ensures
        match r {
            Some(s) => spec_parent(path@) == Some(s@),
            None => spec_parent(path@) is None,
        },
{
    match Path::new(path).parent() {
        Some(p) => Some(p.to_string_lossy().into_owned()),
        None => None,
    }
}

/// `Path::is_absolute`: whether the path is independent of the current
/// directory.
pub uninterp spec fn spec_is_absolute(path: Seq<char>) -> bool;

/// Calls `Path::is_absolute`; the answer is named `spec_is_absolute` of the
/// text.
#[verifier::external_body]
pub(crate) fn path_is_absolute(path: &str) -> (r: bool)
    ensures
        r == spec_is_absolute(path@),
{
    Path::new(path).is_absolute()
}

/// `Path::starts_with`: whether `base` is a prefix of `path`, component by
/// component.
pub uninterp spec fn spec_path_starts_with(path: Seq<char>, base: Seq<char>) -> bool;

/// Calls `Path::starts_with`; the answer is named `spec_path_starts_with` of
/// the two texts. A prefix of whole components is transitive: when `base`
/// starts `path`, it starts every path that `path` starts.
#[verifier::external_body]
pub(crate) fn path_starts_with(path: &str, base: &str) -> (r: bool)
    ensures
        r == spec_path_starts_with(path@, base@),
        r ==> forall|q: Seq<char>| #[trigger] spec_path_starts_with(q, path@) ==> spec_path_starts_with(q, base@),
{
    Path::new(path).starts_with(base)
}

/// `Path::strip_prefix`: `path` relative to `base`, when `base` is a prefix.
pub uninterp spec fn spec_strip_prefix(path: Seq<char>, base: Seq<char>) -> Option<Seq<char>>;

/// Calls `Path::strip_prefix`; the result is named `spec_strip_prefix` of
/// the two texts (`None` when `base` is not a prefix).
#[verifier::external_body]
pub(crate) fn path_strip_prefix(path: &str, base: &str) -> (r: Option<String>)
    ensures
        match r {
            Some(s) => spec_strip_prefix(path@, base@) == Some(s@),
            None => spec_strip_prefix(path@, base@) is None,
        },
{
    match Path::new(path).strip_prefix(base) {
        Ok(p) => Some(p.to_string_lossy().into_owned()),
        Err(_) => None,
    }
}

/// Calls `dirs::home_dir`. The answer depends on the environment of the
/// process, so nothing is stated of it.
#[verifier::external_body]
pub(crate) fn home_dir() -> (r: Option<String>) {
    match dirs::home_dir() {
        Some(h) => Some(h.to_string_lossy().into_owned()),
        None => None,
    }
}

} // verus!
