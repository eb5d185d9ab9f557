//! Unix path arithmetic on strings: joining a relative path onto a base the
//! way `Path::join` does, and the helpers that place a new signing key next to
//! its manifest.
use vstd::prelude::*;
use vstd::string::StringExecFns;
use crate::text::{chars_of, string_of};

verus! {

/// `Path::join` on Unix: an absolute `rel` replaces `base`; otherwise `rel` is
/// appended, with a `/` in between unless `base` is empty or already ends with one.
pub open spec fn joined_path(base: Seq<char>, rel: Seq<char>) -> Seq<char> {
    if rel.len() > 0 && rel[0] == '/' {
        rel
    } else if base.len() > 0 && base.last() != '/' {
        base + seq!['/'] + rel
    } else {
        base + rel
    }
}

/// `base.join(rel)`, rendered as text.
pub fn join_path(base: &str, rel: &str) -> (r: String)
    ensures
        r@ == joined_path(base@, rel@),
{
    let rel_chars = chars_of(rel);
    if rel_chars.len() > 0 && rel_chars[0] == '/' {
        return string_of(&rel_chars);
    }
    let base_chars = chars_of(base);
    let mut r = string_of(&base_chars);
    if base_chars.len() > 0 && base_chars[base_chars.len() - 1] != '/' {
        r.push('/');
    }
    r.append(rel);
    r
}


/// What `Path::parent` gives for `path`: the path without its final
/// component, or `None` when it ends in a root or is empty.
pub uninterp spec fn parent_path(path: Seq<char>) -> Option<Seq<char>>;

/// Calls `std::path::Path::parent`. Trusted: the result is that function's,
/// named `parent_path`; nothing more of it is stated.
#[verifier::external_body]
fn path_parent(path: &str) -> (r: Option<String>)
    ensures
        r matches Some(p) ==> parent_path(path@) is Some && parent_path(path@)->0 == p@,
        r is None ==> parent_path(path@) is None,
{
    match std::path::Path::new(path).parent() {
        Some(p) => Some(p.to_string_lossy().into_owned()),
        None => None,
    }
}

/// The directory that relative paths in the manifest at `path` resolve
/// against: its parent, or `.` when it has none.
pub open spec fn base_of(path: Seq<char>) -> Seq<char> {
    match parent_path(path) {
        Some(p) => p,
        None => "."@,
    }
}

/// The directory that relative paths in the manifest at `path` resolve against.
pub fn manifest_base(path: &str) -> (r: String)
    ensures
        r@ == base_of(path@),
{
    match path_parent(path) {
        Some(p) => p,
        None => String::from_str("."),
    }
}

/// The path is absolute: on Unix, it starts at the root.
pub open spec fn is_absolute(path: Seq<char>) -> bool {
    path.len() > 0 && path[0] == '/'
}

/// Where `path`, given relative to the manifest at `manifest`, lies: an
/// absolute path as it is, a relative one joined onto the manifest's directory.
pub open spec fn resolved_from_manifest(manifest: Seq<char>, path: Seq<char>) -> Seq<char> {
    if is_absolute(path) {
        path
    } else {
        joined_path(base_of(manifest), path)
    }
}

/// Resolves `path` against the directory of the manifest at `manifest`.
pub fn resolve_from_manifest(manifest: &str, path: &str) -> (r: String)
    ensures
        r@ == resolved_from_manifest(manifest@, path@),
{
    let chars = chars_of(path);
    if chars.len() > 0 && chars[0] == '/' {
        return string_of(&chars);
    }
    let base = manifest_base(manifest);
    join_path(base.as_str(), path)
}

/// What `Path::strip_prefix` gives for `path` and `base`: the rest of `path`
/// after the components of `base`, or `None` when `base` is not its prefix.
pub uninterp spec fn stripped_path(path: Seq<char>, base: Seq<char>) -> Option<Seq<char>>;

/// Calls `std::path::Path::strip_prefix`. Trusted: the result is that
/// function's, named `stripped_path`, with a failure mapped to `None`.
#[verifier::external_body]
fn path_strip_prefix(path: &str, base: &str) -> (r: Option<String>)
    ensures
        r matches Some(p) ==> stripped_path(path@, base@) is Some && stripped_path(path@, base@)->0
            == p@,
        r is None ==> stripped_path(path@, base@) is None,
{
    match std::path::Path::new(path).strip_prefix(base) {
        Ok(p) => Some(p.to_string_lossy().into_owned()),
        Err(_) => None,
    }
}

/// `s` with every `\` written as `/`.
pub open spec fn forward_slashes(s: Seq<char>) -> Seq<char> {
    s.map_values(|c: char| if c == '\\' { '/' } else { c })
}

fn replace_backslashes(s: &str) -> (r: String)
    ensures
        r@ == forward_slashes(s@),
{
    let chars = chars_of(s);
    let mut r = String::new();
    let n = chars.len();
    for i in 0..n
        invariant
            n == chars@.len() == s@.len(),
            chars@ == s@,
            r@ == forward_slashes(s@).take(i as int),
    {
        let c = chars[i];
        r.push(if c == '\\' { '/' } else { c });
        assert(forward_slashes(s@).take(i + 1) == forward_slashes(s@).take(i as int).push(
            forward_slashes(s@)[i as int],
        ));
    }
    assert(forward_slashes(s@).take(n as int) == forward_slashes(s@));
    r
}

/// How a manifest at `manifest` refers to the key at `key`: relative to the
/// manifest's directory when the key lies below it, else the key's path, with
/// forward slashes.
pub open spec fn key_reference(manifest: Seq<char>, key: Seq<char>) -> Seq<char> {
    forward_slashes(
        match stripped_path(key, base_of(manifest)) {
            Some(rest) => rest,
            None => key,
        },
    )
}

/// The `signing_key` value to write into the manifest at `manifest` for the
/// key file at `key`.
pub fn relative_key_reference(manifest: &str, key: &str) -> (r: String)
    ensures
        r@ == key_reference(manifest@, key@),
{
    let base = manifest_base(manifest);
    match path_strip_prefix(key, base.as_str()) {
        Some(rest) => replace_backslashes(rest.as_str()),
        None => replace_backslashes(key),
    }
}

} // verus!
