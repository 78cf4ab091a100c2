//! File-system paths: joining a file name onto a directory, asking whether a
//! path exists, and reading a file name's extension.
use vstd::prelude::*;

verus! {

/// A file name made of letters, digits, `-`, `_` and `.`, other than `.` and `..`: a
/// single ordinary component on every platform.
pub open spec fn plain_file_name(name: Seq<char>) -> bool {
    &&& name.len() > 0
    &&& forall|i: int|
        0 <= i < name.len() ==> {
            let c = #[trigger] name[i];
            ('a' <= c <= 'z') || ('A' <= c <= 'Z') || ('0' <= c <= '9') || c == '-' || c == '_'
                || c == '.'
        }
    &&& (name.len() > 2 || name[0] != '.' || name.last() != '.')
}

/// The characters of `p` after its last `/` (all of `p` when it has none).
pub open spec fn last_segment(p: Seq<char>) -> Seq<char>
    decreases p.len(),
{
    if p.len() == 0 {
        p
    } else if p.last() == '/' {
        Seq::empty()
    } else {
        last_segment(p.drop_last()).push(p.last())
    }
}

/// `c` separates path components on some platform: `/` everywhere, `\` on Windows.
pub open spec fn is_separator(c: char) -> bool {
    c == '/' || c == '\\'
}

/// `p` starts with two separators: on Windows, the start of a UNC, device or verbatim
/// prefix.
pub open spec fn starts_with_two_separators(p: Seq<char>) -> bool {
    p.len() >= 2 && is_separator(p[0]) && is_separator(p[1])
}

/// `p` starts with the verbatim prefix `\\?\`, under which Windows splits components at
/// `\` alone.
pub open spec fn has_verbatim_prefix(p: Seq<char>) -> bool {
    p.len() >= 4 && p[0] == '\\' && p[1] == '\\' && p[2] == '?' && p[3] == '\\'
}

/// The characters of `p` after its last `/` or `\` (all of `p` when it has neither).
pub open spec fn last_component(p: Seq<char>) -> Seq<char>
    decreases p.len(),
{
    if p.len() == 0 {
        p
    } else if is_separator(p.last()) {
        Seq::empty()
    } else {
        last_component(p.drop_last()).push(p.last())
    }
}

/// A name that std reads as an ordinary component: not empty, and neither `.` nor `..`.
pub open spec fn ordinary_name(n: Seq<char>) -> bool {
    n.len() > 0 && n != "."@ && n != ".."@
}

/// A path whose components are read the same way on every platform and whose last
/// component is an ordinary name: no `\` and no `:` in it (so no Windows prefix and `/`
/// as the only separator), it does not start with `//`, and after its last `/` stands
/// an ordinary name, whatever its characters.
pub open spec fn ordinary_path(p: Seq<char>) -> bool {
    &&& !p.contains('\\')
    &&& !p.contains(':')
    &&& !starts_with_two_separators(p)
    &&& ordinary_name(last_segment(p))
}

/// A path whose last component, read with either separator, is an ordinary name
/// without `:`, and which does not start with two separators. Its file name is that
/// last component on Windows; elsewhere `\` is an ordinary character, and the file name
/// is the part after the last `/`, which ends with that component.
pub open spec fn portable_last_component(p: Seq<char>) -> bool {
    &&& !starts_with_two_separators(p)
    &&& ordinary_name(last_component(p))
    &&& !last_component(p).contains(':')
}

/// The characters of `n` after its last full stop (all of `n` when it has none).
pub open spec fn after_last_dot(n: Seq<char>) -> Seq<char>
    decreases n.len(),
{
    if n.len() == 0 {
        n
    } else if n.last() == '.' {
        Seq::empty()
    } else {
        after_last_dot(n.drop_last()).push(n.last())
    }
}

/// The extension of a file name, as `Path::extension` documents it: none without a
/// full stop, none when the only full stop starts the name, otherwise what follows the
/// last full stop.
pub open spec fn name_extension(n: Seq<char>) -> Option<Seq<char>> {
    if !n.contains('.') {
        None
    } else if n[0] == '.' && !n.skip(1).contains('.') {
        None
    } else {
        Some(after_last_dot(n))
    }
}

/// `joined` is what joining the file name `name` onto `dir` gives, as far as it is the
/// same on every platform: `dir`, then nothing, `/` or `\`, then `name`. A directory with
/// a verbatim prefix is rebuilt and normalized by the join on Windows; for it, nothing is
/// said.
pub open spec fn joins_to(dir: Seq<char>, name: Seq<char>, joined: Seq<char>) -> bool {
    !has_verbatim_prefix(dir) ==> exists|mid: Seq<char>|
        (mid == Seq::<char>::empty() || mid == seq!['/'] || mid == seq!['\\'])
            && joined == dir + mid + name
}

/// `Path::join` of a single relative component, as text.
///
/// Claims, for a plain file name (never `.` or `..`) and a directory without a verbatim
/// prefix: the result is `dir`, then nothing, `/` or `\`, then `name`. Which separator,
/// and whether one is put, depends on the platform and on how `dir` ends; that is left
/// unsaid. Under a verbatim prefix (`\\?\`) std rebuilds the directory from its
/// components, and nothing is claimed.
#[verifier::external_body]
pub(crate) fn path_join(dir: &str, name: &str) -> (r: String)
    requires
        plain_file_name(name@),
    ensures
        joins_to(dir@, name@, r@),
{
    std::path::Path::new(dir).join(name).to_string_lossy().to_string()
}

/// `Path::exists`: whether something is on disk at `path`.
///
/// Nothing is claimed of the result: it depends on the file system at the moment of
/// the call.
#[verifier::external_body]
pub(crate) fn path_exists(path: String) -> bool {
    std::path::Path::new(&path).exists()
}

/// `b` is an answer that asking the disk whether `p` exists can give: the result of a
/// call of `Path::exists` on `p`.
pub closed spec fn exists_answer(p: Seq<char>, b: bool) -> bool {
    exists|q: String| q@ == p && #[trigger] call_ensures(path_exists, (q,), b)
}

/// Asks the disk whether `path` exists.
pub fn probe_path(path: &str) -> (r: bool)
    ensures
        exists_answer(path@, r),
{
    let p = path.to_owned();
    let ghost q = p;
    let b = path_exists(p);
    assert(call_ensures(path_exists, (q,), b));
    b
}

/// `b` is an answer that asking the disk whether `name` exists in directory `dir` can
/// give: an answer for the path that joins them.
pub open spec fn joined_answer(dir: Seq<char>, name: Seq<char>, b: bool) -> bool {
    exists|p: Seq<char>| joins_to(dir, name, p) && #[trigger] exists_answer(p, b)
}

/// Asks the disk whether the file `name` exists in the directory `dir`.
pub fn probe_file(dir: &str, name: &str) -> (r: bool)
    requires
        plain_file_name(name@),
    ensures
        joined_answer(dir@, name@, r),
{
    let p = path_join(dir, name);
    let b = probe_path(p.as_str());
    assert(joins_to(dir@, name@, p@) && exists_answer(p@, b));
    b
}

/// Characters that can follow a file name at the end of a path: separators and
/// current-directory marks.
pub open spec fn only_trailing_marks(q: Seq<char>) -> bool {
    forall|i: int| 0 <= i < q.len() ==> (#[trigger] q[i] == '/' || q[i] == '\\' || q[i] == '.')
}

/// `ext` can be the extension of `path`: `path` has a full stop, then `ext`, then
/// nothing but separators and current-directory marks; `ext` holds no full stop, and
/// outside a verbatim prefix no `/`.
pub open spec fn is_extension_of(path: Seq<char>, ext: Seq<char>) -> bool {
    &&& exists|p: Seq<char>, q: Seq<char>| path == p + seq!['.'] + ext + q && only_trailing_marks(q)
    &&& !ext.contains('.')
    &&& !has_verbatim_prefix(path) ==> !ext.contains('/')
}

/// The extension of a path as every platform reads it, where that is known: for a path
/// whose last component is portable and has an extension, that extension.
pub open spec fn portable_extension(p: Seq<char>) -> Option<Seq<char>> {
    if portable_last_component(p) && name_extension(last_component(p)) is Some {
        Some(after_last_dot(last_component(p)))
    } else {
        None
    }
}

/// `Path::extension`, as text.
///
/// Claims: a found extension follows a full stop of the path, holds no full stop, and
/// only separators and `.` come after it; outside a verbatim prefix it holds no `/`; a
/// path without a full stop has none; on an ordinary path it is the documented
/// extension of the last component; and when the last component, read with either
/// separator, is an ordinary name without `:` that has an extension, it is that
/// extension. On other paths, which
/// component is last depends on the platform's separators and prefixes, and the answer
/// is left unsaid.
#[verifier::external_body]
pub(crate) fn path_extension(path: &str) -> (r: Option<String>)
    ensures
        r matches Some(e) ==> is_extension_of(path@, e@),
        !path@.contains('.') ==> r is None,
        ordinary_path(path@) ==> match r {
            Some(e) => name_extension(last_segment(path@)) == Some(e@),
            None => name_extension(last_segment(path@)) is None,
        },
        r is None ==> portable_extension(path@) is None,
        r matches Some(e) ==> (portable_extension(path@) matches Some(x) ==> e@ == x),
{
    std::path::Path::new(path).extension().map(|e| e.to_string_lossy().to_string())
}

} // verus!
