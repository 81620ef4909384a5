//! Host and guest paths. Paths are carried as UTF-8 strings; the three
//! operations that follow `std::path` component rules are `std`'s own, each
//! behind one wrapper whose result is named.

use vstd::prelude::*;
use std::path::Path;
use crate::text::{chars_of, has_prefix, slice_chars, string_from_chars, text_eq};

verus! {

/// What `Path::join` gives for `base` and `rest`.
pub uninterp spec fn joined_path(base: Seq<char>, rest: Seq<char>) -> Seq<char>;

/// What `Path::file_name` gives for `p`.
pub uninterp spec fn path_file_name(p: Seq<char>) -> Option<Seq<char>>;

/// What `Path::parent` gives for `p`.
pub uninterp spec fn path_parent(p: Seq<char>) -> Option<Seq<char>>;

/// `Path::join`: `rest` adjoined to `base`. A path made of two UTF-8
/// strings is UTF-8, so the lossy conversion back is exact.
#[verifier::external_body]
pub fn join_path(base: &str, rest: &str) -> (s: String)
    ensures
        s@ == joined_path(base@, rest@),
{
    Path::new(base).join(rest).to_string_lossy().into_owned()
}

/// `Path::file_name`: the final component of `p`, if it is a normal one.
#[verifier::external_body]
pub fn file_name(p: &str) -> (r: Option<String>)
    ensures
        match r {
            Some(s) => path_file_name(p@) == Some(s@),
            None => path_file_name(p@) is None,
        },
{
    match Path::new(p).file_name() {
        Some(name) => Some(name.to_string_lossy().into_owned()),
        None => None,
    }
}

/// `Path::parent`: `p` without its final component, if it has one.
#[verifier::external_body]
pub fn parent(p: &str) -> (r: Option<String>)
    ensures
        match r {
            Some(s) => path_parent(p@) == Some(s@),
            None => path_parent(p@) is None,
        },
{
    match Path::new(p).parent() {
        Some(dir) => Some(dir.to_string_lossy().into_owned()),
        None => None,
    }
}

/// `~` and `~/...` name the home directory; any other path stands as it is.
pub open spec fn expand_tilde_spec(path: Seq<char>, home: Seq<char>) -> Seq<char> {
    if has_prefix(path, "~/"@) {
        joined_path(home, path.skip(2))
    } else if path == "~"@ {
        home
    } else {
        path
    }
}

/// `expand_tilde`: `path` with a leading `~` resolved against `home`.
pub fn expand_tilde(path: &str, home: &str) -> (s: String)
    ensures
        s@ == expand_tilde_spec(path@, home@),
{
    proof {
        reveal_strlit("~/");
        reveal_strlit("~");
    }
    let chars = chars_of(path);
    if chars.len() >= 2 && chars[0] == '~' && chars[1] == '/' {
        assert(chars@.take(2) =~= "~/"@);
        let rest = string_from_chars(&slice_chars(&chars, 2, chars.len()));
        assert(rest@ =~= path@.skip(2));
        return join_path(home, rest.as_str());
    }
    assert(!has_prefix(path@, "~/"@)) by {
        if has_prefix(path@, "~/"@) {
            assert(path@.take(2)[0] == '~');
            assert(path@.take(2)[1] == '/');
        }
    }
    if text_eq(path, "~") {
        return home.to_owned();
    }
    path.to_owned()
}

/// The last component of `p` as a name, or `fallback` where there is none.
pub open spec fn base_name_or(p: Seq<char>, fallback: Seq<char>) -> Seq<char> {
    match path_file_name(p) {
        Some(n) => n,
        None => fallback,
    }
}

/// `workspace_base`: the name of the project directory, used as the guest
/// hostname; `workspace` where the path has no final name.
pub fn workspace_base(cwd: &str) -> (s: String)
    ensures
        s@ == base_name_or(cwd@, "workspace"@),
{
    match file_name(cwd) {
        Some(n) => n,
        None => "workspace".to_owned(),
    }
}

} // verus!
