//! File paths as texts, with `/` between their components.

use vstd::prelude::*;

use crate::text;

verus! {

/// `path` as seen from the directory `base`: `path` itself if it is absolute.
pub open spec fn joined_path(base: Seq<char>, path: Seq<char>) -> Seq<char> {
    if path.len() > 0 && path[0] == '/' {
        path
    } else if base.len() == 0 || base.last() == '/' {
        base + path
    } else {
        base.push('/') + path
    }
}

/// `path` as seen from the directory `base`.
pub fn join_path(base: &str, path: &str) -> (joined: String)
    ensures
        joined@ == joined_path(base@, path@),
{
    let len: usize = base.unicode_len();
    let path_len: usize = path.unicode_len();
    if path_len > 0 && path.get_char(0) == '/' {
        return path.to_owned();
    }
    let mut joined = base.to_owned();
    if len > 0 && base.get_char(len - 1) != '/' {
        joined.push('/');
    }
    joined.append(path);
    joined
}

/// `path` with a leading `~/` replaced by the home directory, where that is known.
pub open spec fn expanded(path: Seq<char>, home: Option<Seq<char>>) -> Seq<char> {
    if text::has_prefix(path, "~/"@) && home is Some {
        joined_path(home->0, path.skip(2))
    } else {
        path
    }
}

/// `path` with a leading `~/` replaced by the home directory, where that is known.
pub fn expand_tilde(path: &str, home: &Option<String>) -> (out: String)
    ensures
        out@ == expanded(path@, text::opt_text(*home)),
{
    proof {
        reveal_strlit("~/");
    }
    match text::strip_prefix(path, "~/") {
        Some(rest) => match home {
            Some(home) => join_path(home.as_str(), rest),
            None => path.to_owned(),
        },
        None => path.to_owned(),
    }
}

/// Where the configuration is kept unless told otherwise.
pub fn default_config_path(home: &Option<String>) -> (path: String)
    ensures
        path@ == expanded("~/.openclaw/subspace-daemon/config.json"@, text::opt_text(*home)),
{
    expand_tilde("~/.openclaw/subspace-daemon/config.json", home)
}

// ---------------------------------------------------------------------------
// Laws
// ---------------------------------------------------------------------------

/// A file in a directory lies below it, under its own name; an absolute path stays as it is.
pub proof fn law_joined_path_lies_below(base: Seq<char>, path: Seq<char>)
    ensures
        path.len() > 0 && path[0] == '/' ==> joined_path(base, path) == path,
        path.len() > 0 && path[0] != '/' ==> base.is_prefix_of(joined_path(base, path))
            && path.is_suffix_of(joined_path(base, path)) && (base.len() > 0 ==> joined_path(
            base,
            path,
        )[joined_path(base, path).len() - path.len() - 1] == '/'),
        path.len() > 0 && path[0] != '/' ==> joined_path(base, path).len() <= base.len()
            + path.len() + 1,
{
    let joined = joined_path(base, path);
    if path.len() > 0 && path[0] != '/' {
        assert(joined.take(base.len() as int) =~= base);
        assert(joined.skip(joined.len() - path.len()) =~= path);
    }
}

/// Two files in a directory are two.
pub proof fn law_files_in_a_directory_differ(base: Seq<char>, first: Seq<char>, second: Seq<char>)
    requires
        first.len() > 0 && first[0] != '/',
        second.len() > 0 && second[0] != '/',
        first != second,
    ensures
        joined_path(base, first) != joined_path(base, second),
{
    let n = joined_path(base, first).len() - first.len();
    assert(joined_path(base, first).skip(n) =~= first);
    assert(joined_path(base, second).skip(n) =~= second);
}

/// A path in the home directory is found there.
pub(crate) proof fn lemma_home_is_expanded(rest: Seq<char>, home: Seq<char>)
    ensures
        expanded(seq!['~', '/'] + rest, Some(home)) == joined_path(home, rest),
{
    reveal_strlit("~/");
    let path = seq!['~', '/'] + rest;
    assert(path.take(2) =~= "~/"@);
    assert(path.skip(2) =~= rest);
}

/// A path in the home directory is found there, and any other path is left as it is.
pub proof fn law_home_is_expanded(rest: Seq<char>, home: Seq<char>, other: Seq<char>)
    requires
        other.len() == 0 || other[0] != '~',
    ensures
        expanded(seq!['~', '/'] + rest, Some(home)) == joined_path(home, rest),
        expanded(seq!['~', '/'] + rest, None) == seq!['~', '/'] + rest,
        expanded(other, Some(home)) == other,
{
    reveal_strlit("~/");
    lemma_home_is_expanded(rest, home);
    assert("~/"@[0] == '~');
}

} // verus!
