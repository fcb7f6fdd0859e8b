//! Conversion between file paths and `file:` URIs. A path stands here as the
//! text that names it.

use crate::text::{characters, push_characters, starts_with};
use vstd::prelude::*;
use vstd::slice::slice_subrange;
use vstd::string::*;

verus! {

/// Whether a text begins as a Windows path does behind the root slash of its
/// URI: a slash, a drive letter and a colon.
pub open spec fn drive_behind_slash(text: Seq<char>) -> bool {
    text.len() > 2 && text[0] == '/' && text[2] == ':'
}

/// The path that a `file:` URI names; none for any other URI. The slash
/// before a drive letter belongs to the URI, any other slash to the path.
pub open spec fn path_of_uri(uri: Seq<char>) -> Option<Seq<char>> {
    if "file://"@.is_prefix_of(uri) {
        let rest = uri.skip("file://"@.len() as int);
        if drive_behind_slash(rest) {
            Some(rest.skip(1))
        } else {
            Some(rest)
        }
    } else {
        None
    }
}

/// A path with slashes in place of backslashes.
pub open spec fn with_slashes(path: Seq<char>) -> Seq<char> {
    path.map_values(|c: char| if c == '\\' { '/' } else { c })
}

/// The `file:` URI that names a path.
pub open spec fn uri_of_path(path: Seq<char>) -> Seq<char> {
    let slashed = with_slashes(path);
    if slashed.len() > 0 && slashed[0] == '/' {
        "file://"@ + slashed
    } else {
        "file:///"@ + slashed
    }
}

/// The path that a `file:` URI names.
pub fn file_uri_to_path(uri: &str) -> (path: Option<String>)
    ensures
        match path {
            Some(path) => path_of_uri(uri@) == Some(path@),
            None => path_of_uri(uri@) is None,
        },
{
    let chars: Vec<char> = characters(uri);
    let scheme: Vec<char> = characters("file://");
    if !starts_with(chars.as_slice(), scheme.as_slice()) {
        return None;
    }
    let rest: &[char] = slice_subrange(chars.as_slice(), scheme.len(), chars.len());
    assert(rest@ == uri@.skip("file://"@.len() as int));
    let mut path: String = String::new();
    if rest.len() > 2 && rest[0] == '/' && rest[2] == ':' {
        push_characters(&mut path, slice_subrange(rest, 1, rest.len()));
        assert(path@ == rest@.skip(1));
    } else {
        push_characters(&mut path, rest);
        assert(path@ == rest@);
    }
    Some(path)
}

/// The `file:` URI that names a path.
pub fn path_to_file_uri(path: &str) -> (uri: String)
    ensures
        uri@ == uri_of_path(path@),
{
    let chars: Vec<char> = characters(path);
    let mut uri: String = if chars.len() > 0 && (chars[0] == '/' || chars[0] == '\\') {
        String::from_str("file://")
    } else {
        String::from_str("file:///")
    };
    let ghost start = uri@;
    let mut i: usize = 0;
    while i < chars.len()
        invariant
            i <= chars@.len(),
            chars@ == path@,
            uri@ == start + with_slashes(path@).take(i as int),
        decreases chars@.len() - i,
    {
        uri.push(if chars[i] == '\\' { '/' } else { chars[i] });
        assert(with_slashes(path@).take(i + 1) == with_slashes(path@).take(i as int).push(
            with_slashes(path@)[i as int],
        ));
        i += 1;
    }
    assert(with_slashes(path@).take(i as int) == with_slashes(path@));
    uri
}

/// A path comes back from its URI with slashes for backslashes, if it is
/// rooted or begins with a drive letter. Left out are a path whose root is
/// followed by what looks like a drive letter, which comes back without its
/// root, and a relative path, which comes back rooted.
pub proof fn path_round_trip(path: Seq<char>)
    requires
        ({
            let slashed = with_slashes(path);
            ||| slashed.len() > 0 && slashed[0] == '/' && !drive_behind_slash(slashed)
            ||| slashed.len() > 1 && slashed[0] != '/' && slashed[1] == ':'
        }),
    ensures
        path_of_uri(uri_of_path(path)) == Some(with_slashes(path)),
{
    reveal_strlit("file://");
    reveal_strlit("file:///");
    let slashed = with_slashes(path);
    let uri = uri_of_path(path);
    assert("file://"@ == uri.subrange(0, 7));
    if slashed[0] == '/' {
        assert(uri.skip(7) == slashed);
    } else {
        assert(uri.skip(7) == seq!['/'] + slashed);
        assert(uri.skip(7).skip(1) == slashed);
    }
}

/// The URI of a path always names some path again.
pub proof fn uri_names_a_path(path: Seq<char>)
    ensures
        path_of_uri(uri_of_path(path)) is Some,
{
    reveal_strlit("file://");
    reveal_strlit("file:///");
    assert("file://"@ == uri_of_path(path).subrange(0, 7));
}

/// Behind `file://` stands the path, as it is, unless it is a slash before a
/// drive letter, which is left out. No other URI names a path.
pub proof fn paths_stand_behind_the_scheme(path: Seq<char>)
    ensures
        !(path.len() > 2 && path[0] == '/' && path[2] == ':') ==> path_of_uri("file://"@ + path)
            == Some(path),
        path.len() > 2 && path[0] == '/' && path[2] == ':' ==> path_of_uri("file://"@ + path)
            == Some(path.skip(1)),
        !"file://"@.is_prefix_of(path) ==> path_of_uri(path) is None,
{
    reveal_strlit("file://");
    let uri = "file://"@ + path;
    assert(uri.subrange(0, 7) == "file://"@);
    assert(uri.skip(7) == path);
}

/// The URI of a path is `file://` and the path with a slash for each backslash;
/// a path without a slash at its start gets one.
pub proof fn uris_spell_out_the_path(path: Seq<char>)
    ensures
        ({
            let rooted = path.len() > 0 && (path[0] == '/' || path[0] == '\\');
            let start = if rooted {
                "file://"@
            } else {
                "file:///"@
            };
            &&& uri_of_path(path).len() == start.len() + path.len()
            &&& start.is_prefix_of(uri_of_path(path))
            &&& forall|i: int|
                0 <= i < path.len() ==> uri_of_path(path)[start.len() + i] == if #[trigger] path[i]
                    == '\\' {
                    '/'
                } else {
                    path[i]
                }
        }),
{
    let rooted = path.len() > 0 && (path[0] == '/' || path[0] == '\\');
    let start = if rooted {
        "file://"@
    } else {
        "file:///"@
    };
    let uri = uri_of_path(path);
    if path.len() > 0 {
        assert(with_slashes(path)[0] == if path[0] == '\\' {
            '/'
        } else {
            path[0]
        });
    }
    assert(uri == start + with_slashes(path));
    assert(uri.subrange(0, start.len() as int) == start);
    assert forall|i: int| 0 <= i < path.len() implies uri[start.len() + i] == if #[trigger] path[i]
        == '\\' {
        '/'
    } else {
        path[i]
    } by {
        assert(uri[start.len() + i] == with_slashes(path)[i]);
    }
}

}
