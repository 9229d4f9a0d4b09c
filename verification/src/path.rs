//! Paths as text: their segments, and how one path continues another.
//!
//! A path is read as it is written. A segment is a name and nothing more:
//! `.` and `..` have no meaning of their own, and no link is followed.

use vstd::prelude::*;
use vstd::slice::slice_to_vec;
use vstd::string::StrSliceExecFns;
use vstd::string::StringExecFns;
use vstd::utf8::{decode_utf8, valid_utf8};
use crate::text::{lemma_split_around_separator, lemma_split_shape, push_char, split};

verus! {

broadcast use vstd::string::group_string_axioms;

/// The pieces of a path that name something: what stands between its
/// slashes, without the empty pieces.
pub open spec fn segments(path: Seq<char>) -> Seq<Seq<char>> {
    split(path, '/').filter(|piece: Seq<char>| piece.len() > 0)
}

/// Whether a path starts at the root.
pub open spec fn is_absolute(path: Seq<char>) -> bool {
    path.len() > 0 && path[0] == '/'
}

/// The path that `path` names when read from `base`: `path` itself where
/// it is absolute, else `base` continued by `path`, with a slash between
/// the two unless `base` is empty or ends in one.
pub open spec fn join_path(base: Seq<char>, path: Seq<char>) -> Seq<char> {
    if is_absolute(path) {
        path
    } else if base.len() == 0 || base.last() == '/' {
        base + path
    } else {
        base + seq!['/'] + path
    }
}

/// Joining goes segment by segment: a relative path adds its segments to
/// those of the base, and an absolute path keeps its own.
pub proof fn lemma_segments_of_join(base: Seq<char>, path: Seq<char>)
    ensures
        segments(join_path(base, path)) == if is_absolute(path) {
            segments(path)
        } else {
            segments(base) + segments(path)
        },
{
    let named = |piece: Seq<char>| piece.len() > 0;
    let empty = Seq::<char>::empty();
    assert(segments(empty) =~= Seq::<Seq<char>>::empty()) by {
        reveal_with_fuel(Seq::filter, 2);
    }
    if is_absolute(path) || base.len() == 0 {
    } else if base.last() == '/' {
        let front = base.drop_last();
        assert(base =~= front + seq!['/'] + empty);
        lemma_split_around_separator(front, path, '/');
        lemma_split_around_separator(front, empty, '/');
        Seq::filter_distributes_over_add(split(front, '/'), split(path, '/'), named);
        Seq::filter_distributes_over_add(split(front, '/'), split(empty, '/'), named);
    } else {
        lemma_split_around_separator(base, path, '/');
        Seq::filter_distributes_over_add(split(base, '/'), split(path, '/'), named);
    }
}

/// The texts of a list of strings.
pub open spec fn texts_of(parts: Seq<String>) -> Seq<Seq<char>> {
    Seq::new(parts.len(), |i: int| parts[i]@)
}

/// Splits a path into its segments.
pub fn path_segments(path: &str) -> (parts: Vec<String>)
    ensures
        texts_of(parts@) == segments(path@),
{
    let ghost named = |piece: Seq<char>| piece.len() > 0;
    let mut parts: Vec<String> = Vec::new();
    let mut current = String::new();
    proof {
        reveal(Seq::filter);
    }
    let chars = path.chars();
    for ch in it: chars
        invariant
            it.seq() == path@,
            named == |piece: Seq<char>| piece.len() > 0,
            texts_of(parts@) == split(path@.take(it.index()), '/').drop_last().filter(named),
            current@ == split(path@.take(it.index()), '/').last(),
    {
        let ghost before = split(path@.take(it.index()), '/');
        let ghost after = split(path@.take(it.index() + 1), '/');
        proof {
            reveal(Seq::filter);
            lemma_split_shape(path@.take(it.index()), '/');
            assert(path@.take(it.index() + 1).drop_last() =~= path@.take(it.index()));
        }
        if ch == '/' {
            assert(after.drop_last() =~= before);
            if current.unicode_len() > 0 {
                parts.push(current);
            }
            current = String::new();
        } else {
            push_char(&mut current, ch);
            assert(after.drop_last() =~= before.drop_last());
        }
    }
    proof {
        reveal(Seq::filter);
        lemma_split_shape(path@, '/');
        assert(path@.take(path@.len() as int) =~= path@);
    }
    if current.unicode_len() > 0 {
        parts.push(current);
    }
    parts
}

/// Reads `path` from `base`.
pub fn join_paths(base: &str, path: &str) -> (joined: String)
    ensures
        joined@ == join_path(base@, path@),
{
    if path.unicode_len() > 0 && path.get_char(0) == '/' {
        return String::from_str(path);
    }
    let mut joined = String::from_str(base);
    let n: usize = base.unicode_len();
    if n > 0 && base.get_char(n - 1) != '/' {
        push_char(&mut joined, '/');
    }
    joined.append(path);
    joined
}

/// Why bytes are no path.
#[derive(Debug, PartialEq, Eq)]
pub enum PathError {
    /// The bytes are no text: they are not UTF-8. The error holds them.
    NotText(Vec<u8>),
}

/// Reads bytes as text.
///
/// Stands for `std::str::from_utf8`, which gives the string slice that the
/// bytes encode where they are valid UTF-8, and an error where they are
/// not.
#[verifier::external_body]
fn text_of_bytes(bytes: &[u8]) -> (text: Option<&str>)
    ensures
        match text {
            Some(text) => valid_utf8(bytes@) && text@ == decode_utf8(bytes@),
            None => !valid_utf8(bytes@),
        },
{
    std::str::from_utf8(bytes).ok()
}

/// The path that the bytes spell. Bytes that are no text are no path:
/// they are handed back in the error, and nothing is put in their place.
pub fn path_from_bytes(bytes: &[u8]) -> (result: Result<String, PathError>)
    ensures
        match result {
            Ok(path) => valid_utf8(bytes@) && path@ == decode_utf8(bytes@),
            Err(PathError::NotText(rejected)) => !valid_utf8(bytes@) && rejected@ == bytes@,
        },
{
    match text_of_bytes(bytes) {
        Some(text) => Ok(String::from_str(text)),
        None => Err(PathError::NotText(slice_to_vec(bytes))),
    }
}

} // verus!
