//! Platform-neutral mapping between virtual paths and object keys.
//!
//! A drive reports backslash-separated virtual paths; the storage service
//! expects slash-separated keys. These functions translate back and forth.

use vstd::prelude::*;

use crate::text::{is_blank_text, join_parts, named_segments};
#[allow(unused_imports)]
use crate::text::{
    free_of, is_blank, is_named, join, key_separators, last_nonempty, lemma_blank_is_one_piece,
    lemma_join_of_split, lemma_join_of_split_len, lemma_named_only_joins_shorter,
    lemma_pieces_are_free, lemma_segments_are_named, lemma_segments_at_separator,
    lemma_segments_of_join, lemma_segments_of_named, lemma_segments_of_named_only,
    lemma_split_at_separator, lemma_split_free, path_separators, segments, split, white_space,
};

verus! {

/// The key that a virtual path stands for: its named segments joined by
/// slashes. The root and every path with a `..` segment stand for no key.
pub open spec fn key_of_path(path: Seq<char>) -> Option<Seq<char>> {
    let parts = segments(path, path_separators());
    if parts.len() == 0 || parts.contains(seq!['.', '.']) {
        None
    } else {
        Some(join(parts, seq!['/']))
    }
}

/// A path is the root when it is blank or no segment of it names anything.
pub open spec fn is_root(path: Seq<char>) -> bool {
    is_blank(path) || segments(path, path_separators()).len() == 0
}

/// The virtual path of a key: a backslash before each named segment, and a
/// single backslash where the key has none.
pub open spec fn path_of_key(key: Seq<char>) -> Seq<char> {
    seq!['\\'] + join(segments(key, key_separators()), seq!['\\'])
}

/// The base name of a key: its last segment that is not empty.
pub open spec fn base_name(key: Seq<char>) -> Seq<char> {
    last_nonempty(split(key, key_separators()))
}

/// A key in the form that paths are mapped to.
pub open spec fn is_canonical_key(key: Seq<char>) -> bool {
    key_of_path(key) == Some(key)
}

/// Convert a virtual path to an object key.
///
/// Accepts `\`, `/`, or mixed separators:
/// - `\photos\a.jpg`, `/photos/a.jpg` and `photos/a.jpg` all map to
///   `Some("photos/a.jpg")`
/// - the root (`\`, `/`, `""`) maps to `None`
/// - `.` segments are ignored; paths containing `..` map to `None` so a
///   handle can never escape the bucket namespace.
pub fn s3_key_from_win_path(path: &str) -> (key: Option<String>)
    ensures
        key.deep_view() == key_of_path(path@),
{
    let parts = named_segments(path, true);
    let dotdot: String = "..".to_owned();
    proof {
        reveal_strlit("..");
        reveal_strlit("/");
        assert(dotdot@ =~= seq!['.', '.']);
        assert("/"@ =~= seq!['/']);
    }
    let n: usize = parts.len();
    if n == 0 {
        return None;
    }
    for i in 0..n
        invariant
            n == parts.len(),
            dotdot@ == seq!['.', '.'],
            parts.deep_view() == segments(path@, path_separators()),
            forall|j: int| 0 <= j < i ==> parts.deep_view()[j] != seq!['.', '.'],
    {
        if parts[i] == dotdot {
            proof {
                assert(parts.deep_view()[i as int] == seq!['.', '.']);
            }
            return None;
        }
    }
    Some(join_parts(&parts, "/"))
}

/// Convert an object key back to a virtual path.
///
/// - `"photos/a.jpg"` maps to `"\photos\a.jpg"`
/// - the empty key maps to the root `"\"`.
pub fn win_path_from_s3_key(key: &str) -> (path: String)
    ensures
        path@ == path_of_key(key@),
{
    let parts = named_segments(key, false);
    proof {
        reveal_strlit("\\");
        assert("\\"@ =~= seq!['\\']);
    }
    let mut path: String = "\\".to_owned();
    path.append(join_parts(&parts, "\\").as_str());
    path
}

/// Returns true for the filesystem root (`\`, `/`, or empty/blank), however
/// many separators and `.` segments it is written with.
pub fn is_root_path(path: &str) -> (root: bool)
    ensures
        root == is_root(path@),
{
    is_blank_text(path) || named_segments(path, true).len() == 0
}

/// Base name of an object key (`"a/b/c.txt"` -> `"c.txt"`).
///
/// Trailing slashes are ignored (`"a/b/"` -> `"b"`); an empty key yields `""`.
pub fn file_name_from_key(key: &str) -> (name: &str)
    ensures
        name@ == base_name(key@),
{
    let mut pos: usize = 0;
    let mut piece_start: usize = 0;
    let mut name_start: usize = 0;
    let mut name_end: usize = 0;
    let n: usize = key.unicode_len();
    proof {
        let none = split(key@.take(0), key_separators());
        assert(none =~= seq![Seq::<char>::empty()]);
        assert(none.drop_last() =~= Seq::<Seq<char>>::empty());
        assert(last_nonempty(none.drop_last()) =~= Seq::<char>::empty());
    }
    for c in it: key.chars()
        invariant
            it.seq() == key@,
            n == key@.len(),
            pos == it.index(),
            piece_start <= pos <= n,
            name_start <= name_end <= pos,
            split(key@.take(pos as int), key_separators()).len() > 0,
            split(key@.take(pos as int), key_separators()).last() == key@.subrange(
                piece_start as int,
                pos as int,
            ),
            last_nonempty(split(key@.take(pos as int), key_separators())) == key@.subrange(
                name_start as int,
                name_end as int,
            ),
    {
        let ghost before = split(key@.take(pos as int), key_separators());
        let ghost after = split(key@.take(pos + 1), key_separators());
        proof {
            assert(key@.take(pos + 1).drop_last() =~= key@.take(pos as int));
            assert(key@.take(pos + 1).last() == c);
        }
        pos = pos + 1;
        if c == '/' {
            piece_start = pos;
            proof {
                assert(after.drop_last() =~= before);
                assert(after.last() =~= key@.subrange(piece_start as int, pos as int));
            }
        } else {
            name_start = piece_start;
            name_end = pos;
            proof {
                assert(after.last() =~= key@.subrange(piece_start as int, pos as int));
            }
        }
    }
    proof {
        assert(key@.take(n as int) =~= key@);
    }
    key.substring_char(name_start, name_end)
}

/// A path that is not blank, or is empty, maps to no key exactly when it is
/// the root or has a `..` segment.
pub proof fn law_no_key_iff_root_or_dotdot(path: Seq<char>)
    requires
        !is_blank(path) || path.len() == 0,
    ensures
        key_of_path(path) is None <==> is_root(path) || segments(path, path_separators()).contains(
            seq!['.', '.'],
        ),
{
    if path.len() == 0 {
        lemma_blank_is_one_piece(path);
    }
}

/// A separator keeps a path from being blank.
pub proof fn lemma_separator_is_not_blank(before: Seq<char>, c: char, after: Seq<char>)
    requires
        path_separators().contains(c),
    ensures
        !is_blank(before.push(c) + after),
{
    assert((before.push(c) + after)[before.len() as int] == c);
    assert(!white_space(c));
}

/// A `..` segment keeps a path from being the root.
pub proof fn lemma_dotdot_is_not_root(path: Seq<char>)
    requires
        segments(path, path_separators()).contains(seq!['.', '.']),
    ensures
        !is_root(path),
{
    if is_blank(path) {
        lemma_blank_is_one_piece(path);
        assert(path == seq!['.', '.']);
        assert(white_space(path[0]));
    }
}

/// A `..` between separators, wherever it stands, leaves a path without a key.
pub proof fn law_dotdot_is_rejected(before: Seq<char>, c: char, d: char, after: Seq<char>)
    requires
        path_separators().contains(c),
        path_separators().contains(d),
    ensures
        key_of_path(before.push(c) + seq!['.', '.'].push(d) + after) is None,
{
    let seps = path_separators();
    let up = seq!['.', '.'];
    let tail = up.push(d) + after;
    lemma_segments_at_separator(before, c, tail, seps);
    lemma_segments_at_separator(up, d, after, seps);
    lemma_split_free(up, seps);
    assert(before.push(c) + up.push(d) + after =~= before.push(c) + tail);
    let head = segments(before, seps);
    let parts = segments(before.push(c) + tail, seps);
    assert(parts[head.len() as int] == up);
    assert(parts.contains(up));
}

/// A `.` between separators, wherever it stands, does not change the key.
pub proof fn law_dot_segments_are_ignored(before: Seq<char>, c: char, d: char, after: Seq<char>)
    requires
        path_separators().contains(c),
        path_separators().contains(d),
    ensures
        key_of_path(before.push(c) + seq!['.'].push(d) + after) == key_of_path(
            before.push(c) + after,
        ),
        is_root(before.push(c) + seq!['.'].push(d) + after) == is_root(before.push(c) + after),
{
    let seps = path_separators();
    let dot = seq!['.'];
    let tail = dot.push(d) + after;
    lemma_segments_at_separator(before, c, tail, seps);
    lemma_segments_at_separator(dot, d, after, seps);
    lemma_segments_at_separator(before, c, after, seps);
    lemma_split_free(dot, seps);
    assert(before.push(c) + dot.push(d) + after =~= before.push(c) + tail);
    assert(segments(tail, seps) =~= segments(after, seps));
    lemma_separator_is_not_blank(before, c, tail);
    lemma_separator_is_not_blank(before, c, after);
}

/// Separators before, after and repeated within a path do not change the key.
pub proof fn law_extra_separators_are_ignored(before: Seq<char>, c: char, d: char, after: Seq<char>)
    requires
        path_separators().contains(c),
        path_separators().contains(d),
    ensures
        key_of_path(seq![c] + before) == key_of_path(before),
        key_of_path(before.push(c)) == key_of_path(before),
        key_of_path(before.push(c).push(d) + after) == key_of_path(before.push(c) + after),
{
    let seps = path_separators();
    let none = Seq::<char>::empty();
    lemma_split_free(none, seps);
    lemma_segments_at_separator(none, c, before, seps);
    assert(none.push(c) + before =~= seq![c] + before);
    assert(segments(seq![c] + before, seps) =~= segments(before, seps));
    lemma_segments_at_separator(before, c, none, seps);
    assert(before.push(c) + none =~= before.push(c));
    assert(segments(before.push(c), seps) =~= segments(before, seps));
    lemma_segments_at_separator(before.push(c), d, after, seps);
    lemma_segments_at_separator(before, c, after, seps);
    assert(segments(before.push(c).push(d) + after, seps) =~= segments(
        before.push(c) + after,
        seps,
    ));
}

/// A path below the root is the path itself: joining it to a spelling of the
/// root that is not blank, or is empty, changes neither its key nor its
/// segments.
pub proof fn law_joining_to_the_root(root: Seq<char>, c: char, path: Seq<char>)
    requires
        is_root(root),
        !is_blank(root) || root.len() == 0,
        path_separators().contains(c),
    ensures
        key_of_path(root.push(c) + path) == key_of_path(path),
        segments(root.push(c) + path, path_separators()) == segments(path, path_separators()),
{
    let seps = path_separators();
    if root.len() == 0 {
        lemma_blank_is_one_piece(root);
    }
    lemma_segments_at_separator(root, c, path, seps);
    assert(segments(root.push(c) + path, seps) =~= segments(path, seps));
}

/// `path` with every backslash written as a slash.
pub open spec fn slashed(path: Seq<char>) -> Seq<char> {
    Seq::new(
        path.len(),
        |i: int|
            if path[i] == '\\' {
                '/'
            } else {
                path[i]
            },
    )
}

proof fn lemma_slashed_split(path: Seq<char>)
    ensures
        split(slashed(path), path_separators()) == split(path, path_separators()),
    decreases path.len(),
{
    if path.len() > 0 {
        lemma_slashed_split(path.drop_last());
        assert(slashed(path).drop_last() =~= slashed(path.drop_last()));
    }
}

/// The two separators are interchangeable: writing slashes for backslashes
/// changes neither the key nor whether the path is the root.
pub proof fn law_separators_are_interchangeable(path: Seq<char>)
    ensures
        key_of_path(slashed(path)) == key_of_path(path),
        is_root(slashed(path)) == is_root(path),
{
    lemma_slashed_split(path);
    let other = slashed(path);
    assert forall|i: int| 0 <= i < path.len() implies white_space(#[trigger] path[i])
        == white_space(other[i]) by {}
    if is_blank(path) {
        assert forall|i: int| 0 <= i < other.len() implies white_space(#[trigger] other[i]) by {
            assert(white_space(path[i]));
        }
    }
    if is_blank(other) {
        assert forall|i: int| 0 <= i < path.len() implies white_space(#[trigger] path[i]) by {
            assert(white_space(other[i]));
        }
    }
}

/// What a path maps to is in canonical form: mapping it again changes
/// nothing, it is no longer than the path and holds no backslash, and no
/// segment of it is empty, `.` or `..`.
pub proof fn law_keys_are_canonical(path: Seq<char>)
    ensures
        key_of_path(path) matches Some(key) ==> {
            &&& is_canonical_key(key)
            &&& 0 < key.len() <= path.len()
            &&& !key.contains('\\')
            &&& split(key, key_separators()) == segments(path, path_separators())
            &&& forall|i: int|
                0 <= i < split(key, key_separators()).len() ==> is_named(
                    #[trigger] split(key, key_separators())[i],
                ) && split(key, key_separators())[i] != seq!['.', '.']
        },
{
    if let Some(key) = key_of_path(path) {
        let seps = path_separators();
        let parts = segments(path, seps);
        lemma_segments_are_named(path, seps);
        lemma_segments_of_join(parts, '/', seps);
        lemma_segments_of_named(parts, seps);
        lemma_split_of_join(parts);
        lemma_join_holds_no_backslash(parts);
        lemma_named_only_joins_shorter(split(path, seps), seq!['/']);
        lemma_join_of_split_len(path, seps, '/');
        assert forall|i: int| 0 <= i < parts.len() implies #[trigger] parts[i] != seq!['.', '.'] by {
            if parts[i] == seq!['.', '.'] {
                assert(parts.contains(seq!['.', '.']));
            }
        }
        assert(is_named(parts[0]));
        if key.len() == 0 {
            assert(key =~= Seq::empty());
            lemma_split_free(key, key_separators());
            assert(split(key, key_separators())[0] == parts[0]);
        }
    }
}

proof fn lemma_split_of_join(parts: Seq<Seq<char>>)
    requires
        parts.len() > 0,
        forall|i: int| 0 <= i < parts.len() ==> free_of(#[trigger] parts[i], path_separators()),
    ensures
        split(join(parts, seq!['/']), key_separators()) == parts,
    decreases parts.len(),
{
    let seps = key_separators();
    let last = parts.last();
    assert(free_of(parts[parts.len() - 1], path_separators()));
    assert(free_of(last, seps)) by {
        assert forall|i: int| 0 <= i < last.len() implies !seps.contains(#[trigger] last[i]) by {
            assert(!path_separators().contains(last[i]));
        }
    }
    lemma_split_free(last, seps);
    if parts.len() == 1 {
        assert(parts =~= seq![last]);
    } else {
        let rest = parts.drop_last();
        assert forall|i: int| 0 <= i < rest.len() implies free_of(
            #[trigger] rest[i],
            path_separators(),
        ) by {
            assert(rest[i] == parts[i]);
        }
        lemma_split_of_join(rest);
        let front = join(rest, seq!['/']);
        lemma_split_at_separator(front, '/', last, seps);
        assert(front + seq!['/'] + last =~= front.push('/') + last);
        assert(rest + seq![last] =~= parts);
    }
}

proof fn lemma_join_holds_no_backslash(parts: Seq<Seq<char>>)
    requires
        forall|i: int| 0 <= i < parts.len() ==> free_of(#[trigger] parts[i], path_separators()),
    ensures
        !join(parts, seq!['/']).contains('\\'),
    decreases parts.len(),
{
    let whole = join(parts, seq!['/']);
    if parts.len() > 0 {
        let rest = parts.drop_last();
        assert(free_of(parts[parts.len() - 1], path_separators()));
        assert forall|i: int| 0 <= i < rest.len() implies free_of(
            #[trigger] rest[i],
            path_separators(),
        ) by {
            assert(rest[i] == parts[i]);
        }
        lemma_join_holds_no_backslash(rest);
        let front = join(rest, seq!['/']);
        assert forall|i: int| 0 <= i < whole.len() implies #[trigger] whole[i] != '\\' by {
            if parts.len() == 1 {
                assert(!path_separators().contains(parts[0][i]));
            } else if i < front.len() {
                assert(whole[i] == front[i]);
                assert(front.contains(front[i]));
            } else if i > front.len() {
                assert(whole[i] == parts.last()[i - front.len() - 1]);
                assert(!path_separators().contains(parts.last()[i - front.len() - 1]));
            }
        }
    }
}

/// Going from a key to its path and back gives the key that the key itself
/// maps to; a canonical key comes back as it was. The path is the root
/// exactly when the key, not being blank, is.
pub proof fn law_key_roundtrip(key: Seq<char>)
    ensures
        key_of_path(path_of_key(key)) == key_of_path(key),
        !is_blank(key) || key.len() == 0 ==> is_root(path_of_key(key)) == is_root(key),
        is_canonical_key(key) ==> key_of_path(path_of_key(key)) == Some(key) && !is_root(
            path_of_key(key),
        ),
{
    let seps = path_separators();
    let pieces = split(key, key_separators());
    let parts = segments(key, key_separators());
    let none = Seq::<char>::empty();
    let joined = join(parts, seq!['\\']);
    lemma_split_free(none, seps);
    lemma_segments_at_separator(none, '\\', joined, seps);
    assert(none.push('\\') + joined =~= path_of_key(key));
    assert(segments(path_of_key(key), seps) =~= segments(joined, seps));
    lemma_segments_of_join(parts, '\\', seps);
    lemma_segments_of_named_only(pieces, seps);
    lemma_join_of_split(key, '/');
    lemma_segments_of_join(pieces, '/', seps);
    lemma_separator_is_not_blank(none, '\\', joined);
    if key.len() == 0 {
        lemma_blank_is_one_piece(key);
    }
}

/// A base name holds no slash, and slashes after a key do not change it.
pub proof fn law_base_name(key: Seq<char>)
    ensures
        !base_name(key).contains('/'),
        base_name(key.push('/')) == base_name(key),
        !key.contains('/') ==> base_name(key) == key,
{
    let seps = key_separators();
    lemma_pieces_are_free(key, seps);
    lemma_last_nonempty_is_free(split(key, seps), seps);
    assert(key.push('/').drop_last() =~= key);
    assert(split(key.push('/'), seps).drop_last() =~= split(key, seps));
    if !key.contains('/') {
        assert forall|i: int| 0 <= i < key.len() implies !seps.contains(#[trigger] key[i]) by {
            assert(key.contains(key[i]));
        }
        lemma_split_free(key, seps);
        assert(split(key, seps).drop_last() =~= Seq::<Seq<char>>::empty());
        assert(last_nonempty(split(key, seps).drop_last()) =~= Seq::<char>::empty());
        assert(base_name(key) =~= key);
    }
}

proof fn lemma_last_nonempty_is_free(pieces: Seq<Seq<char>>, seps: Set<char>)
    requires
        forall|i: int| 0 <= i < pieces.len() ==> free_of(#[trigger] pieces[i], seps),
        seps.contains('/'),
    ensures
        !last_nonempty(pieces).contains('/'),
    decreases pieces.len(),
{
    if pieces.len() > 0 {
        if pieces.last().len() > 0 {
            let last = pieces[pieces.len() - 1];
            assert(free_of(last, seps));
            assert forall|i: int| 0 <= i < last.len() implies #[trigger] last[i] != '/' by {
                assert(!seps.contains(last[i]));
            }
        } else {
            let front = pieces.drop_last();
            assert forall|i: int| 0 <= i < front.len() implies free_of(#[trigger] front[i], seps) by {
                assert(front[i] == pieces[i]);
            }
            lemma_last_nonempty_is_free(front, seps);
        }
    }
}

/// What can be a segment of a key: any text but the empty one, `.` and `..`
/// that holds no separator.
pub open spec fn is_name(name: Seq<char>) -> bool {
    &&& name.len() > 0
    &&& name != seq!['.']
    &&& name != seq!['.', '.']
    &&& forall|i: int| 0 <= i < name.len() ==> #[trigger] name[i] != '/' && name[i] != '\\'
}

/// Names joined by either separator, below the root or not, stand for the
/// names joined by slashes: no name is dropped, changed or refused.
pub proof fn law_key_of_names(names: Seq<Seq<char>>, c: char)
    requires
        names.len() > 0,
        forall|i: int| 0 <= i < names.len() ==> is_name(#[trigger] names[i]),
        c == '/' || c == '\\',
    ensures
        key_of_path(join(names, seq![c])) == Some(join(names, seq!['/'])),
        key_of_path(seq![c] + join(names, seq![c])) == Some(join(names, seq!['/'])),
        !is_root(seq![c] + join(names, seq![c])),
{
    let seps = path_separators();
    assert forall|i: int| 0 <= i < names.len() implies is_named(#[trigger] names[i]) && free_of(
        names[i],
        seps,
    ) by {
        assert(is_name(names[i]));
        assert forall|j: int| 0 <= j < names[i].len() implies !seps.contains(
            #[trigger] names[i][j],
        ) by {}
    }
    lemma_segments_of_join(names, c, seps);
    lemma_segments_of_named(names, seps);
    assert(!names.contains(seq!['.', '.'])) by {
        if names.contains(seq!['.', '.']) {
            let i = names.index_of(seq!['.', '.']);
            assert(is_name(names[i]));
        }
    }
    let path = join(names, seq![c]);
    law_extra_separators_are_ignored(path, c, c, Seq::empty());
    lemma_split_free(Seq::empty(), seps);
    lemma_segments_at_separator(Seq::empty(), c, path, seps);
    lemma_separator_is_not_blank(Seq::empty(), c, path);
    assert(Seq::empty().push(c) + path =~= seq![c] + path);
}

/// Names joined by slashes have the path of the names with a backslash before
/// each: no name is dropped or changed. A name of a key may hold backslashes.
pub proof fn law_path_of_names(names: Seq<Seq<char>>)
    requires
        forall|i: int|
            0 <= i < names.len() ==> (#[trigger] names[i]).len() > 0 && names[i] != seq!['.']
                && !names[i].contains('/'),
    ensures
        path_of_key(join(names, seq!['/'])) == seq!['\\'] + join(names, seq!['\\']),
{
    let seps = key_separators();
    assert forall|i: int| 0 <= i < names.len() implies is_named(#[trigger] names[i]) && free_of(
        names[i],
        seps,
    ) by {
        assert forall|j: int| 0 <= j < names[i].len() implies !seps.contains(
            #[trigger] names[i][j],
        ) by {
            assert(names[i].contains(names[i][j]));
        }
    }
    lemma_segments_of_join(names, '/', seps);
    lemma_segments_of_named(names, seps);
}

/// Slashes before, after and repeated within a key, and `.` between slashes,
/// do not change its path.
pub proof fn law_path_ignores_what_names_nothing(before: Seq<char>, after: Seq<char>)
    ensures
        path_of_key(seq!['/'] + before) == path_of_key(before),
        path_of_key(before.push('/')) == path_of_key(before),
        path_of_key(before.push('/').push('/') + after) == path_of_key(before.push('/') + after),
        path_of_key(before.push('/') + seq!['.'].push('/') + after) == path_of_key(
            before.push('/') + after,
        ),
{
    let seps = key_separators();
    let none = Seq::<char>::empty();
    let dot = seq!['.'];
    let tail = dot.push('/') + after;
    lemma_split_free(none, seps);
    lemma_split_free(dot, seps);
    lemma_segments_at_separator(none, '/', before, seps);
    assert(none.push('/') + before =~= seq!['/'] + before);
    assert(segments(seq!['/'] + before, seps) =~= segments(before, seps));
    lemma_segments_at_separator(before, '/', none, seps);
    assert(before.push('/') + none =~= before.push('/'));
    assert(segments(before.push('/'), seps) =~= segments(before, seps));
    lemma_segments_at_separator(before.push('/'), '/', after, seps);
    lemma_segments_at_separator(before, '/', after, seps);
    assert(segments(before.push('/').push('/') + after, seps) =~= segments(
        before.push('/') + after,
        seps,
    ));
    lemma_segments_at_separator(before, '/', tail, seps);
    lemma_segments_at_separator(dot, '/', after, seps);
    assert(before.push('/') + dot.push('/') + after =~= before.push('/') + tail);
    assert(segments(tail, seps) =~= segments(after, seps));
}

/// The character at `i` is a separator, or a dot on its own between them.
pub open spec fn names_nothing_at(path: Seq<char>, i: int) -> bool {
    ||| path[i] == '/' || path[i] == '\\'
    ||| {
        &&& path[i] == '.'
        &&& i == 0 || path[i - 1] == '/' || path[i - 1] == '\\'
        &&& i == path.len() - 1 || path[i + 1] == '/' || path[i + 1] == '\\'
    }
}

/// The spellings of the root: nothing but white space, or nothing but
/// separators and single dots between them.
pub proof fn law_root_spellings(path: Seq<char>)
    ensures
        is_root(path) <==> (forall|i: int| 0 <= i < path.len() ==> white_space(#[trigger] path[i]))
            || (forall|i: int| 0 <= i < path.len() ==> #[trigger] names_nothing_at(path, i)),
{
    lemma_no_segments(path);
}

proof fn lemma_no_segments(path: Seq<char>)
    ensures
        segments(path, path_separators()).len() == 0 <==> (forall|i: int|
            0 <= i < path.len() ==> #[trigger] names_nothing_at(path, i)),
    decreases path.len(),
{
    let seps = path_separators();
    if free_of(path, seps) {
        lemma_split_free(path, seps);
        assert forall|i: int| 0 <= i < path.len() implies path[i] != '/' && path[i] != '\\' by {
            assert(!seps.contains(path[i]));
        }
        if path == seq!['.'] {
            assert(names_nothing_at(path, 0));
        } else if path.len() == 1 {
            assert(path =~= seq![path[0]]);
            assert(!names_nothing_at(path, 0));
        } else if path.len() > 1 {
            assert(!names_nothing_at(path, 0));
        }
    } else {
        let k = choose|k: int| 0 <= k < path.len() && seps.contains(#[trigger] path[k]);
        let a = path.take(k);
        let b = path.skip(k + 1);
        assert(a.push(path[k]) + b =~= path);
        lemma_segments_at_separator(a, path[k], b, seps);
        lemma_no_segments(a);
        lemma_no_segments(b);
        assert forall|i: int| 0 <= i < a.len() implies names_nothing_at(a, i)
            == #[trigger] names_nothing_at(path, i) by {
            assert(a[i] == path[i]);
        }
        assert forall|i: int| 0 <= i < b.len() implies #[trigger] names_nothing_at(b, i)
            == names_nothing_at(path, i + k + 1) by {
            assert(b[i] == path[i + k + 1]);
        }
        if forall|i: int| 0 <= i < path.len() ==> #[trigger] names_nothing_at(path, i) {
            assert forall|i: int| 0 <= i < a.len() implies #[trigger] names_nothing_at(a, i) by {
                assert(names_nothing_at(path, i));
            }
            assert forall|i: int| 0 <= i < b.len() implies #[trigger] names_nothing_at(b, i) by {
                assert(names_nothing_at(path, i + k + 1));
            }
        }
        if (forall|i: int| 0 <= i < a.len() ==> #[trigger] names_nothing_at(a, i)) && (forall|
            i: int,
        |
            0 <= i < b.len() ==> #[trigger] names_nothing_at(b, i)) {
            assert forall|i: int| 0 <= i < path.len() implies #[trigger] names_nothing_at(
                path,
                i,
            ) by {
                if i < k {
                    assert(names_nothing_at(a, i));
                } else if i > k {
                    assert(names_nothing_at(b, i - k - 1));
                }
            }
        }
    }
}

/// The base name is what stands behind the last slash.
pub proof fn law_base_name_is_behind_the_last_slash(front: Seq<char>, name: Seq<char>)
    requires
        name.len() > 0,
        !name.contains('/'),
    ensures
        base_name(front.push('/') + name) == name,
        base_name(name) == name,
        base_name(Seq::empty()) == Seq::<char>::empty(),
{
    let seps = key_separators();
    assert forall|i: int| 0 <= i < name.len() implies !seps.contains(#[trigger] name[i]) by {
        assert(name.contains(name[i]));
    }
    lemma_split_free(name, seps);
    lemma_split_at_separator(front, '/', name, seps);
    assert(split(front.push('/') + name, seps).last() == name);
    law_base_name(Seq::empty());
}

} // verus!
