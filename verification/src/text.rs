//! Splitting and joining of text, shared by paths, keys and bucket names.

use vstd::prelude::*;

verus! {

/// `String::push` appends one character and leaves what was there before it.
pub assume_specification[ String::push ](s: &mut String, ch: char)
    ensures
        final(s)@ == old(s)@.push(ch),
;

/// The characters that separate the parts of a virtual path.
pub open spec fn path_separators() -> Set<char> {
    set!['/', '\\']
}

/// The character that separates the parts of an object key.
pub open spec fn key_separators() -> Set<char> {
    set!['/']
}

/// A white space character.
pub open spec fn white_space(c: char) -> bool {
    let n = c as u32;
    ||| 0x9 <= n <= 0xD
    ||| n == 0x20
    ||| n == 0x85
    ||| n == 0xA0
    ||| n == 0x1680
    ||| 0x2000 <= n <= 0x200A
    ||| n == 0x2028
    ||| n == 0x2029
    ||| n == 0x202F
    ||| n == 0x205F
    ||| n == 0x3000
}

/// Nothing but white space, or nothing at all.
pub open spec fn is_blank(s: Seq<char>) -> bool {
    forall|i: int| 0 <= i < s.len() ==> white_space(#[trigger] s[i])
}

/// The pieces of `s` between the characters of `seps`: one piece more than
/// `s` has separators, each piece possibly empty.
pub open spec fn split(s: Seq<char>, seps: Set<char>) -> Seq<Seq<char>>
    decreases s.len(),
{
    if s.len() == 0 {
        seq![Seq::empty()]
    } else {
        let front = split(s.drop_last(), seps);
        if seps.contains(s.last()) {
            front.push(Seq::empty())
        } else {
            front.drop_last().push(front.last().push(s.last()))
        }
    }
}

/// A piece that names something: neither empty nor the current directory.
pub open spec fn is_named(piece: Seq<char>) -> bool {
    piece.len() > 0 && piece != seq!['.']
}

/// The pieces that name something, in their order.
pub open spec fn named_only(pieces: Seq<Seq<char>>) -> Seq<Seq<char>>
    decreases pieces.len(),
{
    if pieces.len() == 0 {
        Seq::empty()
    } else if is_named(pieces.last()) {
        named_only(pieces.drop_last()).push(pieces.last())
    } else {
        named_only(pieces.drop_last())
    }
}

/// The named pieces of `s` between the characters of `seps`.
pub open spec fn segments(s: Seq<char>, seps: Set<char>) -> Seq<Seq<char>> {
    named_only(split(s, seps))
}

/// `parts` with one `sep` between neighbours.
pub open spec fn join(parts: Seq<Seq<char>>, sep: Seq<char>) -> Seq<char>
    decreases parts.len(),
{
    if parts.len() == 0 {
        Seq::empty()
    } else if parts.len() == 1 {
        parts[0]
    } else {
        join(parts.drop_last(), sep) + sep + parts.last()
    }
}

/// The last piece that is not empty; empty where there is none.
pub open spec fn last_nonempty(pieces: Seq<Seq<char>>) -> Seq<char>
    decreases pieces.len(),
{
    if pieces.len() == 0 {
        Seq::empty()
    } else if pieces.last().len() > 0 {
        pieces.last()
    } else {
        last_nonempty(pieces.drop_last())
    }
}

pub proof fn lemma_split_nonempty(s: Seq<char>, seps: Set<char>)
    ensures
        split(s, seps).len() > 0,
    decreases s.len(),
{
    if s.len() > 0 {
        lemma_split_nonempty(s.drop_last(), seps);
    }
}

/// Whether `text` holds the character `wanted`.
pub fn contains_char(text: &str, wanted: char) -> (found: bool)
    ensures
        found == text@.contains(wanted),
{
    for c in it: text.chars()
        invariant
            it.seq() == text@,
            forall|j: int| 0 <= j < it.index() ==> text@[j] != wanted,
    {
        if c == wanted {
            proof {
                assert(text@[it.index() as int] == wanted);
            }
            return true;
        }
    }
    false
}

/// Whether `c` is white space.
pub fn is_white_space(c: char) -> (white: bool)
    ensures
        white == white_space(c),
{
    let n: u32 = c as u32;
    (0x9 <= n && n <= 0xD) || n == 0x20 || n == 0x85 || n == 0xA0 || n == 0x1680 || (0x2000 <= n
        && n <= 0x200A) || n == 0x2028 || n == 0x2029 || n == 0x202F || n == 0x205F || n == 0x3000
}

/// Whether `text` holds nothing but white space.
pub fn is_blank_text(text: &str) -> (blank: bool)
    ensures
        blank == is_blank(text@),
{
    for c in it: text.chars()
        invariant
            it.seq() == text@,
            forall|j: int| 0 <= j < it.index() ==> white_space(#[trigger] text@[j]),
    {
        if !is_white_space(c) {
            proof {
                assert(!white_space(text@[it.index() as int]));
            }
            return false;
        }
    }
    true
}

/// Whether `text` begins with `prefix`.
pub fn starts_with(text: &str, prefix: &str) -> (begins: bool)
    ensures
        begins == prefix@.is_prefix_of(text@),
{
    let n: usize = prefix.unicode_len();
    if text.unicode_len() < n {
        return false;
    }
    for i in 0..n
        invariant
            n == prefix@.len(),
            n <= text@.len(),
            forall|j: int| 0 <= j < i ==> text@[j] == prefix@[j],
    {
        if text.get_char(i) != prefix.get_char(i) {
            proof {
                assert(text@.subrange(0, n as int)[i as int] != prefix@[i as int]);
            }
            return false;
        }
    }
    proof {
        assert(prefix@ =~= text@.subrange(0, n as int));
    }
    true
}

/// The named parts of `text` between slashes and, where `backslash` is set,
/// backslashes too.
pub fn named_segments(text: &str, backslash: bool) -> (parts: Vec<String>)
    ensures
        parts.deep_view() == segments(
            text@,
            if backslash {
                path_separators()
            } else {
                key_separators()
            },
        ),
{
    let ghost seps = if backslash {
        path_separators()
    } else {
        key_separators()
    };
    let dot: String = ".".to_owned();
    let mut parts: Vec<String> = Vec::new();
    let mut piece: String = String::new();
    proof {
        reveal_strlit(".");
        assert(dot@ =~= seq!['.']);
        assert(split(text@.take(0), seps) =~= seq![Seq::<char>::empty()]);
        assert(split(text@.take(0), seps).drop_last() =~= Seq::<Seq<char>>::empty());
        assert(parts.deep_view() =~= Seq::<Seq<char>>::empty());
    }
    for c in it: text.chars()
        invariant
            dot@ == seq!['.'],
            it.seq() == text@,
            seps == (if backslash {
                path_separators()
            } else {
                key_separators()
            }),
            split(text@.take(it.index()), seps).len() > 0,
            piece@ == split(text@.take(it.index()), seps).last(),
            parts.deep_view() == named_only(split(text@.take(it.index()), seps).drop_last()),
    {
        let ghost i = it.index();
        let ghost before = split(text@.take(i), seps);
        let ghost after = split(text@.take(i + 1), seps);
        let ghost parts_before = parts.deep_view();
        proof {
            assert(text@.take(i + 1).drop_last() =~= text@.take(i));
            assert(text@.take(i + 1).last() == c);
        }
        if c == '/' || (backslash && c == '\\') {
            proof {
                assert(after.drop_last() =~= before);
            }
            if !piece.as_str().is_empty() && piece != dot {
                parts.push(piece);
                proof {
                    assert(parts.deep_view() =~= parts_before.push(before.last()));
                }
            }
            piece = String::new();
        } else {
            proof {
                assert(after.drop_last() =~= before.drop_last());
            }
            piece.push(c);
        }
    }
    let ghost parts_before = parts.deep_view();
    proof {
        assert(text@.take(text@.len() as int) =~= text@);
    }
    if !piece.as_str().is_empty() && piece != dot {
        parts.push(piece);
        proof {
            assert(parts.deep_view() =~= parts_before.push(split(text@, seps).last()));
        }
    }
    parts
}

/// Joins `parts` with `sep` between neighbours.
pub fn join_parts(parts: &Vec<String>, sep: &str) -> (joined: String)
    ensures
        joined@ == join(parts.deep_view(), sep@),
{
    let mut joined: String = String::new();
    let ghost all = parts.deep_view();
    let n: usize = parts.len();
    proof {
        assert(all.take(0) =~= Seq::<Seq<char>>::empty());
    }
    for i in 0..n
        invariant
            n == parts.len(),
            all == parts.deep_view(),
            joined@ == join(all.take(i as int), sep@),
    {
        let ghost upto = all.take(i + 1);
        proof {
            assert(upto.drop_last() =~= all.take(i as int));
            assert(upto.last() == parts[i as int]@);
            if i == 0 {
                assert(joined@ =~= Seq::<char>::empty());
            }
        }
        if i > 0 {
            joined.append(sep);
        }
        joined.append(parts[i].as_str());
        proof {
            assert(joined@ =~= join(upto, sep@));
        }
    }
    proof {
        assert(all.take(n as int) =~= all);
    }
    joined
}

/// Splitting around a separator splits the two sides on their own.
pub proof fn lemma_split_at_separator(a: Seq<char>, c: char, b: Seq<char>, seps: Set<char>)
    requires
        seps.contains(c),
    ensures
        split(a.push(c) + b, seps) == split(a, seps) + split(b, seps),
    decreases b.len(),
{
    let whole = a.push(c) + b;
    if b.len() == 0 {
        assert(whole =~= a.push(c));
        assert(whole.drop_last() =~= a);
        assert(split(b, seps) =~= seq![Seq::<char>::empty()]);
        assert(split(whole, seps) =~= split(a, seps) + split(b, seps));
    } else {
        let rest = b.drop_last();
        lemma_split_at_separator(a, c, rest, seps);
        lemma_split_nonempty(rest, seps);
        assert(whole.drop_last() =~= a.push(c) + rest);
        assert(whole.last() == b.last());
        assert(split(whole, seps) =~= split(a, seps) + split(b, seps));
    }
}

pub proof fn lemma_named_only_concat(p: Seq<Seq<char>>, q: Seq<Seq<char>>)
    ensures
        named_only(p + q) == named_only(p) + named_only(q),
    decreases q.len(),
{
    if q.len() == 0 {
        assert(p + q =~= p);
        assert(named_only(p) + named_only(q) =~= named_only(p));
    } else {
        lemma_named_only_concat(p, q.drop_last());
        assert((p + q).drop_last() =~= p + q.drop_last());
        assert((p + q).last() == q.last());
        assert(named_only(p + q) =~= named_only(p) + named_only(q));
    }
}

/// The segments around a separator are those of the two sides.
pub proof fn lemma_segments_at_separator(a: Seq<char>, c: char, b: Seq<char>, seps: Set<char>)
    requires
        seps.contains(c),
    ensures
        segments(a.push(c) + b, seps) == segments(a, seps) + segments(b, seps),
{
    lemma_split_at_separator(a, c, b, seps);
    lemma_named_only_concat(split(a, seps), split(b, seps));
}

/// No character of `s` separates.
pub open spec fn free_of(s: Seq<char>, seps: Set<char>) -> bool {
    forall|i: int| 0 <= i < s.len() ==> !seps.contains(#[trigger] s[i])
}

pub proof fn lemma_split_free(s: Seq<char>, seps: Set<char>)
    requires
        free_of(s, seps),
    ensures
        split(s, seps) == seq![s],
        segments(s, seps) == (if is_named(s) {
            seq![s]
        } else {
            Seq::empty()
        }),
    decreases s.len(),
{
    if s.len() > 0 {
        lemma_split_free(s.drop_last(), seps);
        assert(s.drop_last().push(s.last()) =~= s);
        assert(!seps.contains(s[s.len() - 1]));
    } else {
        assert(s =~= Seq::empty());
    }
    assert(split(s, seps) =~= seq![s]);
    assert(split(s, seps).drop_last() =~= Seq::<Seq<char>>::empty());
    assert(named_only(split(s, seps).drop_last()) =~= Seq::<Seq<char>>::empty());
    assert(segments(s, seps) =~= (if is_named(s) {
        seq![s]
    } else {
        Seq::empty()
    }));
}

pub proof fn lemma_pieces_are_free(s: Seq<char>, seps: Set<char>)
    ensures
        forall|i: int| 0 <= i < split(s, seps).len() ==> free_of(#[trigger] split(s, seps)[i], seps),
    decreases s.len(),
{
    if s.len() > 0 {
        lemma_pieces_are_free(s.drop_last(), seps);
        lemma_split_nonempty(s.drop_last(), seps);
        let front = split(s.drop_last(), seps);
        assert(front.last() == front[front.len() - 1]);
        assert(free_of(front[front.len() - 1], seps));
    }
}

pub proof fn lemma_named_only_keeps(pieces: Seq<Seq<char>>, seps: Set<char>)
    requires
        forall|i: int| 0 <= i < pieces.len() ==> free_of(#[trigger] pieces[i], seps),
    ensures
        forall|i: int|
            0 <= i < named_only(pieces).len() ==> is_named(#[trigger] named_only(pieces)[i])
                && free_of(named_only(pieces)[i], seps),
    decreases pieces.len(),
{
    if pieces.len() > 0 {
        let front = pieces.drop_last();
        assert forall|i: int| 0 <= i < front.len() implies free_of(#[trigger] front[i], seps) by {
            assert(front[i] == pieces[i]);
        }
        lemma_named_only_keeps(front, seps);
        assert(free_of(pieces[pieces.len() - 1], seps));
        assert forall|i: int| 0 <= i < named_only(pieces).len() implies is_named(
            #[trigger] named_only(pieces)[i],
        ) && free_of(named_only(pieces)[i], seps) by {
            if i < named_only(front).len() {
                assert(named_only(pieces)[i] == named_only(front)[i]);
            }
        }
    }
}

/// Every segment names something and holds no separator.
pub proof fn lemma_segments_are_named(s: Seq<char>, seps: Set<char>)
    ensures
        forall|i: int|
            0 <= i < segments(s, seps).len() ==> is_named(#[trigger] segments(s, seps)[i])
                && free_of(segments(s, seps)[i], seps),
{
    lemma_pieces_are_free(s, seps);
    lemma_named_only_keeps(split(s, seps), seps);
}

/// The segments of each of `parts`, one after the other.
pub open spec fn segments_of_each(parts: Seq<Seq<char>>, seps: Set<char>) -> Seq<Seq<char>>
    decreases parts.len(),
{
    if parts.len() == 0 {
        Seq::empty()
    } else {
        segments_of_each(parts.drop_last(), seps) + segments(parts.last(), seps)
    }
}

/// Joined parts have the segments of the parts.
pub proof fn lemma_segments_of_join(parts: Seq<Seq<char>>, c: char, seps: Set<char>)
    requires
        seps.contains(c),
    ensures
        segments(join(parts, seq![c]), seps) == segments_of_each(parts, seps),
    decreases parts.len(),
{
    if parts.len() == 0 {
        lemma_split_free(Seq::empty(), seps);
    } else if parts.len() == 1 {
        assert(parts.drop_last() =~= Seq::<Seq<char>>::empty());
        assert(segments_of_each(parts.drop_last(), seps) =~= Seq::<Seq<char>>::empty());
        assert(segments_of_each(parts, seps) =~= segments(parts[0], seps));
    } else {
        let front = join(parts.drop_last(), seq![c]);
        lemma_segments_of_join(parts.drop_last(), c, seps);
        lemma_segments_at_separator(front, c, parts.last(), seps);
        assert(front + seq![c] + parts.last() =~= front.push(c) + parts.last());
    }
}

/// Separator-free, named parts are their own segments.
pub proof fn lemma_segments_of_named(parts: Seq<Seq<char>>, seps: Set<char>)
    requires
        forall|i: int|
            0 <= i < parts.len() ==> is_named(#[trigger] parts[i]) && free_of(parts[i], seps),
    ensures
        segments_of_each(parts, seps) == parts,
    decreases parts.len(),
{
    if parts.len() > 0 {
        let front = parts.drop_last();
        assert forall|i: int| 0 <= i < front.len() implies is_named(#[trigger] front[i])
            && free_of(front[i], seps) by {
            assert(front[i] == parts[i]);
        }
        lemma_segments_of_named(front, seps);
        assert(parts.last() == parts[parts.len() - 1]);
        lemma_split_free(parts.last(), seps);
        assert(segments_of_each(parts, seps) =~= parts);
    }
}

/// Pieces that name nothing have no segments, whatever separates.
pub proof fn lemma_segments_of_named_only(parts: Seq<Seq<char>>, seps: Set<char>)
    requires
        !seps.contains('.'),
    ensures
        segments_of_each(named_only(parts), seps) == segments_of_each(parts, seps),
    decreases parts.len(),
{
    if parts.len() > 0 {
        lemma_segments_of_named_only(parts.drop_last(), seps);
        if is_named(parts.last()) {
            let kept = named_only(parts);
            assert(kept.drop_last() =~= named_only(parts.drop_last()));
        } else {
            lemma_split_free(parts.last(), seps);
            assert(segments_of_each(parts, seps) =~= segments_of_each(parts.drop_last(), seps));
        }
    }
}

pub proof fn lemma_join_push(parts: Seq<Seq<char>>, last: Seq<char>, sep: Seq<char>)
    requires
        parts.len() > 0,
    ensures
        join(parts.push(last), sep) == join(parts, sep) + sep + last,
{
    assert(parts.push(last).drop_last() =~= parts);
}

/// White space separates nothing, so a blank text is one piece.
pub proof fn lemma_blank_is_one_piece(s: Seq<char>)
    requires
        is_blank(s),
    ensures
        free_of(s, path_separators()),
        segments(s, path_separators()) == (if s.len() > 0 {
            seq![s]
        } else {
            Seq::empty()
        }),
{
    let seps = path_separators();
    assert forall|i: int| 0 <= i < s.len() implies !seps.contains(#[trigger] s[i]) by {
        assert(white_space(s[i]));
    }
    lemma_split_free(s, seps);
    if s == seq!['.'] {
        assert(white_space(s[0]));
    }
}

/// Pieces that name nothing only make a join longer.
pub proof fn lemma_named_only_joins_shorter(pieces: Seq<Seq<char>>, sep: Seq<char>)
    ensures
        join(named_only(pieces), sep).len() <= join(pieces, sep).len(),
    decreases pieces.len(),
{
    if pieces.len() > 0 {
        let front = pieces.drop_last();
        let last = pieces.last();
        lemma_named_only_joins_shorter(front, sep);
        assert(front.push(last) =~= pieces);
        if front.len() > 0 {
            lemma_join_push(front, last, sep);
        } else {
            assert(named_only(front) =~= Seq::<Seq<char>>::empty());
        }
        if is_named(last) && named_only(front).len() > 0 {
            lemma_join_push(named_only(front), last, sep);
        }
    }
}

/// The pieces of a text, joined with a character, are as long as the text.
pub proof fn lemma_join_of_split_len(s: Seq<char>, seps: Set<char>, c: char)
    ensures
        join(split(s, seps), seq![c]).len() == s.len(),
    decreases s.len(),
{
    if s.len() > 0 {
        let rest = s.drop_last();
        let front = split(rest, seps);
        lemma_join_of_split_len(rest, seps, c);
        lemma_split_nonempty(rest, seps);
        if seps.contains(s.last()) {
            lemma_join_push(front, Seq::empty(), seq![c]);
        } else {
            let longer = front.last().push(s.last());
            assert(front.drop_last().push(front.last()) =~= front);
            if front.len() == 1 {
                assert(split(s, seps) =~= seq![longer]);
            } else {
                lemma_join_push(front.drop_last(), longer, seq![c]);
                lemma_join_push(front.drop_last(), front.last(), seq![c]);
            }
        }
    }
}

/// Text is its pieces with the one separator between them.
pub proof fn lemma_join_of_split(s: Seq<char>, c: char)
    ensures
        join(split(s, set![c]), seq![c]) == s,
    decreases s.len(),
{
    let seps = set![c];
    if s.len() > 0 {
        let rest = s.drop_last();
        let front = split(rest, seps);
        lemma_join_of_split(rest, c);
        lemma_split_nonempty(rest, seps);
        assert(rest.push(s.last()) =~= s);
        if seps.contains(s.last()) {
            lemma_join_push(front, Seq::empty(), seq![c]);
            assert(join(split(s, seps), seq![c]) =~= s);
        } else {
            let longer = front.last().push(s.last());
            assert(front.drop_last().push(front.last()) =~= front);
            if front.len() == 1 {
                assert(split(s, seps) =~= seq![longer]);
            } else {
                lemma_join_push(front.drop_last(), longer, seq![c]);
                lemma_join_push(front.drop_last(), front.last(), seq![c]);
                assert(join(split(s, seps), seq![c]) =~= s);
            }
        }
    }
}

/// Joining puts one separator between neighbours and nothing else.
pub proof fn law_join(parts: Seq<Seq<char>>, last: Seq<char>, sep: Seq<char>)
    ensures
        join(Seq::empty(), sep) == Seq::<char>::empty(),
        join(seq![last], sep) == last,
        parts.len() > 0 ==> join(parts.push(last), sep) == join(parts, sep) + sep + last,
{
    if parts.len() > 0 {
        lemma_join_push(parts, last, sep);
    }
}

/// Text without a separator is one piece; at a separator text falls into the
/// pieces of its two sides.
pub proof fn law_split(a: Seq<char>, c: char, b: Seq<char>, seps: Set<char>)
    ensures
        (forall|i: int| 0 <= i < a.len() ==> !seps.contains(#[trigger] a[i])) ==> split(a, seps)
            == seq![a],
        seps.contains(c) ==> split(a.push(c) + b, seps) == split(a, seps) + split(b, seps),
{
    if forall|i: int| 0 <= i < a.len() ==> !seps.contains(#[trigger] a[i]) {
        assert(free_of(a, seps)) by {
            assert forall|i: int| 0 <= i < a.len() implies !seps.contains(#[trigger] a[i]) by {}
        }
        lemma_split_free(a, seps);
    }
    if seps.contains(c) {
        lemma_split_at_separator(a, c, b, seps);
    }
}

/// The segments are all the pieces but the empty ones and `.`.
pub proof fn law_segments_are_pieces(s: Seq<char>, seps: Set<char>)
    ensures
        segments(s, seps) == split(s, seps).filter(
            |piece: Seq<char>| piece.len() > 0 && piece != seq!['.'],
        ),
{
    lemma_named_only_filters(split(s, seps));
}

proof fn lemma_named_only_filters(pieces: Seq<Seq<char>>)
    ensures
        named_only(pieces) == pieces.filter(
            |piece: Seq<char>| piece.len() > 0 && piece != seq!['.'],
        ),
    decreases pieces.len(),
{
    reveal(Seq::filter);
    if pieces.len() > 0 {
        lemma_named_only_filters(pieces.drop_last());
    } else {
        assert(named_only(pieces) =~= pieces);
    }
}

/// The separators are `/` and, in paths, `\`; no other character separates.
pub proof fn law_separators(c: char)
    ensures
        path_separators().contains(c) <==> c == '/' || c == '\\',
        key_separators().contains(c) <==> c == '/',
{
}

} // verus!
