//! Text handling shared by the tag and search rules: trimming, lowercasing,
//! substring search and splitting on a separator, over `Seq<char>` models.

use vstd::prelude::*;

verus! {

/// Whether `c` is white space: what `char::is_whitespace` answers for it, which is
/// whether Unicode counts `c` as `White_Space`.
pub uninterp spec fn is_white_space(c: char) -> bool;

/// The lowercase form of a string: what `str::to_lowercase` returns for it under the
/// Unicode rules for lowercasing.
pub uninterp spec fn lowercase_of(s: Seq<char>) -> Seq<char>;

/// `s` without its leading white space.
pub open spec fn trim_start_of(s: Seq<char>) -> Seq<char>
    decreases s.len(),
{
    if s.len() > 0 && is_white_space(s.first()) {
        trim_start_of(s.drop_first())
    } else {
        s
    }
}

/// `s` without its trailing white space.
pub open spec fn trim_end_of(s: Seq<char>) -> Seq<char>
    decreases s.len(),
{
    if s.len() > 0 && is_white_space(s.last()) {
        trim_end_of(s.drop_last())
    } else {
        s
    }
}

/// `s` without leading and trailing white space.
pub open spec fn trimmed(s: Seq<char>) -> Seq<char> {
    trim_end_of(trim_start_of(s))
}

/// `needle` stands in `hay` at position `at`.
pub open spec fn occurs_at(needle: Seq<char>, hay: Seq<char>, at: int) -> bool {
    &&& 0 <= at
    &&& at + needle.len() <= hay.len()
    &&& hay.subrange(at, at + needle.len()) == needle
}

/// `needle` stands somewhere in `hay`. The empty string stands in every string.
pub open spec fn is_substring(needle: Seq<char>, hay: Seq<char>) -> bool {
    exists|at: int| occurs_at(needle, hay, at)
}

/// The pieces of `s` between occurrences of `sep`, in order. There is always at
/// least one piece; a separator at either end gives an empty piece there.
pub open spec fn split_by(s: Seq<char>, sep: char) -> Seq<Seq<char>>
    decreases s.len(),
{
    if s.len() == 0 {
        seq![Seq::<char>::empty()]
    } else {
        let before = split_by(s.drop_last(), sep);
        if s.last() == sep {
            before.push(Seq::<char>::empty())
        } else {
            before.drop_last().push(before.last().push(s.last()))
        }
    }
}

/// The pieces put together again with `sep` between each two of them.
pub open spec fn joined(pieces: Seq<Seq<char>>, sep: char) -> Seq<char>
    decreases pieces.len(),
{
    if pieces.len() == 0 {
        Seq::<char>::empty()
    } else if pieces.len() == 1 {
        pieces[0]
    } else {
        joined(pieces.drop_last(), sep).push(sep) + pieces.last()
    }
}

/// The strings that a vector of string slices holds.
pub open spec fn slices_view(v: Seq<&str>) -> Seq<Seq<char>> {
    v.map_values(|s: &str| s@)
}

/// The strings that a vector of owned strings holds.
pub open spec fn strings_view(v: Seq<String>) -> Seq<Seq<char>> {
    v.map_values(|s: String| s@)
}

/// Taken on trust of `char::is_whitespace`: its answer is the one that
/// `is_white_space` names. Nothing is said here of which characters those are.
pub assume_specification[ char::is_whitespace ](c: char) -> (r: bool)
    ensures
        r == is_white_space(c),
;

/// Taken on trust of `str::to_lowercase`: the string it returns is the one that
/// `lowercase_of` names for the string it was given. Nothing is said here of which
/// letters it changes.
pub assume_specification[ str::to_lowercase ](s: &str) -> (r: String)
    ensures
        r@ == lowercase_of(s@),
;

/// Taken on trust of `str::contains` with a string as the pattern: it answers whether
/// `needle` stands somewhere in `hay`, character for character.
#[verifier::external_body]
pub(crate) fn contains_str(hay: &str, needle: &str) -> (found: bool)
    ensures
        found == is_substring(needle@, hay@),
{
    hay.contains(needle)
}

/// Leading white space ends at the first character that is not white space.
pub proof fn lemma_trim_start(s: Seq<char>, from: int)
    requires
        0 <= from <= s.len(),
        forall|j: int| 0 <= j < from ==> is_white_space(s[j]),
        from < s.len() ==> !is_white_space(s[from]),
    ensures
        trim_start_of(s) == s.skip(from),
    decreases from,
{
    if from == 0 {
        assert(s.skip(0) =~= s);
    } else {
        let rest = s.drop_first();
        assert forall|j: int| 0 <= j < from - 1 implies is_white_space(rest[j]) by {
            assert(rest[j] == s[j + 1]);
        }
        lemma_trim_start(rest, from - 1);
        assert(rest.skip(from - 1) =~= s.skip(from));
    }
}

/// Trailing white space starts behind the last character that is not white space.
pub proof fn lemma_trim_end(s: Seq<char>, to: int)
    requires
        0 <= to <= s.len(),
        forall|j: int| to <= j < s.len() ==> is_white_space(s[j]),
        0 < to ==> !is_white_space(s[to - 1]),
    ensures
        trim_end_of(s) == s.take(to),
    decreases s.len() - to,
{
    if to == s.len() {
        assert(s.take(to) =~= s);
    } else {
        let rest = s.drop_last();
        lemma_trim_end(rest, to);
        assert(rest.take(to) =~= s.take(to));
    }
}

/// What is left after trimming neither begins nor ends with white space.
pub proof fn law_trimmed_has_bare_ends(s: Seq<char>)
    ensures
        trimmed(s).len() > 0 ==> !is_white_space(trimmed(s).first()) && !is_white_space(
            trimmed(s).last(),
        ),
{
    lemma_trim_start_bare(s);
    lemma_trim_end_bare(trim_start_of(s));
}

/// What is left after trimming at the front does not begin with white space, and
/// is the end of the string.
proof fn lemma_trim_start_bare(s: Seq<char>)
    ensures
        trim_start_of(s).len() > 0 ==> !is_white_space(trim_start_of(s).first()),
        trim_start_of(s).len() <= s.len(),
        trim_start_of(s) == s.skip(s.len() - trim_start_of(s).len()),
    decreases s.len(),
{
    if s.len() > 0 && is_white_space(s.first()) {
        let rest = s.drop_first();
        lemma_trim_start_bare(rest);
        assert(rest.skip(rest.len() - trim_start_of(rest).len()) =~= s.skip(
            s.len() - trim_start_of(rest).len(),
        ));
    } else {
        assert(s.skip(0) =~= s);
    }
}

/// What is left after trimming at the back does not end with white space, is the
/// beginning of the string, and begins as the string does unless it is empty.
proof fn lemma_trim_end_bare(s: Seq<char>)
    ensures
        trim_end_of(s).len() > 0 ==> !is_white_space(trim_end_of(s).last()) && trim_end_of(
            s,
        ).first() == s.first(),
        trim_end_of(s).len() <= s.len(),
        trim_end_of(s) == s.take(trim_end_of(s).len() as int),
    decreases s.len(),
{
    if s.len() > 0 && is_white_space(s.last()) {
        let rest = s.drop_last();
        lemma_trim_end_bare(rest);
        assert(rest.take(trim_end_of(rest).len() as int) =~= s.take(
            trim_end_of(rest).len() as int,
        ));
    } else {
        assert(s.take(s.len() as int) =~= s);
    }
}

/// Trimming cuts a string out of the middle: what is left stands in the string,
/// and only white space stands before and behind it.
pub proof fn law_trimmed_is_the_middle(s: Seq<char>)
    ensures
        exists|from: int, to: int|
            0 <= from <= to <= s.len() && #[trigger] s.subrange(from, to) == trimmed(s) && (forall|
                j: int,
            |
                0 <= j < from || to <= j < s.len() ==> is_white_space(s[j])),
{
    let (from, to) = lemma_trimmed_bounds(s);
    assert(s.subrange(from, to) == trimmed(s));
}

/// Where the trimmed string begins and ends in the string.
proof fn lemma_trimmed_bounds(s: Seq<char>) -> (bounds: (int, int))
    ensures
        0 <= bounds.0 <= bounds.1 <= s.len(),
        s.subrange(bounds.0, bounds.1) == trimmed(s),
        forall|j: int| 0 <= j < bounds.0 || bounds.1 <= j < s.len() ==> is_white_space(s[j]),
{
    let front = lemma_leading_white_space(s);
    let rest = trim_start_of(s);
    let back = lemma_trailing_white_space(rest);
    assert(rest.take(back) =~= s.subrange(front, front + back));
    assert forall|j: int| 0 <= j < front || front + back <= j < s.len() implies is_white_space(
        s[j],
    ) by {
        if j >= front {
            assert(rest[j - front] == s[j]);
        }
    }
    (front, front + back)
}

/// How much white space a string begins with.
proof fn lemma_leading_white_space(s: Seq<char>) -> (count: int)
    ensures
        0 <= count <= s.len(),
        trim_start_of(s) == s.skip(count),
        forall|j: int| 0 <= j < count ==> is_white_space(s[j]),
    decreases s.len(),
{
    if s.len() > 0 && is_white_space(s.first()) {
        let rest = s.drop_first();
        let inner = lemma_leading_white_space(rest);
        assert(rest.skip(inner) =~= s.skip(inner + 1));
        assert forall|j: int| 0 <= j < inner + 1 implies is_white_space(s[j]) by {
            if j > 0 {
                assert(rest[j - 1] == s[j]);
            }
        }
        inner + 1
    } else {
        assert(s.skip(0) =~= s);
        0
    }
}

/// Where the white space that a string ends with begins.
proof fn lemma_trailing_white_space(s: Seq<char>) -> (to: int)
    ensures
        0 <= to <= s.len(),
        trim_end_of(s) == s.take(to),
        forall|j: int| to <= j < s.len() ==> is_white_space(s[j]),
    decreases s.len(),
{
    if s.len() > 0 && is_white_space(s.last()) {
        let rest = s.drop_last();
        let inner = lemma_trailing_white_space(rest);
        assert(rest.take(inner) =~= s.take(inner));
        assert forall|j: int| inner <= j < s.len() implies is_white_space(s[j]) by {
            if j < s.len() - 1 {
                assert(rest[j] == s[j]);
            }
        }
        inner
    } else {
        assert(s.take(s.len() as int) =~= s);
        s.len() as int
    }
}

/// A split always gives at least one piece.
pub proof fn lemma_split_is_not_empty(s: Seq<char>, sep: char)
    ensures
        split_by(s, sep).len() >= 1,
    decreases s.len(),
{
    if s.len() > 0 {
        lemma_split_is_not_empty(s.drop_last(), sep);
    }
}

/// No piece of a split holds the separator.
pub proof fn law_split_pieces_hold_no_separator(s: Seq<char>, sep: char)
    ensures
        forall|k: int, j: int|
            0 <= k < split_by(s, sep).len() && 0 <= j < split_by(s, sep)[k].len() ==> (
            #[trigger] split_by(s, sep)[k][j]) != sep,
    decreases s.len(),
{
    if s.len() > 0 {
        let before = split_by(s.drop_last(), sep);
        law_split_pieces_hold_no_separator(s.drop_last(), sep);
        lemma_split_is_not_empty(s.drop_last(), sep);
        let pieces = split_by(s, sep);
        assert forall|k: int, j: int|
            0 <= k < pieces.len() && 0 <= j < pieces[k].len() implies (#[trigger] pieces[k][j])
            != sep by {
            if k < before.len() - 1 {
                assert(pieces[k][j] == before[k][j]);
            } else if s.last() != sep && j < before.last().len() {
                assert(pieces[k][j] == before[k][j]);
            }
        }
    }
}

/// The pieces of a split, put together again with the separator between them,
/// give the string back.
pub proof fn law_split_joins_back(s: Seq<char>, sep: char)
    ensures
        joined(split_by(s, sep), sep) == s,
    decreases s.len(),
{
    if s.len() > 0 {
        let front = s.drop_last();
        let before = split_by(front, sep);
        let pieces = split_by(s, sep);
        law_split_joins_back(front, sep);
        lemma_split_is_not_empty(front, sep);
        if s.last() == sep {
            assert(pieces.drop_last() =~= before);
            assert(joined(pieces, sep) =~= front.push(sep));
        } else if before.len() == 1 {
            assert(joined(pieces, sep) =~= front.push(s.last()));
        } else {
            assert(pieces.drop_last() =~= before.drop_last());
            assert(joined(pieces, sep) =~= joined(before, sep).push(s.last()));
        }
        assert(front.push(s.last()) =~= s);
    }
}

/// The slice of `s` between its leading and its trailing white space.
pub fn trim<'a>(s: &'a str) -> (r: &'a str)
    ensures
        r@ == trimmed(s@),
{
    let n: usize = s.unicode_len();
    // `first` counts the leading white space; `end` is one past the last
    // character that is not white space, or 0 while there is none.
    let mut first: usize = 0;
    let mut end: usize = 0;
    let mut i: usize = 0;
    for c in it: s.chars()
        invariant
            n == s@.len(),
            i == it.index(),
            it.seq() == s@,
            i <= n,
            end <= i,
            forall|j: int| 0 <= j < first ==> is_white_space(s@[j]),
            forall|j: int| end <= j < i ==> is_white_space(s@[j]),
            end == 0 ==> first == i,
            end > 0 ==> first < end && !is_white_space(s@[first as int]) && !is_white_space(
                s@[end - 1],
            ),
    {
        if c.is_whitespace() {
            if end == 0 {
                first = i + 1;
            }
        } else {
            end = i + 1;
        }
        i += 1;
    }
    let stop: usize = if end == 0 { first } else { end };
    proof {
        let rest = s@.skip(first as int);
        lemma_trim_start(s@, first as int);
        assert forall|j: int| stop - first <= j < rest.len() implies is_white_space(rest[j]) by {
            assert(rest[j] == s@[first + j]);
        }
        lemma_trim_end(rest, stop - first);
        assert(rest.take(stop - first) =~= s@.subrange(first as int, stop as int));
    }
    s.substring_char(first, stop)
}

/// Adding a slice to a vector adds its string to the strings the vector holds.
pub proof fn lemma_slices_view_push(v: Seq<&str>, piece: &str)
    ensures
        slices_view(v.push(piece)) == slices_view(v).push(piece@),
{
    assert(slices_view(v.push(piece)) =~= slices_view(v).push(piece@));
}

/// Splits `s` at every `sep`.
pub fn split<'a>(s: &'a str, sep: char) -> (pieces: Vec<&'a str>)
    ensures
        slices_view(pieces@) == split_by(s@, sep),
{
    let n: usize = s.unicode_len();
    let mut pieces: Vec<&str> = Vec::new();
    let mut start: usize = 0;
    let mut i: usize = 0;
    proof {
        assert(s@.take(0).len() == 0);
        assert(s@.subrange(0, 0) =~= Seq::<char>::empty());
        assert(slices_view(pieces@).push(s@.subrange(0, 0)) =~= seq![Seq::<char>::empty()]);
    }
    for c in it: s.chars()
        invariant
            n == s@.len(),
            i == it.index(),
            it.seq() == s@,
            start <= i <= n,
            slices_view(pieces@).push(s@.subrange(start as int, i as int)) == split_by(
                s@.take(i as int),
                sep,
            ),
    {
        let ghost done = slices_view(pieces@);
        let ghost open_piece = s@.subrange(start as int, i as int);
        let ghost upto = s@.take(i as int + 1);
        proof {
            assert(upto.drop_last() =~= s@.take(i as int));
            assert(upto.last() == c);
            assert(done.push(open_piece).drop_last() =~= done);
        }
        if c == sep {
            let piece = s.substring_char(start, i);
            proof {
                lemma_slices_view_push(pieces@, piece);
            }
            pieces.push(piece);
            start = i + 1;
            proof {
                assert(s@.subrange(start as int, i as int + 1) =~= Seq::<char>::empty());
            }
        } else {
            proof {
                assert(s@.subrange(start as int, i as int + 1) =~= open_piece.push(c));
            }
        }
        i += 1;
    }
    let piece = s.substring_char(start, n);
    proof {
        lemma_slices_view_push(pieces@, piece);
        assert(s@.take(n as int) =~= s@);
    }
    pieces.push(piece);
    pieces
}

} // verus!
