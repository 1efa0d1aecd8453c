//! Tags: the normal form of a tag, and the reading of a comma-separated tag list.

use crate::text::{lowercase_of, slices_view, split, split_by, strings_view, trim, trimmed};
use vstd::prelude::*;

verus! {

/// The normal form of a piece of a tag list: trimmed, then lowercased.
pub open spec fn normalized(piece: Seq<char>) -> Seq<char> {
    lowercase_of(trimmed(piece))
}

/// A tag as the store keeps it: the normal form of some piece, and not empty.
pub open spec fn is_tag(tag: Seq<char>) -> bool {
    tag.len() > 0 && exists|piece: Seq<char>| tag == normalized(piece)
}

/// Every one of `tags` is a tag as the store keeps it.
pub open spec fn are_tags(tags: Seq<Seq<char>>) -> bool {
    forall|k: int| 0 <= k < tags.len() ==> is_tag(#[trigger] tags[k])
}

/// The normal form of each piece, in order.
pub open spec fn normal_forms(pieces: Seq<Seq<char>>) -> Seq<Seq<char>> {
    pieces.map_values(|piece: Seq<char>| normalized(piece))
}

/// The strings that are not empty, in order.
pub open spec fn non_empty(strings: Seq<Seq<char>>) -> Seq<Seq<char>> {
    strings.filter(|string: Seq<char>| string.len() > 0)
}

/// The tags among some pieces: the normal form of each piece, without the empty ones.
pub open spec fn tags_among(pieces: Seq<Seq<char>>) -> Seq<Seq<char>> {
    non_empty(normal_forms(pieces))
}

/// The tags that a comma-separated list names, in the order of the list.
pub open spec fn tags_of(input: Seq<char>) -> Seq<Seq<char>> {
    tags_among(split_by(input, ','))
}

/// One more string is kept after the others, unless it is empty.
pub proof fn lemma_non_empty_push(strings: Seq<Seq<char>>, string: Seq<char>)
    ensures
        non_empty(strings.push(string)) == if string.len() > 0 {
            non_empty(strings).push(string)
        } else {
            non_empty(strings)
        },
{
    reveal(Seq::filter);
    assert(strings.push(string).drop_last() =~= strings);
}

/// One more piece adds its normal form to the tags, unless that is empty.
pub proof fn lemma_tags_among_push(pieces: Seq<Seq<char>>, piece: Seq<char>)
    ensures
        tags_among(pieces.push(piece)) == if normalized(piece).len() > 0 {
            tags_among(pieces).push(normalized(piece))
        } else {
            tags_among(pieces)
        },
{
    assert(normal_forms(pieces.push(piece)) =~= normal_forms(pieces).push(normalized(piece)));
    lemma_non_empty_push(normal_forms(pieces), normalized(piece));
}

/// Every tag among some pieces is a tag as the store keeps it.
pub proof fn lemma_tags_among_are_tags(pieces: Seq<Seq<char>>)
    ensures
        are_tags(tags_among(pieces)),
    decreases pieces.len(),
{
    if pieces.len() == 0 {
        reveal(Seq::filter);
    } else {
        let front = pieces.drop_last();
        lemma_tags_among_are_tags(front);
        lemma_tags_among_push(front, pieces.last());
        assert(front.push(pieces.last()) =~= pieces);
    }
}

/// The normal form of `piece`.
pub fn normalize_tag(piece: &str) -> (tag: String)
    ensures
        tag@ == normalized(piece@),
{
    trim(piece).to_lowercase()
}

/// The given strings without the empty ones, in their order.
pub fn without_empty(strings: Vec<String>) -> (kept: Vec<String>)
    ensures
        strings_view(kept@) == non_empty(strings_view(strings@)),
{
    let ghost all = strings_view(strings@);
    let mut kept: Vec<String> = Vec::new();
    proof {
        reveal(Seq::filter);
        assert(strings_view(kept@) =~= non_empty(all.take(0)));
    }
    for string in it: strings
        invariant
            all == strings_view(it.seq()),
            strings_view(kept@) == non_empty(all.take(it.index() as int)),
    {
        proof {
            lemma_non_empty_push(all.take(it.index() as int), string@);
            assert(all.take(it.index() as int).push(string@) =~= all.take(it.index() + 1));
            assert(strings_view(kept@.push(string)) =~= strings_view(kept@).push(string@));
        }
        if !string.as_str().is_empty() {
            kept.push(string);
        }
    }
    proof {
        assert(all.take(all.len() as int) =~= all);
    }
    kept
}

/// Reads a comma-separated tag list: each piece in its normal form, the empty ones left out.
pub fn parse_tags(input: &str) -> (tags: Vec<String>)
    ensures
        strings_view(tags@) == tags_of(input@),
        are_tags(strings_view(tags@)),
{
    let pieces = split(input, ',');
    let ghost all = slices_view(pieces@);
    let mut forms: Vec<String> = Vec::new();
    let mut i: usize = 0;
    proof {
        assert(strings_view(forms@) =~= normal_forms(all.take(0)));
    }
    while i < pieces.len()
        invariant
            i <= pieces@.len(),
            all == slices_view(pieces@),
            strings_view(forms@) == normal_forms(all.take(i as int)),
        decreases pieces@.len() - i,
    {
        let form = normalize_tag(pieces[i]);
        proof {
            assert(all[i as int] == pieces@[i as int]@);
            assert(strings_view(forms@.push(form)) =~= strings_view(forms@).push(form@));
            assert(all.take(i as int + 1) =~= all.take(i as int).push(all[i as int]));
            assert(normal_forms(all.take(i as int).push(all[i as int])) =~= normal_forms(
                all.take(i as int),
            ).push(normalized(all[i as int])));
        }
        forms.push(form);
        i += 1;
    }
    proof {
        assert(all.take(i as int) =~= all);
    }
    let tags = without_empty(forms);
    proof {
        lemma_tags_among_are_tags(all);
    }
    tags
}

} // verus!
