//! Tags and namespaces: how a metric's tags and name are written on the wire.

use vstd::prelude::*;
use vstd::relations::{sorted_by, total_ordering};
use vstd::seq_lib::{lemma_sorted_unique, to_multiset_build, to_multiset_insert};
use crate::text::{
    join, lemma_text_order_is_total, text_le, text_no_later, text_order, texts,
};

verus! {

/// A tag on the wire: its key, a colon, its value.
pub open spec fn tag_line(tag: (Seq<char>, Seq<char>)) -> Seq<char> {
    tag.0 + ":"@ + tag.1
}

/// The tags on the wire, in the order given.
pub open spec fn tag_lines(tags: Seq<(Seq<char>, Seq<char>)>) -> Seq<Seq<char>> {
    tags.map_values(|tag: (Seq<char>, Seq<char>)| tag_line(tag))
}

/// The tags on the wire, in rising order.
pub open spec fn encoded_tags(tags: Seq<(Seq<char>, Seq<char>)>) -> Seq<Seq<char>> {
    tag_lines(tags).sort_by(text_order())
}

/// The views of keys and values.
pub open spec fn tag_texts(tags: Seq<(String, String)>) -> Seq<(Seq<char>, Seq<char>)> {
    tags.map_values(|tag: (String, String)| (tag.0@, tag.1@))
}

/// A name under a namespace: the two joined by a dot, or the name alone
/// where the namespace is empty.
pub open spec fn namespaced(namespace: Seq<char>, name: Seq<char>) -> Seq<char> {
    if namespace.len() > 0 {
        namespace + "."@ + name
    } else {
        name
    }
}

/// Puts a name under a namespace.
pub fn encode_namespace(namespace: &str, name: &str) -> (fullname: String)
    ensures
        fullname@ == namespaced(namespace@, name@),
{
    if !namespace.is_empty() {
        join(namespace, ".", name)
    } else {
        String::from_str(name)
    }
}

/// Writes each tag as `key:value` and puts the lines in rising order: the
/// result is sorted, and holds one line for each tag given.
pub fn encode_tags(tags: Vec<(String, String)>) -> (lines: Vec<String>)
    ensures
        texts(lines@) == encoded_tags(tag_texts(tags@)),
        sorted_by(texts(lines@), text_order()),
        texts(lines@).to_multiset() == tag_lines(tag_texts(tags@)).to_multiset(),
        lines.len() == tags.len(),
{
    proof {
        lemma_encoded_tags_are_sorted(tag_texts(tags@));
    }
    sorted_tag_lines(&tags)
}

/// `encode_tags` on borrowed tags.
pub fn sorted_tag_lines(tags: &Vec<(String, String)>) -> (lines: Vec<String>)
    ensures
        texts(lines@) == encoded_tags(tag_texts(tags@)),
{
    let ghost given = tag_lines(tag_texts(tags@));
    let mut lines: Vec<String> = Vec::new();
    let mut i: usize = 0;
    proof {
        lemma_text_order_is_total();
        assert(given.take(0) =~= texts(lines@));
    }
    while i < tags.len()
        invariant
            i <= tags.len(),
            given == tag_lines(tag_texts(tags@)),
            total_ordering(text_order()),
            sorted_by(texts(lines@), text_order()),
            texts(lines@).to_multiset() == given.take(i as int).to_multiset(),
        decreases tags.len() - i,
    {
        let line = join(tags[i].0.as_str(), ":", tags[i].1.as_str());
        assert(line@ == given[i as int]);
        let mut pos: usize = lines.len();
        while pos > 0 && !text_no_later(lines[pos - 1].as_str(), line.as_str())
            invariant
                pos <= lines.len(),
                forall|b: int| pos <= b < lines.len() ==> !text_le(#[trigger] lines[b]@, line@),
            decreases pos,
        {
            pos = pos - 1;
        }
        let ghost before = texts(lines@);
        lines.insert(pos, line);
        proof {
            let after = texts(lines@);
            assert(after =~= before.insert(pos as int, given[i as int]));
            to_multiset_insert(before, pos as int, given[i as int]);
            assert(given.take(i + 1) =~= given.take(i as int).push(given[i as int]));
            to_multiset_build(given.take(i as int), given[i as int]);
            let r = text_order();
            assert forall|a: int, b: int| 0 <= a < b < after.len() implies #[trigger] r(
                after[a],
                after[b],
            ) by {
                let new = given[i as int];
                if b < pos {
                    assert(r(before[a], before[b]));
                } else if b == pos {
                    assert(after[a] == before[a]);
                    if a < pos - 1 {
                        assert(r(before[a], before[pos - 1]));
                    }
                    assert(r(before[pos - 1], new));
                } else if a < pos {
                    assert(r(before[a], before[b - 1]));
                } else if a == pos {
                    assert(!text_le(before[b - 1], new));
                    assert(r(before[b - 1], new) || r(new, before[b - 1]));
                } else {
                    assert(r(before[a - 1], before[b - 1]));
                }
            }
        }
        i = i + 1;
    }
    proof {
        assert(given.take(i as int) =~= given);
        given.lemma_sort_by_ensures(text_order());
        lemma_sorted_unique(texts(lines@), given.sort_by(text_order()), text_order());
    }
    lines
}

/// The encoded tags are in rising order and hold one line for each tag
/// given, as often as it was given.
pub proof fn lemma_encoded_tags_are_sorted(tags: Seq<(Seq<char>, Seq<char>)>)
    ensures
        sorted_by(encoded_tags(tags), text_order()),
        encoded_tags(tags).to_multiset() == tag_lines(tags).to_multiset(),
        encoded_tags(tags).len() == tags.len(),
{
    lemma_text_order_is_total();
    tag_lines(tags).lemma_sort_by_ensures(text_order());
    vstd::seq_lib::to_multiset_len(encoded_tags(tags));
    vstd::seq_lib::to_multiset_len(tag_lines(tags));
}

/// The encoded tags do not depend on the order in which the tags are given:
/// two sequences that hold the same tags equally often encode alike.
pub proof fn lemma_encoded_tags_ignore_order(
    first: Seq<(Seq<char>, Seq<char>)>,
    second: Seq<(Seq<char>, Seq<char>)>,
)
    requires
        first.to_multiset() == second.to_multiset(),
    ensures
        encoded_tags(first) == encoded_tags(second),
{
    lemma_text_order_is_total();
    lemma_tag_lines_keep_multiset(first, second);
    tag_lines(first).lemma_sort_by_ensures(text_order());
    tag_lines(second).lemma_sort_by_ensures(text_order());
    lemma_sorted_unique(encoded_tags(first), encoded_tags(second), text_order());
}

/// Sequences that hold the same tags equally often give the same lines
/// equally often.
proof fn lemma_tag_lines_keep_multiset(
    first: Seq<(Seq<char>, Seq<char>)>,
    second: Seq<(Seq<char>, Seq<char>)>,
)
    requires
        first.to_multiset() == second.to_multiset(),
    ensures
        tag_lines(first).to_multiset() == tag_lines(second).to_multiset(),
    decreases first.len(),
{
    broadcast use vstd::multiset::group_multiset_axioms;

    vstd::seq_lib::to_multiset_len(first);
    vstd::seq_lib::to_multiset_len(second);
    if first.len() == 0 {
        assert(tag_lines(first) =~= tag_lines(second));
    } else {
        let tag = first.last();
        let rest = first.drop_last();
        assert(first =~= rest.push(tag));
        to_multiset_build(rest, tag);
        vstd::seq_lib::to_multiset_contains(second, tag);
        assert(second.to_multiset().count(tag) > 0);
        let at = choose|at: int| 0 <= at < second.len() && second[at] == tag;
        let others = second.remove(at);
        vstd::seq_lib::to_multiset_remove(second, at);
        assert(rest.to_multiset() =~= others.to_multiset());
        lemma_tag_lines_keep_multiset(rest, others);
        assert(tag_lines(first) =~= tag_lines(rest).push(tag_line(tag)));
        assert(tag_lines(second) =~= tag_lines(others).insert(at, tag_line(tag)));
        to_multiset_build(tag_lines(rest), tag_line(tag));
        to_multiset_insert(tag_lines(others), at, tag_line(tag));
    }
}

} // verus!
