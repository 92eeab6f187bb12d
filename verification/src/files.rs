//! File names: their stem and extension.
use vstd::prelude::*;

use crate::text::{after_last, after_last_of, same_text, split_text};

verus! {

/// Where the extension of a file name starts, just after its last dot. A name that has no dot,
/// or whose only dot is its first character, has no extension; neither has `..`.
pub open spec fn extension_start(name: Seq<char>) -> Option<int> {
    let start = name.len() - after_last(name, '.').len();
    if start <= 1 || name == seq!['.', '.'] {
        None
    } else {
        Some(start)
    }
}

/// The extension of a file name: what follows its last dot.
pub open spec fn extension(name: Seq<char>) -> Option<Seq<char>> {
    match extension_start(name) {
        Some(start) => Some(name.skip(start)),
        None => None,
    }
}

/// A file name without its extension and the dot before it.
pub open spec fn file_stem(name: Seq<char>) -> Seq<char> {
    match extension_start(name) {
        Some(start) => name.take(start - 1),
        None => name,
    }
}

proof fn lemma_after_last_bound(name: Seq<char>)
    ensures
        after_last(name, '.').len() <= name.len(),
    decreases name.len(),
{
    if name.len() > 0 {
        lemma_after_last_bound(name.drop_last());
    }
}

fn extension_start_of(name: &str) -> (result: Option<usize>)
    ensures
        match result {
            Some(start) => extension_start(name@) == Some(start as int) && start <= name@.len(),
            None => extension_start(name@) is None,
        },
{
    proof {
        lemma_after_last_bound(name@);
        reveal_strlit("..");
        assert(".."@ == seq!['.', '.']);
    }
    let total: usize = name.unicode_len();
    let start: usize = total - after_last_of(name, '.').unicode_len();
    if start <= 1 || same_text(name, "..") {
        None
    } else {
        Some(start)
    }
}

/// Whether the file called `name` has the extension `wanted`.
pub fn has_extension(name: &str, wanted: &str) -> (result: bool)
    ensures
        result == (extension(name@) == Some(wanted@)),
{
    match extension_start_of(name) {
        Some(start) => same_text(split_text(name, start).1, wanted),
        None => false,
    }
}

/// The file name `name` without its extension; the result borrows from `name`.
pub fn file_stem_of<'a>(name: &'a str) -> (stem: &'a str)
    ensures
        stem@ == file_stem(name@),
{
    match extension_start_of(name) {
        Some(start) => split_text(name, start - 1).0,
        None => name,
    }
}

/// The extension of a file name is what follows its last dot, and the stem what stands before that
/// dot, as long as something does. A name without a dot, or with its only dot in front, is all
/// stem.
pub proof fn a_file_name_is_stem_dot_extension(stem: Seq<char>, after: Seq<char>, plain: Seq<char>)
    requires
        stem.len() > 0,
        !after.contains('.'),
        stem + seq!['.'] + after != seq!['.', '.'],
        !plain.contains('.'),
    ensures
        extension(stem + seq!['.'] + after) == Some(after),
        file_stem(stem + seq!['.'] + after) == stem,
        extension(plain) is None,
        file_stem(plain) == plain,
        extension(seq!['.'] + plain) is None,
        file_stem(seq!['.'] + plain) == seq!['.'] + plain,
        extension(seq!['.', '.']) is None,
{
    let name = stem + seq!['.'] + after;
    lemma_after_last_is(stem + seq!['.'], after);
    assert(name.skip(stem.len() as int + 1) =~= after);
    assert(name.take(stem.len() as int) =~= stem);
    lemma_after_last_is(Seq::empty(), plain);
    assert(Seq::<char>::empty() + plain =~= plain);
    lemma_after_last_is(seq!['.'], plain);
}

proof fn lemma_after_last_is(head: Seq<char>, tail: Seq<char>)
    requires
        !tail.contains('.'),
        head.len() == 0 || head.last() == '.',
    ensures
        after_last(head + tail, '.') == tail,
    decreases tail.len(),
{
    if tail.len() == 0 {
        assert(head + tail =~= head);
        assert(after_last(head, '.') =~= tail);
    } else {
        let shorter = tail.drop_last();
        if shorter.contains('.') {
            let i = choose|i: int| 0 <= i < shorter.len() && shorter[i] == '.';
            assert(tail[i] == '.');
        }
        assert(tail.contains(tail.last()));
        lemma_after_last_is(head, shorter);
        assert((head + tail).drop_last() =~= head + shorter);
        assert((head + tail).last() == tail.last());
        assert(shorter.push(tail.last()) =~= tail);
    }
}

} // verus!
