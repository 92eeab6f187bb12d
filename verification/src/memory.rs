//! Fitting the model into memory without pushing the rest of the system into swap. On boards
//! where the GPU shares memory with the CPU, whatever the engine takes the desktop loses.
use vstd::prelude::*;

use crate::std_items::is_white_space;
use crate::text::{
    lemma_position_bounds, lines, lines_end_at_line_feeds, lines_of, number, parse_u64, position,
    starts_with, starts_with_text, views, words, words_are_between_white_space, words_of,
};

verus! {

/// Memory left for the rest of the system once the model is loaded, in bytes.
pub const SYSTEM_HEADROOM: u64 = 1_073_741_824;

/// The KV cache is stored in blocks of this many tokens.
pub const TOKENS_PER_BLOCK: u64 = 64;

/// Below this, a conversation barely fits one question and its answer.
pub const MIN_KV_CACHE_TOKENS: u32 = 4096;

/// The first of some lines that begins with `prefix`.
pub open spec fn first_with_prefix(all: Seq<Seq<char>>, prefix: Seq<char>) -> Option<Seq<char>>
    decreases all.len(),
{
    if all.len() == 0 {
        None
    } else if starts_with(all[0], prefix) {
        Some(all[0])
    } else {
        first_with_prefix(all.drop_first(), prefix)
    }
}

/// The number of KiB on the `MemAvailable:` line of `/proc/meminfo`, if there is such a line and
/// the word after the label is a number of at most 64 bits.
pub open spec fn available_kib(meminfo: Seq<char>) -> Option<u64> {
    match first_with_prefix(lines(meminfo), "MemAvailable:"@) {
        Some(line) => if words(line).len() >= 2 {
            match number(words(line)[1]) {
                Some(kib) if kib <= u64::MAX => Some(kib as u64),
                _ => None,
            }
        } else {
            None
        },
        None => None,
    }
}

/// The memory that `/proc/meminfo` gives as available, in KiB.
pub fn available_kib_in(meminfo: &str) -> (kib: Option<u64>)
    ensures
        kib == available_kib(meminfo@),
{
    let all: Vec<&str> = lines_of(meminfo);
    let mut index: usize = 0;
    assert(views(all@).skip(0) == views(all@));
    while index < all.len()
        invariant
            index <= all.len(),
            views(all@) == lines(meminfo@),
            first_with_prefix(lines(meminfo@), "MemAvailable:"@) == first_with_prefix(
                views(all@).skip(index as int),
                "MemAvailable:"@,
            ),
        decreases all.len() - index,
    {
        let line: &str = all[index];
        proof {
            let rest = views(all@).skip(index as int);
            assert(rest[0] == line@);
            assert(rest.drop_first() == views(all@).skip(index + 1));
        }
        if starts_with_text(line, "MemAvailable:") {
            let fields: Vec<&str> = words_of(line);
            assert(views(fields@).len() == fields@.len());
            if fields.len() < 2 {
                return None;
            }
            assert(views(fields@)[1] == fields@[1]@);
            return parse_u64(fields[1]);
        }
        index += 1;
    }
    None
}

/// Memory the kernel can hand out without swapping, in bytes, as `/proc/meminfo` gives it.
pub fn available_bytes(meminfo: &str) -> (bytes: Option<u64>)
    requires
        available_kib(meminfo@) matches Some(kib) ==> kib * 1024 <= u64::MAX,
    ensures
        bytes == match available_kib(meminfo@) {
            Some(kib) => Some((kib * 1024) as u64),
            None => None,
        },
{
    match available_kib_in(meminfo) {
        Some(kib) => Some(kib * 1024),
        None => None,
    }
}

/// The memory that the KV cache may take, in bytes: what is left of `available` after the engine
/// and the headroom for the rest of the system.
pub open spec fn budget(available: nat, engine_bytes: nat) -> nat {
    if available >= engine_bytes + SYSTEM_HEADROOM {
        (available - engine_bytes - SYSTEM_HEADROOM) as nat
    } else {
        0
    }
}

/// The tokens of the whole blocks that fit in `budget` bytes. A token that takes no memory is
/// counted as taking one byte.
pub open spec fn whole_block_tokens(budget: nat, bytes_per_token: nat) -> nat {
    let per_token = if bytes_per_token == 0 {
        1
    } else {
        bytes_per_token
    };
    budget / per_token / TOKENS_PER_BLOCK as nat * TOKENS_PER_BLOCK as nat
}

/// The size of the KV cache: whole blocks within the budget, and no more than is asked for.
pub open spec fn kv_cache_size(
    requested: nat,
    available: nat,
    engine_bytes: nat,
    bytes_per_token: nat,
) -> nat {
    let tokens = whole_block_tokens(budget(available, engine_bytes), bytes_per_token);
    if tokens <= requested {
        tokens
    } else {
        requested
    }
}

/// The largest KV cache, up to `requested` tokens, that fits in `available` bytes next to an
/// engine of `engine_bytes`, leaving [`SYSTEM_HEADROOM`].
pub fn kv_cache_tokens_that_fit(
    requested: u32,
    available: u64,
    engine_bytes: u64,
    bytes_per_token: u64,
) -> (tokens: u32)
    requires
        engine_bytes + SYSTEM_HEADROOM <= u64::MAX,
    ensures
        tokens == kv_cache_size(
            requested as nat,
            available as nat,
            engine_bytes as nat,
            bytes_per_token as nat,
        ),
        tokens <= requested,
        tokens > 0 ==> tokens * bytes_per_token + engine_bytes + 1_073_741_824 <= available,
        tokens < requested ==> tokens % 64 == 0,
{
    proof {
        the_cache_is_the_largest_that_fits(
            requested as nat,
            available as nat,
            engine_bytes as nat,
            bytes_per_token as nat,
        );
    }
    let budget: u64 = available.saturating_sub(engine_bytes + SYSTEM_HEADROOM);
    let per_token: u64 = if bytes_per_token == 0 {
        1
    } else {
        bytes_per_token
    };
    let blocks: u64 = budget / per_token / TOKENS_PER_BLOCK;
    assert(blocks * TOKENS_PER_BLOCK <= budget / per_token <= budget) by {
        vstd::arithmetic::div_mod::lemma_div_is_ordered_by_denominator(
            budget as int,
            1,
            per_token as int,
        );
    }
    let tokens: u64 = blocks * TOKENS_PER_BLOCK;
    if tokens <= requested as u64 {
        tokens as u32
    } else {
        requested
    }
}

/// The cache, the engine and the headroom together never exceed the memory that is available,
/// unless the cache is empty.
pub proof fn cache_leaves_the_headroom(
    requested: nat,
    available: nat,
    engine_bytes: nat,
    bytes_per_token: nat,
)
    ensures
        ({
            let tokens = kv_cache_size(requested, available, engine_bytes, bytes_per_token);
            &&& tokens <= requested
            &&& tokens > 0 ==> tokens * bytes_per_token + engine_bytes + SYSTEM_HEADROOM
                <= available
        }),
{
    let tokens = kv_cache_size(requested, available, engine_bytes, bytes_per_token);
    let room = budget(available, engine_bytes);
    let per_token = if bytes_per_token == 0 {
        1
    } else {
        bytes_per_token
    };
    let whole = whole_block_tokens(room, bytes_per_token);
    assert(whole <= room / per_token);
    vstd::arithmetic::div_mod::lemma_fundamental_div_mod(room as int, per_token as int);
    assert(tokens * bytes_per_token <= room) by (nonlinear_arith)
        requires
            tokens <= whole,
            whole <= room / per_token,
            per_token > 0,
            bytes_per_token <= per_token,
            room == per_token * (room / per_token) + room % per_token,
            room % per_token >= 0,
    ;
    if room == 0 {
        assert(room / per_token == 0) by {
            vstd::arithmetic::div_mod::lemma_basic_div(room as int, per_token as int);
        }
    }
}

/// A cache smaller than what was asked for is made of whole blocks, and one more block would not
/// have fitted.
pub proof fn shrunk_cache_is_whole_blocks_and_maximal(
    requested: nat,
    available: nat,
    engine_bytes: nat,
    bytes_per_token: nat,
)
    requires
        bytes_per_token > 0,
    ensures
        ({
            let tokens = kv_cache_size(requested, available, engine_bytes, bytes_per_token);
            tokens < requested ==> {
                &&& tokens % TOKENS_PER_BLOCK as nat == 0
                &&& (tokens + TOKENS_PER_BLOCK) * bytes_per_token + engine_bytes + SYSTEM_HEADROOM
                    > available
            }
        }),
{
    let tokens = kv_cache_size(requested, available, engine_bytes, bytes_per_token);
    let room = budget(available, engine_bytes);
    let fit = room / bytes_per_token;
    vstd::arithmetic::div_mod::lemma_fundamental_div_mod(room as int, bytes_per_token as int);
    if tokens < requested {
        assert(tokens + TOKENS_PER_BLOCK >= fit + 1);
        assert((tokens + TOKENS_PER_BLOCK) * bytes_per_token > room) by (nonlinear_arith)
            requires
                tokens + TOKENS_PER_BLOCK >= fit + 1,
                room == bytes_per_token * fit + room % bytes_per_token,
                room % bytes_per_token < bytes_per_token,
                bytes_per_token > 0,
        ;
    }
}

/// More available memory never gives a smaller cache.
pub proof fn more_memory_never_shrinks_the_cache(
    requested: nat,
    less: nat,
    more: nat,
    engine_bytes: nat,
    bytes_per_token: nat,
)
    requires
        less <= more,
    ensures
        kv_cache_size(requested, less, engine_bytes, bytes_per_token) <= kv_cache_size(
            requested,
            more,
            engine_bytes,
            bytes_per_token,
        ),
{
    let per_token = if bytes_per_token == 0 {
        1
    } else {
        bytes_per_token
    };
    vstd::arithmetic::div_mod::lemma_div_is_ordered(
        budget(less, engine_bytes) as int,
        budget(more, engine_bytes) as int,
        per_token as int,
    );
}

/// The KV cache is as large as the memory allows, in whole blocks of 64 tokens, and no larger than
/// was asked for. It fits beside the engine with 1 GiB to spare, and one more block would not. A
/// token that takes no memory is counted as taking one byte.
pub proof fn the_cache_is_the_largest_that_fits(
    requested: nat,
    available: nat,
    engine_bytes: nat,
    bytes_per_token: nat,
)
    ensures
        ({
            let tokens = kv_cache_size(requested, available, engine_bytes, bytes_per_token);
            let per_token = if bytes_per_token > 0 {
                bytes_per_token
            } else {
                1
            };
            &&& tokens <= requested
            &&& tokens > 0 ==> tokens * per_token + engine_bytes + 1_073_741_824 <= available
            &&& tokens < requested ==> tokens % 64 == 0 && (tokens + 64) * per_token + engine_bytes
                + 1_073_741_824 > available
        }),
{
    let tokens = kv_cache_size(requested, available, engine_bytes, bytes_per_token);
    let per_token = if bytes_per_token > 0 {
        bytes_per_token
    } else {
        1
    };
    let room = budget(available, engine_bytes);
    let fit = room / per_token;
    let whole = whole_block_tokens(room, bytes_per_token);
    vstd::arithmetic::div_mod::lemma_fundamental_div_mod(room as int, per_token as int);
    assert(whole == fit / 64 * 64);
    assert(tokens * per_token <= room) by (nonlinear_arith)
        requires
            tokens <= fit,
            per_token > 0,
            room == per_token * fit + room % per_token,
            room % per_token >= 0,
    ;
    if room == 0 {
        assert(fit == 0) by {
            vstd::arithmetic::div_mod::lemma_basic_div(room as int, per_token as int);
        }
    }
    assert((whole + 64) * per_token > room) by (nonlinear_arith)
        requires
            whole + 64 >= fit + 1,
            per_token > 0,
            room == per_token * fit + room % per_token,
            room % per_token < per_token,
    ;
}

/// The free memory is read from the first line that begins with `MemAvailable:`, as the word after
/// the label. Other lines before it do not matter, nor does anything after it.
pub proof fn the_free_memory_is_on_its_line(before: Seq<char>, amount: Seq<char>, after: Seq<char>)
    requires
        amount.len() > 0,
        forall|i: int| 0 <= i < amount.len() ==> !is_white_space(#[trigger] amount[i]),
        before.len() > 0 ==> before.last() == '\n',
        forall|i: int|
            0 <= i < lines(before).len() ==> !"MemAvailable:"@.is_prefix_of(
                #[trigger] lines(before)[i],
            ),
    ensures
        available_kib(before + "MemAvailable: "@ + amount + " kB\n"@ + after) == match number(
            amount,
        ) {
            Some(kib) => if kib <= u64::MAX {
                Some(kib as u64)
            } else {
                None
            },
            None => None,
        },
        available_kib(before) is None,
{
    lemma_first_with_prefix(lines(before), Seq::empty(), "MemAvailable:"@);
    assert(lines(before) + Seq::<Seq<char>>::empty() =~= lines(before));
    reveal_strlit("MemAvailable:");
    reveal_strlit("MemAvailable: ");
    reveal_strlit(" kB\n");
    let line = "MemAvailable: "@ + amount + seq![' ', 'k', 'B'];
    let text = before + "MemAvailable: "@ + amount + " kB\n"@ + after;
    assert(text =~= before + (line + seq!['\n'] + after));
    lemma_lines_concat(before, line + seq!['\n'] + after);
    assert(!line.contains('\n')) by {
        if line.contains('\n') {
            let i = choose|i: int| 0 <= i < line.len() && line[i] == '\n';
            if 14 <= i < 14 + amount.len() {
                assert(line[i] == amount[i - 14]);
            }
        }
    }
    lines_end_at_line_feeds(line, after);
    assert(line.last() == 'B');
    let rest = seq![line] + lines(after);
    assert(lines(text) =~= lines(before) + rest);
    lemma_first_with_prefix(lines(before), rest, "MemAvailable:"@);
    assert("MemAvailable:"@.is_prefix_of(line)) by {
        assert(line.subrange(0, 13) =~= "MemAvailable:"@);
    }
    assert(rest[0] == line);
    assert(first_with_prefix(rest, "MemAvailable:"@) == Some(line));
    // The words of the line.
    let label = "MemAvailable:"@;
    let unit = seq!['k', 'B'];
    let none = Seq::<char>::empty();
    let second = seq![' '] + amount + seq![' ', 'k', 'B'];
    words_are_between_white_space(none, label, second);
    assert(none + label + second =~= line);
    words_are_between_white_space(seq![' '], amount, seq![' ', 'k', 'B']);
    assert(words(line) =~= seq![label] + words(second));
    assert(words(second) =~= seq![amount] + words(seq![' ', 'k', 'B']));
    assert(words(line)[1] == amount);
    assert(words(line).len() >= 2);
}

proof fn lemma_lines_concat(first: Seq<char>, second: Seq<char>)
    requires
        first.len() > 0 ==> first.last() == '\n',
    ensures
        lines(first + second) == lines(first) + lines(second),
    decreases first.len(),
{
    if first.len() == 0 {
        assert(first + second =~= second);
        assert(lines(first) + lines(second) =~= lines(second));
    } else {
        let stop = |ch: char| ch == '\n';
        lemma_position_bounds(first, stop);
        let end = position(first, stop) as int;
        assert(end < first.len()) by {
            if end == first.len() {
                assert(!stop(first[first.len() - 1]));
            }
        }
        let line = first.take(end);
        let rest = first.skip(end + 1);
        assert(!line.contains('\n')) by {
            if line.contains('\n') {
                let i = choose|i: int| 0 <= i < line.len() && line[i] == '\n';
                assert(!stop(first[i]));
            }
        }
        lines_end_at_line_feeds(line, rest);
        lines_end_at_line_feeds(line, rest + second);
        assert(first =~= line + seq!['\n'] + rest);
        assert(first + second =~= line + seq!['\n'] + (rest + second));
        if rest.len() > 0 {
            assert(rest.last() == first.last());
        }
        lemma_lines_concat(rest, second);
        assert(lines(first + second) =~= lines(first) + lines(second));
    }
}

proof fn lemma_first_with_prefix(
    before: Seq<Seq<char>>,
    rest: Seq<Seq<char>>,
    prefix: Seq<char>,
)
    requires
        forall|i: int| 0 <= i < before.len() ==> !prefix.is_prefix_of(#[trigger] before[i]),
    ensures
        first_with_prefix(before + rest, prefix) == first_with_prefix(rest, prefix),
    decreases before.len(),
{
    if before.len() == 0 {
        assert(before + rest =~= rest);
    } else {
        let all = before + rest;
        assert(all[0] == before[0]);
        assert(all.drop_first() =~= before.drop_first() + rest);
        lemma_first_with_prefix(before.drop_first(), rest, prefix);
    }
}

/// Where all the tokens that were asked for fit in whole blocks, so do the blocks they begin.
pub proof fn lemma_whole_blocks(
    requested: nat,
    available: nat,
    engine_bytes: nat,
    bytes_per_token: nat,
    blocks: nat,
)
    requires
        kv_cache_size(requested, available, engine_bytes, bytes_per_token) == requested,
        requested > 0,
        blocks % 64 == 0,
        blocks < requested + 64,
    ensures
        blocks * (if bytes_per_token > 0 {
            bytes_per_token
        } else {
            1
        }) + engine_bytes + 1_073_741_824 <= available,
{
    let per_token = if bytes_per_token > 0 {
        bytes_per_token
    } else {
        1
    };
    let room = budget(available, engine_bytes);
    let fit = room / per_token;
    let whole = whole_block_tokens(room, bytes_per_token);
    vstd::arithmetic::div_mod::lemma_fundamental_div_mod(room as int, per_token as int);
    assert(whole == fit / 64 * 64);
    assert(blocks <= whole);
    assert(blocks * per_token <= room) by (nonlinear_arith)
        requires
            blocks <= fit,
            per_token > 0,
            room == per_token * fit + room % per_token,
            room % per_token >= 0,
    ;
    if room == 0 {
        assert(fit == 0) by {
            vstd::arithmetic::div_mod::lemma_basic_div(room as int, per_token as int);
        }
    }
}

} // verus!
