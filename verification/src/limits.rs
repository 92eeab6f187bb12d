//! How long a conversation can be: the limits of the engine and of its KV cache.
use vstd::prelude::*;

use crate::files::{a_file_name_is_stem_dot_extension, extension, has_extension};
use crate::memory;
use crate::text::{decimal, decimal_of, optional_text};

verus! {

/// The limits an engine was built with.
#[derive(Debug, Clone, Copy, PartialEq, Eq, Structural)]
pub struct EngineLimits {
    /// Longest prompt, conversation history included.
    pub max_input_len: usize,
    /// Longest prompt plus reply.
    pub max_seq_len: usize,
}

impl EngineLimits {
    /// A prompt of the greatest length is no longer than a whole sequence.
    pub open spec fn wf(self) -> bool {
        self.max_input_len <= self.max_seq_len
    }

    /// The tokens kept free for a reply to the longest prompt.
    pub open spec fn room_for_reply(self) -> nat {
        (self.max_seq_len - self.max_input_len) as nat
    }

    /// The longest prompt and the longest sequence once the KV cache holds only so many tokens:
    /// the sequence fits in it, and the prompt leaves the engine's room for a reply.
    pub open spec fn within(self, kv_cache_tokens: nat) -> (nat, nat) {
        let max_seq_len = if self.max_seq_len <= kv_cache_tokens {
            self.max_seq_len as nat
        } else {
            kv_cache_tokens
        };
        let shortened = if max_seq_len >= self.room_for_reply() {
            (max_seq_len - self.room_for_reply()) as nat
        } else {
            0
        };
        (
            if self.max_input_len <= shortened {
                self.max_input_len as nat
            } else {
                shortened
            },
            max_seq_len,
        )
    }

    /// The limits once the KV cache holds only `kv_cache_tokens`: the whole sequence must fit in
    /// it, still leaving the engine's room for a reply.
    pub fn within_kv_cache(self, kv_cache_tokens: usize) -> (limits: Self)
        requires
            self.wf(),
        ensures
            limits.wf(),
            (limits.max_input_len as nat, limits.max_seq_len as nat) == self.within(
                kv_cache_tokens as nat,
            ),
    {
        let room_for_reply: usize = self.max_seq_len - self.max_input_len;
        let max_seq_len: usize = if self.max_seq_len <= kv_cache_tokens {
            self.max_seq_len
        } else {
            kv_cache_tokens
        };
        let shortened: usize = max_seq_len.saturating_sub(room_for_reply);
        let max_input_len: usize = if self.max_input_len <= shortened {
            self.max_input_len
        } else {
            shortened
        };
        EngineLimits { max_input_len, max_seq_len }
    }
}

/// How the KV cache is stored.
#[derive(Debug)]
pub struct KvCacheQuantization {
    /// `INT8` or `FP8` when the KV cache is quantized; fp16 otherwise.
    pub kv_cache_quant_algo: Option<String>,
}

/// The model dimensions that decide how much memory each token's KV cache takes.
#[derive(Debug)]
pub struct ModelShape {
    pub num_hidden_layers: u64,
    pub num_key_value_heads: u64,
    pub head_size: u64,
    pub quantization: KvCacheQuantization,
}

impl ModelShape {
    /// Bytes of KV cache per token: a key and a value in every layer, two bytes each or one when
    /// quantized.
    pub open spec fn bytes_per_token(self) -> nat {
        let bytes_per_value: nat = if self.quantization.kv_cache_quant_algo is Some {
            1
        } else {
            2
        };
        2 * self.num_hidden_layers as nat * self.num_key_value_heads as nat * self.head_size as nat
            * bytes_per_value
    }

    /// Bytes of KV cache per token: a key and a value in every layer.
    pub fn kv_bytes_per_token(&self) -> (bytes: u64)
        requires
            2 * self.num_hidden_layers <= u64::MAX,
            2 * self.num_hidden_layers * self.num_key_value_heads <= u64::MAX,
            2 * self.num_hidden_layers * self.num_key_value_heads * self.head_size <= u64::MAX,
            self.bytes_per_token() <= u64::MAX,
        ensures
            bytes == self.bytes_per_token(),
    {
        let bytes_per_value: u64 = if self.quantization.kv_cache_quant_algo.is_some() {
            1
        } else {
            2
        };
        2 * self.num_hidden_layers * self.num_key_value_heads * self.head_size * bytes_per_value
    }
}

/// What the free memory allows.
#[derive(Debug, Clone, Copy, PartialEq, Eq, Structural)]
pub enum KvCachePlan {
    /// All the tokens that were asked for.
    AsRequested(u32),
    /// Fewer tokens than were asked for, to keep the system responsive.
    Limited(u32),
    /// Not even the smallest useful conversation fits; about this many bytes are needed.
    NotEnoughMemory { needed: u64 },
}

impl KvCachePlan {
    /// What the user is told: why the model is not loaded, or that the context is limited. The
    /// amounts are in GB, with one decimal.
    pub open spec fn explanation(
        self,
        requested: u32,
        available_gb: Seq<char>,
        needed_gb: Seq<char>,
    ) -> Option<Seq<char>> {
        match self {
            KvCachePlan::AsRequested(_) => None,
            KvCachePlan::Limited(tokens) => Some(
                "only "@ + available_gb + " GB of memory is free: context limited to "@ + decimal(
                    tokens as nat,
                ) + " tokens instead of "@ + decimal(requested as nat)
                    + " to keep the system responsive"@,
            ),
            KvCachePlan::NotEnoughMemory { .. } => Some(
                "not enough free memory: "@ + available_gb
                    + " GB available, but the model needs about "@ + needed_gb
                    + " GB plus room for the rest of the system. Close some applications (a web browser is often the largest) and try again."@,
            ),
        }
    }

    /// Explains the plan to the user, unless it is what they asked for.
    pub fn message(&self, requested: u32, available_gb: &str, needed_gb: &str) -> (message: Option<
        String,
    >)
        ensures
            optional_text(message) == self.explanation(requested, available_gb@, needed_gb@),
    {
        let mut message: String = String::new();
        match self {
            KvCachePlan::AsRequested(_) => {
                return None;
            },
            KvCachePlan::Limited(tokens) => {
                message.append("only ");
                message.append(available_gb);
                message.append(" GB of memory is free: context limited to ");
                message.append(decimal_of(*tokens as u128).as_str());
                message.append(" tokens instead of ");
                message.append(decimal_of(requested as u128).as_str());
                message.append(" to keep the system responsive");
            },
            KvCachePlan::NotEnoughMemory { .. } => {
                message.append("not enough free memory: ");
                message.append(available_gb);
                message.append(" GB available, but the model needs about ");
                message.append(needed_gb);
                message.append(
                    " GB plus room for the rest of the system. Close some applications (a web browser is often the largest) and try again.",
                );
            },
        }
        Some(message)
    }
}

/// The bytes that an engine needs with the smallest useful KV cache.
pub open spec fn needed_bytes(engine_bytes: nat, bytes_per_token: nat) -> nat {
    engine_bytes + memory::MIN_KV_CACHE_TOKENS as nat * bytes_per_token
}

/// Whether the KV cache that fits in `available` bytes is too small: fewer tokens than were asked
/// for, and fewer than the smallest useful conversation takes.
pub open spec fn too_small(
    requested: nat,
    available: nat,
    engine_bytes: nat,
    bytes_per_token: nat,
) -> bool {
    let tokens = memory::kv_cache_size(requested, available, engine_bytes, bytes_per_token);
    tokens < memory::MIN_KV_CACHE_TOKENS && tokens < requested
}

/// Tells whether the KV cache that fits in `available` bytes is too small.
pub fn cache_is_too_small(
    requested: u32,
    available: u64,
    engine_bytes: u64,
    bytes_per_token: u64,
) -> (result: bool)
    requires
        engine_bytes + memory::SYSTEM_HEADROOM <= u64::MAX,
    ensures
        result == too_small(
            requested as nat,
            available as nat,
            engine_bytes as nat,
            bytes_per_token as nat,
        ),
{
    let tokens: u32 = memory::kv_cache_tokens_that_fit(
        requested,
        available,
        engine_bytes,
        bytes_per_token,
    );
    tokens < memory::MIN_KV_CACHE_TOKENS && tokens < requested
}

/// How many tokens of KV cache to reserve: `requested`, or fewer if that would leave the rest of
/// the system short of memory. Without a figure for the free memory, there is nothing to weigh.
pub fn kv_cache_tokens_that_fit(
    requested: u32,
    available: Option<u64>,
    engine_bytes: u64,
    bytes_per_token: u64,
) -> (plan: KvCachePlan)
    requires
        available is Some ==> engine_bytes + memory::SYSTEM_HEADROOM <= u64::MAX,
        available matches Some(available) ==> too_small(
            requested as nat,
            available as nat,
            engine_bytes as nat,
            bytes_per_token as nat,
        ) ==> needed_bytes(engine_bytes as nat, bytes_per_token as nat) <= u64::MAX,
    ensures
        match available {
            None => plan == KvCachePlan::AsRequested(requested),
            Some(available) => {
                let tokens = memory::kv_cache_size(
                    requested as nat,
                    available as nat,
                    engine_bytes as nat,
                    bytes_per_token as nat,
                );
                if too_small(
                    requested as nat,
                    available as nat,
                    engine_bytes as nat,
                    bytes_per_token as nat,
                ) {
                    plan == KvCachePlan::NotEnoughMemory {
                        needed: needed_bytes(engine_bytes as nat, bytes_per_token as nat) as u64,
                    }
                } else if tokens < requested {
                    plan == KvCachePlan::Limited(tokens as u32)
                } else {
                    plan == KvCachePlan::AsRequested(requested)
                }
            },
        },
        plan matches KvCachePlan::Limited(tokens) ==> 4096 <= tokens < requested,
        plan matches KvCachePlan::AsRequested(tokens) ==> tokens == requested,
        plan matches KvCachePlan::NotEnoughMemory { needed } ==> needed == engine_bytes + 4096
            * bytes_per_token,
{
    let available: u64 = match available {
        Some(available) => available,
        None => {
            return KvCachePlan::AsRequested(requested);
        },
    };
    let tokens: u32 = memory::kv_cache_tokens_that_fit(
        requested,
        available,
        engine_bytes,
        bytes_per_token,
    );
    if cache_is_too_small(requested, available, engine_bytes, bytes_per_token) {
        KvCachePlan::NotEnoughMemory {
            needed: engine_bytes + memory::MIN_KV_CACHE_TOKENS as u64 * bytes_per_token,
        }
    } else if tokens < requested {
        KvCachePlan::Limited(tokens)
    } else {
        KvCachePlan::AsRequested(requested)
    }
}

/// A file of a directory, with its size in bytes.
#[derive(Debug)]
pub struct FileEntry {
    pub name: String,
    pub bytes: u64,
}

/// Whether a file is part of an engine: its extension says so.
pub open spec fn is_engine_name(name: Seq<char>) -> bool {
    extension(name) == Some("engine"@)
}

/// The total size of the engine files among some files.
pub open spec fn engine_bytes(files: Seq<FileEntry>) -> nat
    decreases files.len(),
{
    if files.len() == 0 {
        0
    } else {
        engine_bytes(files.drop_last()) + if is_engine_name(files.last().name@) {
            files.last().bytes as nat
        } else {
            0
        }
    }
}

proof fn lemma_engine_bytes_prefix(files: Seq<FileEntry>, count: int)
    requires
        0 <= count <= files.len(),
    ensures
        engine_bytes(files.take(count)) <= engine_bytes(files),
    decreases files.len(),
{
    if count < files.len() {
        lemma_engine_bytes_prefix(files.drop_last(), count);
        assert(files.drop_last().take(count) == files.take(count));
    } else {
        assert(files.take(count) == files);
    }
}

/// Whether the file called `name` is part of an engine.
pub fn is_engine_file(name: &str) -> (result: bool)
    ensures
        result == is_engine_name(name@),
{
    has_extension(name, "engine")
}

/// Total size of the engine files among `files`: about what the weights take in GPU memory.
pub fn engine_file_bytes(files: &Vec<FileEntry>) -> (total: u64)
    requires
        engine_bytes(files@) <= u64::MAX,
    ensures
        total == engine_bytes(files@),
{
    let mut total: u64 = 0;
    let mut index: usize = 0;
    while index < files.len()
        invariant
            index <= files.len(),
            engine_bytes(files@) <= u64::MAX,
            total == engine_bytes(files@.take(index as int)),
        decreases files.len() - index,
    {
        proof {
            lemma_engine_bytes_prefix(files@, index + 1);
            assert(files@.take(index + 1).drop_last() == files@.take(index as int));
        }
        if is_engine_file(files[index].name.as_str()) {
            total += files[index].bytes;
        }
        index += 1;
    }
    assert(files@.take(index as int) == files@);
    total
}

/// A smaller KV cache keeps room for a reply: a whole sequence fits in the cache, and a prompt of
/// the greatest length still leaves the reply as much room as the engine was built with. A cache
/// that holds the engine's whole sequence changes nothing.
pub proof fn smaller_cache_keeps_room_for_a_reply(built: EngineLimits, kv_cache_tokens: nat)
    requires
        built.wf(),
    ensures
        ({
            let (max_input_len, max_seq_len) = built.within(kv_cache_tokens);
            &&& max_seq_len <= kv_cache_tokens
            &&& max_input_len <= max_seq_len
            &&& max_input_len > 0 ==> max_input_len + built.room_for_reply() <= max_seq_len
            &&& kv_cache_tokens >= built.max_seq_len ==> (max_input_len, max_seq_len) == (
                built.max_input_len as nat,
                built.max_seq_len as nat,
            )
        }),
{
}

/// A model is loaded with at least 4096 tokens of KV cache, or with all that were asked for; and it
/// is refused only where the smaller of the two, in whole blocks of 64 tokens, does not fit beside
/// the engine with 1 GiB to spare. A token that takes no memory is counted as taking one byte.
pub proof fn a_model_is_loaded_with_a_useful_cache_or_not_at_all(
    requested: nat,
    available: nat,
    engine_bytes: nat,
    bytes_per_token: nat,
)
    ensures
        ({
            let tokens = memory::kv_cache_size(requested, available, engine_bytes, bytes_per_token);
            let per_token = if bytes_per_token > 0 {
                bytes_per_token
            } else {
                1
            };
            let least = if requested < 4096 {
                requested
            } else {
                4096
            };
            let blocks = (least + 63) / 64 * 64;
            let refused = too_small(requested, available, engine_bytes, bytes_per_token);
            &&& !refused ==> tokens >= 4096 || tokens == requested
            &&& refused <==> blocks > 0 && blocks * per_token + engine_bytes + 1_073_741_824
                > available
            &&& needed_bytes(engine_bytes, bytes_per_token) == engine_bytes + 4096 * bytes_per_token
        }),
{
    memory::the_cache_is_the_largest_that_fits(
        requested,
        available,
        engine_bytes,
        bytes_per_token,
    );
    let tokens = memory::kv_cache_size(requested, available, engine_bytes, bytes_per_token);
    let per_token = if bytes_per_token > 0 {
        bytes_per_token
    } else {
        1
    };
    let least = if requested < 4096 {
        requested
    } else {
        4096
    };
    let blocks = (least + 63) / 64 * 64;
    if tokens < least {
        assert(tokens + 64 <= blocks);
        assert((tokens + 64) * per_token <= blocks * per_token) by (nonlinear_arith)
            requires
                tokens + 64 <= blocks,
        ;
    } else if blocks > 0 {
        if tokens < requested {
            assert(blocks <= tokens);
            assert(blocks * per_token <= tokens * per_token) by (nonlinear_arith)
                requires
                    blocks <= tokens,
            ;
        } else {
            memory::lemma_whole_blocks(requested, available, engine_bytes, bytes_per_token, blocks);
        }
    }
}

/// The cache fits, and only what does not is cut: a model whose engine and longest sequence fit
/// keeps its limits, and each token of the prompt limit that is lost is one that the cache lacks.
pub proof fn the_prompt_gives_way_to_the_reply(built: EngineLimits, kv_cache_tokens: nat)
    requires
        built.wf(),
    ensures
        ({
            let (max_input_len, max_seq_len) = built.within(kv_cache_tokens);
            let lost = built.max_seq_len - kv_cache_tokens;
            if lost <= 0 {
                max_seq_len == built.max_seq_len && max_input_len == built.max_input_len
            } else {
                &&& max_seq_len == kv_cache_tokens
                &&& max_input_len == if built.max_input_len >= lost {
                    built.max_input_len - lost
                } else {
                    0
                }
            }
        }),
{
}

/// Each token takes a key and a value in every layer and for every head: four bytes for each of
/// their numbers, or two where the cache is quantized.
pub proof fn each_token_takes_a_key_and_a_value(shape: ModelShape)
    ensures
        shape.bytes_per_token() == shape.num_hidden_layers * shape.num_key_value_heads
            * shape.head_size * if shape.quantization.kv_cache_quant_algo is Some {
            2int
        } else {
            4int
        },
{
    let layers = shape.num_hidden_layers as int;
    let heads = shape.num_key_value_heads as int;
    let size = shape.head_size as int;
    assert(2 * layers * heads * size * 1 == layers * heads * size * 2) by (nonlinear_arith);
    assert(2 * layers * heads * size * 2 == layers * heads * size * 4) by (nonlinear_arith);
}

/// The size of an engine is that of its files, those whose name ends in `.engine`, and of no
/// others.
pub proof fn an_engine_is_as_large_as_its_files(files: Seq<FileEntry>, file: FileEntry)
    ensures
        engine_bytes(Seq::empty()) == 0,
        engine_bytes(files.push(file)) == engine_bytes(files) + if is_engine_name(file.name@) {
            file.bytes as int
        } else {
            0int
        },
        forall|stem: Seq<char>|
            stem.len() > 0 ==> #[trigger] is_engine_name(stem + seq!['.'] + "engine"@),
        forall|stem: Seq<char>, other: Seq<char>|
            stem.len() > 0 && !other.contains('.') && other != "engine"@
                ==> !#[trigger] is_engine_name(stem + seq!['.'] + other),
        forall|name: Seq<char>| !name.contains('.') ==> !#[trigger] is_engine_name(name),
{
    reveal_strlit("engine");
    assert(files.push(file).drop_last() =~= files);
    assert(!"engine"@.contains('.'));
    let none = Seq::<char>::empty();
    assert forall|stem: Seq<char>| stem.len() > 0 implies #[trigger] is_engine_name(
        stem + seq!['.'] + "engine"@,
    ) by {
        assert((stem + seq!['.'] + "engine"@).len() > 2);
        a_file_name_is_stem_dot_extension(stem, "engine"@, none);
    }
    assert forall|stem: Seq<char>, other: Seq<char>|
        stem.len() > 0 && !other.contains('.') && other != "engine"@ implies !#[trigger] is_engine_name(
        stem + seq!['.'] + other,
    ) by {
        let name = stem + seq!['.'] + other;
        if name == seq!['.', '.'] {
            a_file_name_is_stem_dot_extension(seq!['a'], none, none);
        } else {
            a_file_name_is_stem_dot_extension(stem, other, none);
        }
    }
    assert forall|name: Seq<char>| !name.contains('.') implies !#[trigger] is_engine_name(name) by {
        a_file_name_is_stem_dot_extension(seq!['a'], none, name);
    }
}

/// The user is told that the context is limited, to how many tokens and instead of how many; or that
/// the model does not fit, how much memory is free and how much it needs. Where all is as asked for,
/// nothing is said.
pub proof fn a_smaller_cache_is_explained(
    plan: KvCachePlan,
    requested: u32,
    available_gb: Seq<char>,
    needed_gb: Seq<char>,
)
    ensures
        match plan {
            KvCachePlan::AsRequested(_) => plan.explanation(requested, available_gb, needed_gb) is None,
            KvCachePlan::Limited(tokens) => plan.explanation(requested, available_gb, needed_gb)
                == Some(
                "only "@ + available_gb + " GB of memory is free: context limited to "@ + decimal(
                    tokens as nat,
                ) + " tokens instead of "@ + decimal(requested as nat)
                    + " to keep the system responsive"@,
            ),
            KvCachePlan::NotEnoughMemory { .. } => exists|advice: Seq<char>|
                plan.explanation(requested, available_gb, needed_gb) == Some(
                    "not enough free memory: "@ + available_gb
                        + " GB available, but the model needs about "@ + needed_gb
                        + #[trigger] (" GB"@ + advice),
                ),
        },
{
    if plan is NotEnoughMemory {
        let tail =
            " GB plus room for the rest of the system. Close some applications (a web browser is often the largest) and try again."@;
        reveal_strlit(" GB");
        reveal_strlit(
            " GB plus room for the rest of the system. Close some applications (a web browser is often the largest) and try again.",
        );
        let advice = tail.skip(3);
        assert(" GB"@ + advice =~= tail);
    }
}

} // verus!
