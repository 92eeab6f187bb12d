//! What the command line's values mean: the system prompt, and where the engine is.
use vstd::prelude::*;

use crate::files::{extension, has_extension};
use crate::std_items::is_white_space;
use crate::text::{trim, trim_of, trimming_takes_white_space_alone};

verus! {

/// What stands between the system prompt and the user's rules.
pub const RULES_HEADING: &'static str =
    "\n\nThe user's coding rules. Follow them in every answer, for the whole conversation:\n\n";

/// What the name of an engine's directory ends with.
pub const ENGINE_SUFFIX: &'static str = "-engine";

/// A system prompt with the user's rules appended.
pub open spec fn prompt_with_rules(system: Seq<char>, rules: Seq<char>) -> Seq<char> {
    system + RULES_HEADING@ + trim(rules)
}

/// The system prompt, with the rules file appended when there is one. `rules` is what the file at
/// `path` holds, or why it cannot be read; it must be readable where it is `required`, which it
/// is when the user named it.
pub fn system_prompt(
    system: &str,
    rules: Result<String, String>,
    required: bool,
    path: &str,
) -> (prompt: Result<String, String>)
    ensures
        match rules {
            Ok(rules) => prompt matches Ok(prompt) && prompt@ == system@ + RULES_HEADING@ + trim(
                rules@,
            ),
            Err(error) => if required {
                prompt matches Err(message) && message@ == "cannot read the rules file "@ + path@
                    + ": "@ + error@
            } else {
                prompt matches Ok(prompt) && prompt@ == system@
            },
        },
        rules matches Ok(rules) ==> prompt matches Ok(prompt) && prompt@ == prompt_with_rules(
            system@,
            rules@,
        ),
{
    match rules {
        Ok(rules) => {
            let mut prompt: String = system.to_owned();
            prompt.append(RULES_HEADING);
            prompt.append(trim_of(rules.as_str()));
            Ok(prompt)
        },
        Err(error) => {
            if required {
                let mut message: String = String::new();
                message.append("cannot read the rules file ");
                message.append(path);
                message.append(": ");
                message.append(error.as_str());
                Err(message)
            } else {
                Ok(system.to_owned())
            }
        },
    }
}

/// The bytes of the engine directory's path: the one that was given, or else
/// `<model_dir>-engine`.
pub fn engine_dir(engine: Option<Vec<u8>>, model_dir: &Vec<u8>) -> (path: Vec<u8>)
    ensures
        path@ == match engine {
            Some(engine) => engine@,
            None => model_dir@ + ENGINE_SUFFIX.view().map_values(|ch: char| ch as u8),
        },
{
    match engine {
        Some(engine) => engine,
        None => {
            proof {
                reveal_strlit("-engine");
            }
            let mut path: Vec<u8> = Vec::new();
            path.extend_from_slice(model_dir.as_slice());
            let suffix: [u8; 7] = [45, 101, 110, 103, 105, 110, 101];
            path.extend_from_slice(suffix.as_slice());
            assert(path@ =~= model_dir@ + ENGINE_SUFFIX.view().map_values(|ch: char| ch as u8));
            path
        },
    }
}

/// Whether the model in the file or directory called `name` is a GGUF model, for llama.cpp.
pub fn is_gguf(name: &str) -> (result: bool)
    ensures
        result == (extension(name@) == Some("gguf"@)),
{
    has_extension(name, "gguf")
}

/// The rules follow the system prompt, which stays as it is, behind a heading that tells the model
/// to follow them. All of the rules are there but the white space around them.
pub proof fn the_rules_follow_the_prompt(system: Seq<char>, rules: Seq<char>)
    ensures
        ({
            let heading =
                "\n\nThe user's coding rules. Follow them in every answer, for the whole conversation:\n\n"@;
            let prompt = prompt_with_rules(system, rules);
            exists|from: int, to: int|
                {
                    &&& 0 <= from <= to <= rules.len()
                    &&& prompt == system + heading + #[trigger] rules.subrange(from, to)
                    &&& forall|i: int|
                        0 <= i < rules.len() && !(from <= i < to) ==> is_white_space(
                            #[trigger] rules[i],
                        )
                    &&& from < to ==> !is_white_space(rules[from]) && !is_white_space(rules[to - 1])
                }
        }),
{
    trimming_takes_white_space_alone(rules);
    let (from, to) = choose|from: int, to: int|
        {
            &&& 0 <= from <= to <= rules.len()
            &&& trim(rules) == #[trigger] rules.subrange(from, to)
            &&& forall|i: int| 0 <= i < from ==> is_white_space(#[trigger] rules[i])
            &&& forall|i: int| to <= i < rules.len() ==> is_white_space(#[trigger] rules[i])
            &&& from < to ==> !is_white_space(rules[from]) && !is_white_space(rules[to - 1])
        };
    assert(prompt_with_rules(system, rules) == system + RULES_HEADING@ + rules.subrange(from, to));
}

} // verus!
