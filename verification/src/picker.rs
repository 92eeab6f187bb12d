//! Choosing a model at startup: which of the files under the models directory are models, and
//! picking one of them with the arrow keys.
use std::borrow::Cow;

use vstd::prelude::*;
use vstd::utf8::encode_utf8;

use crate::event::{KeyCode, KeyEvent, CONTROL};
use crate::files::{
    a_file_name_is_stem_dot_extension, extension, file_stem, file_stem_of, has_extension,
};
use crate::limits::{
    an_engine_is_as_large_as_its_files, engine_bytes, engine_file_bytes, is_engine_file,
    is_engine_name, FileEntry,
};
use crate::style::{accent, line_views, muted, span_views, Line, LineView, Span, SpanView, Style};
use crate::markdown::spaces;
use crate::terminal::{
    corners_of, line_width, may_split, split, texts_width, Area, Room, Spare,
};
use crate::text::{
    a_suffix_is_stripped_from_its_end, before, comes_before, lemma_before_total, lemma_before_transitive, starts_with,
    starts_with_text, strip_suffix, strip_suffix_of,
};

verus! {

/// The engine of models that were built for TensorRT-LLM.
pub const TENSORRT: &'static str = "TensorRT-LLM";

/// The engine of GGUF models.
pub const LLAMA_CPP: &'static str = "llama.cpp";

/// A model that can be loaded.
#[derive(Debug)]
pub struct ModelChoice {
    pub name: String,
    pub engine: &'static str,
    /// The bytes of the path of a Hugging Face model directory (TensorRT-LLM) or a .gguf file
    /// (llama.cpp).
    pub path: Vec<u8>,
    pub bytes: u64,
}

/// A choice as mathematical values.
#[verifier::ext_equal]
pub struct ChoiceView {
    pub name: Seq<char>,
    pub engine: Seq<char>,
    pub path: Seq<u8>,
    pub bytes: nat,
}

impl View for ModelChoice {
    type V = ChoiceView;

    open spec fn view(&self) -> ChoiceView {
        ChoiceView {
            name: self.name@,
            engine: self.engine@,
            path: self.path@,
            bytes: self.bytes as nat,
        }
    }
}

/// The views of some choices.
pub open spec fn choice_views(choices: Seq<ModelChoice>) -> Seq<ChoiceView> {
    choices.map_values(|choice: ModelChoice| choice@)
}

/// A directory that may hold an engine.
#[derive(Debug)]
pub struct EngineDir {
    /// The directory's name, if it is Unicode.
    pub name: Option<String>,
    pub files: Vec<FileEntry>,
    /// The bytes of the path of the model directory next to it.
    pub model_path: Vec<u8>,
    /// Whether that directory has a tokenizer.
    pub has_tokenizer: bool,
}

/// The name of the model whose engine is in the directory called `engine_dir`.
pub open spec fn model_of(engine_dir: Seq<char>) -> Option<Seq<char>> {
    strip_suffix(engine_dir, "-engine"@)
}

/// The name of the model whose engine is in the directory called `engine_dir`: `<name>-engine`.
pub fn model_name<'a>(engine_dir: &'a str) -> (name: Option<&'a str>)
    ensures
        match name {
            Some(name) => model_of(engine_dir@) == Some(name@),
            None => model_of(engine_dir@) is None,
        },
{
    strip_suffix_of(engine_dir, "-engine")
}

/// Whether some of the files are part of an engine.
pub open spec fn holds_engine(files: Seq<FileEntry>) -> bool {
    exists|i: int| 0 <= i < files.len() && is_engine_name((#[trigger] files[i]).name@)
}

/// The model whose engine is in a directory, if it is complete: the directory is called after the
/// model and holds engine files, and the model has a tokenizer.
pub open spec fn tensorrt_model(dir: EngineDir) -> Option<ChoiceView> {
    match dir.name {
        Some(name) => match model_of(name@) {
            Some(model) => if holds_engine(dir.files@) && dir.has_tokenizer {
                Some(
                    ChoiceView {
                        name: model,
                        engine: TENSORRT@,
                        path: dir.model_path@,
                        bytes: engine_bytes(dir.files@),
                    },
                )
            } else {
                None
            },
            None => None,
        },
        None => None,
    }
}

/// The models whose engines are in some directories.
pub open spec fn tensorrt_choices(dirs: Seq<EngineDir>) -> Seq<ChoiceView>
    decreases dirs.len(),
{
    if dirs.len() == 0 {
        Seq::empty()
    } else {
        let earlier = tensorrt_choices(dirs.drop_last());
        match tensorrt_model(dirs.last()) {
            Some(choice) => earlier.push(choice),
            None => earlier,
        }
    }
}

/// Whether the sizes of the engines can be counted.
pub open spec fn sizes_fit(dirs: Seq<EngineDir>) -> bool {
    forall|i: int| 0 <= i < dirs.len() ==> engine_bytes((#[trigger] dirs[i]).files@) <= u64::MAX
}

fn has_engine(files: &Vec<FileEntry>) -> (result: bool)
    ensures
        result == holds_engine(files@),
{
    for index in 0..files.len()
        invariant
            forall|i: int| 0 <= i < index ==> !is_engine_name((#[trigger] files@[i]).name@),
    {
        if is_engine_file(files[index].name.as_str()) {
            assert(is_engine_name(files@[index as int].name@));
            return true;
        }
    }
    false
}

/// `<name>-engine/` directories next to their Hugging Face model directory `<name>/`.
pub fn tensorrt_models(dirs: Vec<EngineDir>) -> (choices: Vec<ModelChoice>)
    requires
        sizes_fit(dirs@),
    ensures
        choice_views(choices@) == tensorrt_choices(dirs@),
{
    let mut choices: Vec<ModelChoice> = Vec::new();
    assert(choice_views(choices@) =~= Seq::empty());
    assert(dirs@.take(0) =~= Seq::empty());
    for dir in iter: dirs
        invariant
            iter.seq() == dirs@,
            sizes_fit(dirs@),
            choice_views(choices@) == tensorrt_choices(dirs@.take(iter.index())),
    {
        let ghost earlier = choice_views(choices@);
        let ghost seen = dirs@.take(iter.index() + 1);
        proof {
            assert(seen.drop_last() =~= dirs@.take(iter.index()));
            assert(seen.last() == dir);
            assert(engine_bytes(dirs@[iter.index()].files@) <= u64::MAX);
        }
        let model: Option<&str> = match &dir.name {
            Some(name) => model_name(name.as_str()),
            None => None,
        };
        if let Some(model) = model {
            if has_engine(&dir.files) && dir.has_tokenizer {
                let bytes: u64 = engine_file_bytes(&dir.files);
                let name: String = model.to_owned();
                choices.push(ModelChoice { name, engine: TENSORRT, path: dir.model_path, bytes });
                assert(choice_views(choices@) =~= earlier.push(tensorrt_model(seen.last())->0));
            }
        }
    }
    assert(dirs@.take(dirs@.len() as int) =~= dirs@);
    choices
}

/// A file that may be a GGUF model.
#[derive(Debug)]
pub struct GgufFile {
    /// The file's name, if it is Unicode.
    pub name: Option<String>,
    /// The bytes of its path.
    pub path: Vec<u8>,
    pub bytes: u64,
}

/// What a directory of GGUF models holds.
#[derive(Debug)]
pub enum GgufEntry {
    File(GgufFile),
    /// A subdirectory and what it holds.
    Directory(Vec<GgufFile>),
}

/// The files of some entries: those of the directory itself, and those one level down.
pub open spec fn gguf_files(entries: Seq<GgufEntry>) -> Seq<GgufFile>
    decreases entries.len(),
{
    if entries.len() == 0 {
        Seq::empty()
    } else {
        gguf_files(entries.drop_last()) + match entries.last() {
            GgufEntry::File(file) => seq![file],
            GgufEntry::Directory(files) => files@,
        }
    }
}

/// The model that a file holds: a .gguf file does, unless it is a vision projector.
pub open spec fn gguf_model(file: GgufFile) -> Option<ChoiceView> {
    match file.name {
        Some(name) => if extension(name@) == Some("gguf"@) && !starts_with(
            file_stem(name@),
            "mmproj"@,
        ) {
            Some(
                ChoiceView {
                    name: file_stem(name@),
                    engine: LLAMA_CPP@,
                    path: file.path@,
                    bytes: file.bytes as nat,
                },
            )
        } else {
            None
        },
        None => None,
    }
}

/// The models that some files hold.
pub open spec fn gguf_choices(files: Seq<GgufFile>) -> Seq<ChoiceView>
    decreases files.len(),
{
    if files.len() == 0 {
        Seq::empty()
    } else {
        let earlier = gguf_choices(files.drop_last());
        match gguf_model(files.last()) {
            Some(choice) => earlier.push(choice),
            None => earlier,
        }
    }
}

/// Adds the model that a file holds, if it holds one.
fn add_gguf_model(choices: &mut Vec<ModelChoice>, file: GgufFile)
    ensures
        choice_views(final(choices)@) == match gguf_model(file) {
            Some(choice) => choice_views(old(choices)@).push(choice),
            None => choice_views(old(choices)@),
        },
{
    if let Some(name) = &file.name {
        let stem: &str = file_stem_of(name.as_str());
        if has_extension(name.as_str(), "gguf") && !starts_with_text(stem, "mmproj") {
            let name: String = stem.to_owned();
            let ghost earlier = choice_views(choices@);
            choices.push(
                ModelChoice { name, engine: LLAMA_CPP, path: file.path, bytes: file.bytes },
            );
            assert(choice_views(choices@) =~= earlier.push(gguf_model(file)->0));
        }
    }
}

/// .gguf files of a directory and its subdirectories (vision projectors excluded).
pub fn gguf_models(entries: Vec<GgufEntry>) -> (choices: Vec<ModelChoice>)
    ensures
        choice_views(choices@) == gguf_choices(gguf_files(entries@)),
{
    let mut choices: Vec<ModelChoice> = Vec::new();
    assert(choice_views(choices@) =~= Seq::empty());
    assert(entries@.take(0) =~= Seq::empty());
    for entry in iter: entries
        invariant
            iter.seq() == entries@,
            choice_views(choices@) == gguf_choices(gguf_files(entries@.take(iter.index()))),
    {
        let ghost before = gguf_files(entries@.take(iter.index()));
        let ghost seen = entries@.take(iter.index() + 1);
        proof {
            assert(seen.drop_last() =~= entries@.take(iter.index()));
            assert(seen.last() == entry);
        }
        match entry {
            GgufEntry::File(file) => {
                proof {
                    assert((before + seq![file]).drop_last() =~= before);
                    assert((before + seq![file]).last() == file);
                }
                add_gguf_model(&mut choices, file);
            },
            GgufEntry::Directory(files) => {
                assert(before + files@.take(0) =~= before);
                for file in inner: files
                    invariant
                        inner.seq() == files@,
                        choice_views(choices@) == gguf_choices(before + files@.take(inner.index())),
                {
                    proof {
                        let longer = before + files@.take(inner.index() + 1);
                        assert(longer.drop_last() =~= before + files@.take(inner.index()));
                        assert(longer.last() == file);
                    }
                    add_gguf_model(&mut choices, file);
                }
                assert(files@.take(files@.len() as int) =~= files@);
            },
        }
    }
    assert(entries@.take(entries@.len() as int) =~= entries@);
    choices
}

/// A choice is put among others that are ordered by name: after those whose name does not come
/// after its own.
pub open spec fn inserted(choices: Seq<ChoiceView>, choice: ChoiceView) -> Seq<ChoiceView>
    decreases choices.len(),
{
    if choices.len() > 0 && before(choice.name, choices.last().name) {
        inserted(choices.drop_last(), choice).push(choices.last())
    } else {
        choices.push(choice)
    }
}

/// Choices ordered by name, those of one name in the order they came in.
pub open spec fn by_name(choices: Seq<ChoiceView>) -> Seq<ChoiceView>
    decreases choices.len(),
{
    if choices.len() == 0 {
        choices
    } else {
        inserted(by_name(choices.drop_last()), choices.last())
    }
}

/// Whether no choice stands after one whose name comes after its own.
pub open spec fn ordered(choices: Seq<ChoiceView>) -> bool {
    forall|i: int, j: int|
        0 <= i < j < choices.len() ==> !before(
            (#[trigger] choices[j]).name,
            (#[trigger] choices[i]).name,
        )
}

/// The choices of one name.
pub open spec fn named(choices: Seq<ChoiceView>, name: Seq<char>) -> Seq<ChoiceView>
    decreases choices.len(),
{
    if choices.len() == 0 {
        choices
    } else if choices.last().name == name {
        named(choices.drop_last(), name).push(choices.last())
    } else {
        named(choices.drop_last(), name)
    }
}

proof fn lemma_inserted_ordered(choices: Seq<ChoiceView>, choice: ChoiceView)
    requires
        ordered(choices),
    ensures
        ordered(inserted(choices, choice)),
        inserted(choices, choice).len() == choices.len() + 1,
        forall|i: int|
            0 <= i <= choices.len() ==> (#[trigger] inserted(choices, choice)[i]) == choice || (
            exists|j: int|
                0 <= j < choices.len() && #[trigger] choices[j] == inserted(choices, choice)[i]),
    decreases choices.len(),
{
    let result = inserted(choices, choice);
    if choices.len() > 0 && before(choice.name, choices.last().name) {
        let shorter = choices.drop_last();
        let last = choices.last();
        lemma_inserted_ordered(shorter, choice);
        let rest = inserted(shorter, choice);
        assert(result == rest.push(last));
        assert forall|i: int| 0 <= i < rest.len() implies !before(
            last.name,
            (#[trigger] rest[i]).name,
        ) by {
            lemma_before_total(choice.name, last.name);
            if rest[i] != choice {
                let j = choose|j: int| 0 <= j < shorter.len() && #[trigger] shorter[j] == rest[i];
                assert(choices[j] == rest[i]);
                assert(!before(choices[choices.len() - 1].name, choices[j].name));
            }
        }
        assert forall|i: int, j: int| 0 <= i < j < result.len() implies !before(
            (#[trigger] result[j]).name,
            (#[trigger] result[i]).name,
        ) by {
            if j < rest.len() {
                assert(result[j] == rest[j] && result[i] == rest[i]);
            } else {
                assert(result[i] == rest[i]);
            }
        }
        assert forall|i: int| 0 <= i <= choices.len() implies (#[trigger] result[i]) == choice || (
        exists|j: int| 0 <= j < choices.len() && #[trigger] choices[j] == result[i]) by {
            if i < rest.len() {
                assert(result[i] == rest[i]);
                if rest[i] != choice {
                    let j = choose|j: int|
                        0 <= j < shorter.len() && #[trigger] shorter[j] == rest[i];
                    assert(choices[j] == result[i]);
                }
            } else {
                assert(choices[choices.len() - 1] == result[i]);
            }
        }
    } else {
        assert(result == choices.push(choice));
        assert forall|i: int, j: int| 0 <= i < j < result.len() implies !before(
            (#[trigger] result[j]).name,
            (#[trigger] result[i]).name,
        ) by {
            if j < choices.len() {
                assert(result[j] == choices[j] && result[i] == choices[i]);
            } else {
                let last = choices.last();
                assert(result[i] == choices[i]);
                if i < choices.len() - 1 {
                    assert(!before(choices[choices.len() - 1].name, choices[i].name));
                } else {
                    lemma_before_total(last.name, last.name);
                }
                lemma_before_transitive(choices[i].name, last.name, choice.name);
            }
        }
        assert forall|i: int| 0 <= i <= choices.len() implies (#[trigger] result[i]) == choice || (
        exists|j: int| 0 <= j < choices.len() && #[trigger] choices[j] == result[i]) by {
            if i < choices.len() {
                assert(choices[i] == result[i]);
            }
        }
    }
}

proof fn lemma_inserted_named(choices: Seq<ChoiceView>, choice: ChoiceView, name: Seq<char>)
    ensures
        named(inserted(choices, choice), name) == if choice.name == name {
            named(choices, name).push(choice)
        } else {
            named(choices, name)
        },
    decreases choices.len(),
{
    if choices.len() > 0 && before(choice.name, choices.last().name) {
        let rest = inserted(choices.drop_last(), choice);
        lemma_inserted_named(choices.drop_last(), choice, name);
        lemma_before_total(choice.name, choices.last().name);
        assert(rest.push(choices.last()).drop_last() =~= rest);
    } else {
        assert(choices.push(choice).drop_last() =~= choices);
    }
}

/// Choices are ordered by name, none is lost or added, and those of one name stay in the order
/// they came in.
pub proof fn choices_are_sorted_by_name(choices: Seq<ChoiceView>, name: Seq<char>)
    ensures
        ordered(by_name(choices)),
        by_name(choices).len() == choices.len(),
        named(by_name(choices), name) == named(choices, name),
    decreases choices.len(),
{
    if choices.len() > 0 {
        choices_are_sorted_by_name(choices.drop_last(), name);
        lemma_inserted_ordered(by_name(choices.drop_last()), choices.last());
        lemma_inserted_named(by_name(choices.drop_last()), choices.last(), name);
    }
}

/// Where a choice called `name` is put among others.
spec fn place(choices: Seq<ChoiceView>, name: Seq<char>) -> int
    decreases choices.len(),
{
    if choices.len() > 0 && before(name, choices.last().name) {
        place(choices.drop_last(), name)
    } else {
        choices.len() as int
    }
}

proof fn lemma_place(choices: Seq<ChoiceView>, choice: ChoiceView)
    ensures
        0 <= place(choices, choice.name) <= choices.len(),
        inserted(choices, choice) == choices.insert(place(choices, choice.name), choice),
    decreases choices.len(),
{
    if choices.len() > 0 && before(choice.name, choices.last().name) {
        lemma_place(choices.drop_last(), choice);
        let at = place(choices, choice.name);
        assert(choices.drop_last().insert(at, choice).push(choices.last()) =~= choices.insert(
            at,
            choice,
        ));
    } else {
        assert(choices.push(choice) =~= choices.insert(choices.len() as int, choice));
    }
}

/// Puts `choice` among `choices`, which are ordered by name.
fn insert_choice(choices: &mut Vec<ModelChoice>, choice: ModelChoice)
    ensures
        choice_views(final(choices)@) == inserted(choice_views(old(choices)@), choice@),
{
    let ghost all = choice_views(choices@);
    let mut at: usize = choices.len();
    assert(all.take(at as int) =~= all);
    while at > 0 && comes_before(choice.name.as_str(), choices[at - 1].name.as_str())
        invariant
            at <= choices@.len(),
            all == choice_views(choices@),
            place(all, choice.name@) == place(all.take(at as int), choice.name@),
        decreases at,
    {
        proof {
            assert(all.take(at as int).last() == choices@[at - 1]@);
            assert(all.take(at as int).drop_last() =~= all.take(at - 1));
        }
        at = at - 1;
    }
    proof {
        if at > 0 {
            assert(all.take(at as int).last() == choices@[at - 1]@);
        }
        lemma_place(all, choice@);
    }
    choices.insert(at, choice);
    assert(choice_views(choices@) =~= all.insert(at as int, choice@));
}

/// All the models that were found, ordered by name: those with a TensorRT-LLM engine, and the
/// GGUF models.
pub fn discover(tensorrt: Vec<ModelChoice>, gguf: Vec<ModelChoice>) -> (choices: Vec<ModelChoice>)
    ensures
        choice_views(choices@) == by_name(choice_views(tensorrt@) + choice_views(gguf@)),
{
    let mut choices: Vec<ModelChoice> = Vec::new();
    let ghost all = choice_views(tensorrt@) + choice_views(gguf@);
    assert(choice_views(choices@) =~= Seq::empty());
    assert(all.take(0) =~= Seq::empty());
    for choice in iter: tensorrt
        invariant
            iter.seq() == tensorrt@,
            all == choice_views(tensorrt@) + choice_views(gguf@),
            choice_views(choices@) == by_name(all.take(iter.index())),
    {
        proof {
            assert(all.take(iter.index() + 1).drop_last() =~= all.take(iter.index()));
            assert(all.take(iter.index() + 1).last() == choice@);
        }
        insert_choice(&mut choices, choice);
    }
    for choice in iter: gguf
        invariant
            iter.seq() == gguf@,
            all == choice_views(tensorrt@) + choice_views(gguf@),
            choice_views(choices@) == by_name(all.take(tensorrt@.len() + iter.index())),
    {
        proof {
            let seen = tensorrt@.len() + iter.index();
            assert(all.take(seen + 1).drop_last() =~= all.take(seen));
            assert(all.take(seen + 1).last() == choice@);
        }
        insert_choice(&mut choices, choice);
    }
    assert(all.take(all.len() as int) =~= all);
    choices
}

/// How a model is chosen.
#[derive(Debug, Clone, Copy, PartialEq, Eq, Structural)]
pub enum Choosing {
    /// There is no model.
    NoModels,
    /// There is one model, and that is it.
    Only,
    /// The user is asked.
    Ask,
}

/// What is said where there is no model.
pub const NO_MODELS: &'static str =
    "no models found in ~/models: build one with engine/build-engine.sh, put a .gguf file in ~/models/gguf, or pass a model path";

/// How one of `choices` is chosen.
pub fn choose_model(choices: &Vec<ModelChoice>) -> (choosing: Choosing)
    ensures
        choosing == if choices@.len() == 0 {
            Choosing::NoModels
        } else if choices@.len() == 1 {
            Choosing::Only
        } else {
            Choosing::Ask
        },
{
    if choices.len() == 0 {
        Choosing::NoModels
    } else if choices.len() == 1 {
        Choosing::Only
    } else {
        Choosing::Ask
    }
}

/// What a key does in the list of models.
#[derive(Debug, Clone, Copy, PartialEq, Eq, Structural)]
pub enum Pick {
    /// This model is selected now.
    Select(usize),
    /// The selected model is chosen.
    Choose,
    /// The user quits.
    Quit,
}

/// What a key does where model `selected` of `count` is selected.
pub open spec fn picked(key: KeyEvent, selected: usize, count: usize) -> Pick {
    let is_quit = key.code is Esc || (key.modifiers == CONTROL && (key.code == KeyCode::Char('c')
        || key.code == KeyCode::Char('d')));
    if !key.press {
        Pick::Select(selected)
    } else if key.code is Up && selected > 0 {
        Pick::Select((selected - 1) as usize)
    } else if key.code is Down && selected + 1 < count {
        Pick::Select((selected + 1) as usize)
    } else if key.code is Enter {
        Pick::Choose
    } else if is_quit {
        Pick::Quit
    } else {
        Pick::Select(selected)
    }
}

/// What `key` does where model `selected` of `count` is selected: the arrow keys move the
/// selection and stop at both ends, Enter chooses, and Esc, Ctrl+C and Ctrl+D quit.
pub fn choose_with_key(key: KeyEvent, selected: usize, count: usize) -> (pick: Pick)
    requires
        selected < count,
    ensures
        pick == if !key.press {
            Pick::Select(selected)
        } else if key.code is Up {
            Pick::Select(
                if selected == 0 {
                    0
                } else {
                    (selected - 1) as usize
                },
            )
        } else if key.code is Down {
            Pick::Select(
                if selected + 1 == count {
                    selected
                } else {
                    (selected + 1) as usize
                },
            )
        } else if key.code is Enter {
            Pick::Choose
        } else if key.code is Esc || (key.modifiers == CONTROL && (key.code == KeyCode::Char('c')
            || key.code == KeyCode::Char('d'))) {
            Pick::Quit
        } else {
            Pick::Select(selected)
        },
        pick matches Pick::Select(next) ==> next < count,
        pick == picked(key, selected, count),
{
    if !key.press {
        return Pick::Select(selected);
    }
    match key.code {
        KeyCode::Up => Pick::Select(selected.saturating_sub(1)),
        KeyCode::Down => {
            if selected < count - 1 {
                Pick::Select(selected + 1)
            } else {
                Pick::Select(count - 1)
            }
        },
        KeyCode::Enter => Pick::Choose,
        KeyCode::Esc => Pick::Quit,
        KeyCode::Char(ch) => {
            if key.modifiers == CONTROL && (ch == 'c' || ch == 'd') {
                Pick::Quit
            } else {
                Pick::Select(selected)
            }
        },
        _ => Pick::Select(selected),
    }
}

/// The title of the list of models.
pub const TITLE: &'static str = "Choose a model";

/// The keys of the list of models.
pub const PICKER_HINTS: &'static str = "↑↓ select · enter load · esc quit";

/// How many columns an engine's name gets.
pub const ENGINE_COLUMNS: usize = 12;

/// A text filled up with spaces to so many characters.
pub open spec fn padded(text: Seq<char>, width: nat) -> Seq<char> {
    if text.len() < width {
        text + spaces((width - text.len()) as nat)
    } else {
        text
    }
}

/// The length of the longest name, in bytes of UTF-8.
pub open spec fn longest_name(choices: Seq<ModelChoice>) -> nat
    decreases choices.len(),
{
    if choices.len() == 0 {
        0
    } else {
        let earlier = longest_name(choices.drop_last());
        let last = encode_utf8(choices.last().name@).len();
        if last > earlier {
            last
        } else {
            earlier
        }
    }
}

/// The line of one model, with its size in words.
pub open spec fn choice_line(
    choice: ModelChoice,
    size: Seq<char>,
    name_width: nat,
    selected: bool,
) -> LineView {
    LineView::of(
        seq![
            SpanView {
                content: if selected {
                    "❯ "@
                } else {
                    "  "@
                },
                style: Style::colored(accent()),
            },
            SpanView {
                content: padded(choice.name@, name_width) + "   "@,
                style: if selected {
                    Style::plain().bold()
                } else {
                    Style::plain()
                },
            },
            SpanView {
                content: padded(choice.engine@, ENGINE_COLUMNS as nat),
                style: Style::colored(muted()),
            },
            SpanView { content: size, style: Style::colored(muted()) },
        ],
    )
}

/// The list of models: a title, a line for each model, and the keys.
pub open spec fn picker_view(choices: Seq<ModelChoice>, sizes: Seq<String>, selected: int) -> Seq<
    LineView,
> {
    seq![LineView::styled(TITLE@, Style::colored(accent()).bold()), LineView::blank()] + Seq::new(
        choices.len(),
        |i: int| choice_line(choices[i], sizes[i]@, longest_name(choices), i == selected),
    ) + seq![LineView::blank(), LineView::styled(PICKER_HINTS@, Style::colored(muted()))]
}

/// `text` filled up with spaces to `width` characters.
fn pad(text: &str, width: usize) -> (result: String)
    ensures
        result@ == padded(text@, width as nat),
{
    let mut result: String = text.to_owned();
    let length: usize = text.unicode_len();
    let mut columns: usize = length;
    assert(result@ =~= text@ + spaces(0));
    while columns < width
        invariant
            length <= columns,
            length == text@.len(),
            length < width ==> columns <= width,
            length >= width ==> columns == length,
            result@ == text@ + spaces((columns - length) as nat),
        decreases width - columns,
    {
        result.push(' ');
        columns = columns + 1;
        assert(result@ =~= text@ + spaces((columns - length) as nat));
    }
    assert(text@ + spaces(0) =~= text@);
    result
}

fn name_columns(choices: &Vec<ModelChoice>) -> (width: usize)
    ensures
        width == longest_name(choices@),
{
    let mut width: usize = 0;
    assert(choices@.take(0) =~= Seq::empty());
    for index in 0..choices.len()
        invariant
            width == longest_name(choices@.take(index as int)),
    {
        proof {
            assert(choices@.take(index + 1).drop_last() =~= choices@.take(index as int));
        }
        let length: usize = choices[index].name.as_str().as_bytes().len();
        if length > width {
            width = length;
        }
    }
    assert(choices@.take(choices@.len() as int) =~= choices@);
    width
}

/// The lines of the list of models, where model `selected` is selected and `sizes` are the
/// models' sizes in words.
pub fn picker_lines<'a>(choices: &'a Vec<ModelChoice>, sizes: &'a Vec<String>, selected: usize) -> (lines:
    Vec<Line<'a>>)
    requires
        sizes@.len() == choices@.len(),
    ensures
        line_views(lines@) == picker_view(choices@, sizes@, selected as int),
{
    let name_width: usize = name_columns(choices);
    let mut lines: Vec<Line<'a>> = Vec::new();
    lines.push(Line::styled(Cow::Borrowed(TITLE), Style::colored(accent()).bold()));
    lines.push(Line::blank());
    let ghost head = line_views(lines@);
    let ghost rows = Seq::new(
        choices@.len(),
        |i: int| choice_line(choices@[i], sizes@[i]@, longest_name(choices@), i == selected),
    );
    assert(line_views(lines@) =~= head + rows.take(0));
    for index in 0..choices.len()
        invariant
            sizes@.len() == choices@.len(),
            name_width == longest_name(choices@),
            rows == Seq::new(
                choices@.len(),
                |i: int| choice_line(choices@[i], sizes@[i]@, longest_name(choices@), i == selected),
            ),
            line_views(lines@) == head + rows.take(index as int),
    {
        let ghost shown = line_views(lines@);
        let is_selected: bool = index == selected;
        let mark: &'static str = if is_selected {
            "❯ "
        } else {
            "  "
        };
        let name_style = if is_selected {
            Style::plain().bold()
        } else {
            Style::plain()
        };
        let mut name: String = pad(choices[index].name.as_str(), name_width);
        name.append("   ");
        let mut spans: Vec<Span<'a>> = Vec::new();
        spans.push(Span::borrowed(mark, Style::colored(accent())));
        spans.push(Span::owned(name, name_style));
        spans.push(
            Span::owned(pad(choices[index].engine, ENGINE_COLUMNS), Style::colored(muted())),
        );
        spans.push(Span::borrowed(sizes[index].as_str(), Style::colored(muted())));
        assert(span_views(spans@) =~= rows[index as int].spans);
        lines.push(Line::of(spans));
        assert(line_views(lines@) =~= shown.push(rows[index as int]));
        assert(rows.take(index + 1) =~= rows.take(index as int).push(rows[index as int]));
    }
    assert(rows.take(rows.len() as int) =~= rows);
    let ghost shown = line_views(lines@);
    lines.push(Line::blank());
    lines.push(Line::styled(Cow::Borrowed(PICKER_HINTS), Style::colored(muted())));
    assert(line_views(lines@) =~= shown + seq![
        LineView::blank(),
        LineView::styled(PICKER_HINTS@, Style::colored(muted())),
    ]);
    lines
}

/// The number of columns that the widest of some lines takes.
pub open spec fn widest(lines: Seq<LineView>) -> nat
    decreases lines.len(),
{
    if lines.len() == 0 {
        0
    } else {
        let earlier = widest(lines.drop_last());
        let last = texts_width(lines.last().texts());
        if last > earlier {
            last
        } else {
            earlier
        }
    }
}

/// The room that a list of lines asks for: its columns and its rows, counted in 16 bits.
pub fn list_rooms(lines: &Vec<Line<'_>>) -> (rooms: (Room, Room))
    ensures
        rooms == (
            Room::Length(widest(line_views(lines@)) as u16),
            Room::Length(lines@.len() as u16),
        ),
{
    let ghost all = line_views(lines@);
    let mut width: u128 = 0;
    assert(all.take(0) =~= Seq::empty());
    for index in 0..lines.len()
        invariant
            all == line_views(lines@),
            width == widest(all.take(index as int)),
    {
        proof {
            assert(all.take(index + 1).drop_last() =~= all.take(index as int));
            assert(all.take(index + 1).last() == lines@[index as int]@);
        }
        let columns: u128 = line_width(&lines[index]);
        if columns > width {
            width = columns;
        }
    }
    assert(all.take(all.len() as int) =~= all);
    let columns: u16 = #[verifier::truncate]
    (width as u16);
    let rows: u16 = #[verifier::truncate]
    (lines.len() as u16);
    (Room::Length(columns), Room::Length(rows))
}

/// Where the list of models goes: in the middle of `area`.
pub fn list_area(area: Area, lines: &Vec<Line<'_>>) -> (middle: Area)
    ensures
        exists|column: Area|
            may_split(
                area,
                false,
                seq![Room::Length(widest(line_views(lines@)) as u16)],
                Spare::Around,
                seq![#[trigger] column.corners()],
            ) && may_split(
                column,
                true,
                seq![Room::Length(lines@.len() as u16)],
                Spare::Around,
                seq![middle.corners()],
            ),
        area.x <= middle.x && middle.x + middle.width <= area.right(),
        area.y <= middle.y && middle.y + middle.height <= area.bottom(),
{
    let (columns, rows) = list_rooms(lines);
    let across = [columns];
    let column: Vec<Area> = split(area, false, across.as_slice(), Spare::Around);
    let down = [rows];
    let row: Vec<Area> = split(column[0], true, down.as_slice(), Spare::Around);
    proof {
        assert(across@ =~= seq![columns]);
        assert(down@ =~= seq![rows]);
        assert(corners_of(column@) =~= seq![column@[0].corners()]);
        assert(corners_of(row@) =~= seq![row@[0].corners()]);
    }
    row[0]
}

/// A choice is seen with its name, its engine, its path and its size.
pub proof fn choices_are_seen_as_they_are(choices: Seq<ModelChoice>)
    ensures
        choice_views(choices).len() == choices.len(),
        forall|i: int|
            0 <= i < choices.len() ==> {
                let seen = #[trigger] choice_views(choices)[i];
                &&& seen.name == choices[i].name@
                &&& seen.engine == choices[i].engine@
                &&& seen.path == choices[i].path@
                &&& seen.bytes == choices[i].bytes
            },
{
}

/// An engine is offered where it is complete: its directory is called after the model with
/// `-engine` behind the name, a file in it ends in `.engine`, and the model has a tokenizer. It is
/// offered once, behind those of the directories before, under the model's name and path, with the
/// size of its engine files. No other directory offers one.
pub proof fn a_complete_engine_is_offered(
    dirs: Seq<EngineDir>,
    dir: EngineDir,
    model: Seq<char>,
    file: int,
    stem: Seq<char>,
)
    requires
        stem.len() > 0,
    ensures
        tensorrt_choices(Seq::empty()) == Seq::<ChoiceView>::empty(),
        dir.name matches Some(name) && name@ == model + "-engine"@ && 0 <= file < dir.files@.len()
            && dir.files@[file].name@ == stem + seq!['.'] + "engine"@ && dir.has_tokenizer
            ==> tensorrt_choices(dirs.push(dir)) == tensorrt_choices(dirs).push(
            ChoiceView {
                name: model,
                engine: "TensorRT-LLM"@,
                path: dir.model_path@,
                bytes: engine_bytes(dir.files@),
            },
        ),
        dir.name is None || !"-engine"@.is_suffix_of((dir.name->0)@) || !dir.has_tokenizer
            || dir.files@.len() == 0 ==> tensorrt_choices(dirs.push(dir)) == tensorrt_choices(dirs),
{
    assert(dirs.push(dir).drop_last() =~= dirs);
    a_suffix_is_stripped_from_its_end(model, model, "-engine"@);
    if dir.name is Some {
        a_suffix_is_stripped_from_its_end((dir.name->0)@, model, "-engine"@);
    }
    an_engine_is_as_large_as_its_files(
        Seq::empty(),
        FileEntry { name: arbitrary(), bytes: 0 },
    );
    if 0 <= file < dir.files@.len() && dir.files@[file].name@ == stem + seq!['.'] + "engine"@ {
        assert(is_engine_name(dir.files@[file].name@));
        assert(holds_engine(dir.files@));
    }
}

/// A file `<name>.gguf` is offered as the model of that name for llama.cpp, unless the name begins
/// with `mmproj`, which a vision projector's does. Files with another extension are not offered.
/// The files of a directory come in their order, and those of its subdirectories in place.
pub proof fn a_gguf_file_is_offered(
    entries: Seq<GgufEntry>,
    files: Seq<GgufFile>,
    file: GgufFile,
    stem: Seq<char>,
    after: Seq<char>,
)
    requires
        stem.len() > 0,
        !after.contains('.'),
        after.len() > 0,
    ensures
        gguf_choices(Seq::empty()) == Seq::<ChoiceView>::empty(),
        file.name matches Some(name) && name@ == stem + seq!['.'] + after ==> gguf_choices(
            files.push(file),
        ) == if after == "gguf"@ && !"mmproj"@.is_prefix_of(stem) {
            gguf_choices(files).push(
                ChoiceView {
                    name: stem,
                    engine: "llama.cpp"@,
                    path: file.path@,
                    bytes: file.bytes as nat,
                },
            )
        } else {
            gguf_choices(files)
        },
        file.name is None ==> gguf_choices(files.push(file)) == gguf_choices(files),
        gguf_files(Seq::empty()) == Seq::<GgufFile>::empty(),
        gguf_files(entries.push(GgufEntry::File(file))) == gguf_files(entries).push(file),
        forall|inner: Vec<GgufFile>|
            #[trigger] gguf_files(entries.push(GgufEntry::Directory(inner))) == gguf_files(entries)
                + inner@,
{
    assert(files.push(file).drop_last() =~= files);
    assert((stem + seq!['.'] + after).len() > 2);
    a_file_name_is_stem_dot_extension(stem, after, Seq::empty());
    let entry = GgufEntry::File(file);
    assert(entries.push(entry).drop_last() =~= entries);
    assert(gguf_files(entries) + seq![file] =~= gguf_files(entries).push(file));
    assert forall|inner: Vec<GgufFile>| #[trigger]
        gguf_files(entries.push(GgufEntry::Directory(inner))) == gguf_files(entries)
            + inner@ by {
        assert(entries.push(GgufEntry::Directory(inner)).drop_last() =~= entries);
    }
}

/// The list of models holds all that were found, each as often as it was found, and every name
/// comes before those of the models below it, or is the same.
pub proof fn all_models_are_listed_in_order(choices: Seq<ChoiceView>)
    ensures
        by_name(choices).to_multiset() == choices.to_multiset(),
        forall|i: int, j: int|
            0 <= i < j < by_name(choices).len() ==> before(
                (#[trigger] by_name(choices)[i]).name,
                (#[trigger] by_name(choices)[j]).name,
            ) || by_name(choices)[i].name == by_name(choices)[j].name,
    decreases choices.len(),
{
    choices_are_sorted_by_name(choices, Seq::empty());
    let sorted = by_name(choices);
    assert forall|i: int, j: int| 0 <= i < j < sorted.len() implies before(
        (#[trigger] sorted[i]).name,
        (#[trigger] sorted[j]).name,
    ) || sorted[i].name == sorted[j].name by {
        lemma_before_total(sorted[i].name, sorted[j].name);
    }
    if choices.len() > 0 {
        let earlier = by_name(choices.drop_last());
        all_models_are_listed_in_order(choices.drop_last());
        lemma_place(earlier, choices.last());
        let at = place(earlier, choices.last().name);
        earlier.to_multiset_ensures();
        choices.drop_last().to_multiset_ensures();
        assert(sorted == earlier.insert(at, choices.last()));
        vstd::seq_lib::to_multiset_insert(earlier, at, choices.last());
        assert(choices.drop_last().push(choices.last()) =~= choices);
        assert(sorted.to_multiset() =~= choices.to_multiset());
    }
}

/// The list shows every model on a line of its own, below a title: the name, the engine and the
/// size, one below the other in columns. The selected model alone has the mark and a bold name.
pub proof fn every_model_has_a_line(
    choices: Seq<ModelChoice>,
    sizes: Seq<String>,
    selected: int,
    index: int,
)
    requires
        sizes.len() == choices.len(),
        0 <= index < choices.len(),
    ensures
        ({
            let shown = picker_view(choices, sizes, selected);
            let spans = shown[index + 2].spans;
            let name = choices[index].name@;
            let engine = choices[index].engine@;
            &&& shown.len() == choices.len() + 4
            &&& spans.len() == 4
            &&& spans[0].content == if index == selected {
                "❯ "@
            } else {
                "  "@
            }
            &&& name.is_prefix_of(spans[1].content)
            &&& forall|i: int|
                name.len() <= i < spans[1].content.len() ==> #[trigger] spans[1].content[i] == ' '
            &&& spans[1].content.len() >= name.len() + 3
            &&& spans[1].content.len() >= longest_name(choices) + 3
            &&& spans[1].content.len() == name.len() + 3 || spans[1].content.len() == longest_name(
                choices,
            ) + 3
            &&& spans[1].style == if index == selected {
                Style::plain().bold()
            } else {
                Style::plain()
            }
            &&& engine.is_prefix_of(spans[2].content)
            &&& forall|i: int|
                engine.len() <= i < spans[2].content.len() ==> #[trigger] spans[2].content[i] == ' '
            &&& spans[2].content.len() >= 12
            &&& spans[3].content == sizes[index]@
        }),
{
    reveal_strlit("   ");
    let shown = picker_view(choices, sizes, selected);
    let line = choice_line(
        choices[index],
        sizes[index]@,
        longest_name(choices),
        index == selected,
    );
    assert(shown[index + 2] == line);
    let name = choices[index].name@;
    let engine = choices[index].engine@;
    assert(name =~= line.spans[1].content.subrange(0, name.len() as int));
    assert(engine =~= line.spans[2].content.subrange(0, engine.len() as int));
}

/// The longest name and the widest line are those of one of the models and lines, and no other is
/// longer or wider.
pub proof fn the_longest_is_no_shorter_than_any(
    choices: Seq<ModelChoice>,
    lines: Seq<LineView>,
)
    ensures
        forall|i: int|
            0 <= i < choices.len() ==> encode_utf8((#[trigger] choices[i]).name@).len()
                <= longest_name(choices),
        longest_name(choices) == 0 || exists|i: int|
            0 <= i < choices.len() && encode_utf8((#[trigger] choices[i]).name@).len()
                == longest_name(choices),
        forall|i: int|
            0 <= i < lines.len() ==> texts_width((#[trigger] lines[i]).texts()) <= widest(lines),
        widest(lines) == 0 || exists|i: int|
            0 <= i < lines.len() && texts_width((#[trigger] lines[i]).texts()) == widest(lines),
{
    lemma_longest_name(choices);
    lemma_widest(lines);
}

proof fn lemma_longest_name(choices: Seq<ModelChoice>)
    ensures
        forall|i: int|
            0 <= i < choices.len() ==> encode_utf8((#[trigger] choices[i]).name@).len()
                <= longest_name(choices),
        longest_name(choices) == 0 || exists|i: int|
            0 <= i < choices.len() && encode_utf8((#[trigger] choices[i]).name@).len()
                == longest_name(choices),
    decreases choices.len(),
{
    if choices.len() > 0 {
        let shorter = choices.drop_last();
        let last = choices.len() - 1;
        lemma_longest_name(shorter);
        assert(choices[last] == choices.last());
        assert forall|i: int| 0 <= i < choices.len() implies encode_utf8(
            (#[trigger] choices[i]).name@,
        ).len() <= longest_name(choices) by {
            if i < last {
                assert(shorter[i] == choices[i]);
            }
        }
        if longest_name(choices) > 0 && longest_name(choices) != encode_utf8(
            choices[last].name@,
        ).len() {
            let i = choose|i: int|
                0 <= i < shorter.len() && encode_utf8((#[trigger] shorter[i]).name@).len()
                    == longest_name(shorter);
            assert(choices[i] == shorter[i]);
        }
    }
}

proof fn lemma_widest(lines: Seq<LineView>)
    ensures
        forall|i: int|
            0 <= i < lines.len() ==> texts_width((#[trigger] lines[i]).texts()) <= widest(lines),
        widest(lines) == 0 || exists|i: int|
            0 <= i < lines.len() && texts_width((#[trigger] lines[i]).texts()) == widest(lines),
    decreases lines.len(),
{
    if lines.len() > 0 {
        let shorter = lines.drop_last();
        let last = lines.len() - 1;
        lemma_widest(shorter);
        assert(lines[last] == lines.last());
        assert forall|i: int| 0 <= i < lines.len() implies texts_width(
            (#[trigger] lines[i]).texts(),
        ) <= widest(lines) by {
            if i < last {
                assert(shorter[i] == lines[i]);
            }
        }
        if widest(lines) > 0 && widest(lines) != texts_width(lines[last].texts()) {
            let i = choose|i: int|
                0 <= i < shorter.len() && texts_width((#[trigger] shorter[i]).texts()) == widest(
                    shorter,
                );
            assert(lines[i] == shorter[i]);
        }
    }
}

/// The arrow keys go from model to model: down to the next one below, up to the one above, and not
/// past the ends; one undoes the other. Enter, and nothing else, chooses. Esc, Ctrl+C and Ctrl+D, and
/// nothing else, quit. Every other key, and a key that is held or let go, leaves the selection.
pub proof fn the_arrow_keys_go_from_model_to_model(
    modifiers: u8,
    code: KeyCode,
    selected: usize,
    count: usize,
)
    requires
        selected < count,
    ensures
        ({
            let press = |code: KeyCode, selected: usize|
                picked((KeyEvent { code, modifiers, press: true }), selected, count);
            let pick = press(code, selected);
            let next = (selected + 1) as usize;
            &&& selected + 1 < count ==> press(KeyCode::Down, selected) == Pick::Select(next)
                && press(KeyCode::Up, next) == Pick::Select(selected)
            &&& selected + 1 == count ==> press(KeyCode::Down, selected) == Pick::Select(selected)
            &&& press(KeyCode::Up, 0) == Pick::Select(0)
            &&& pick is Choose <==> code is Enter
            &&& pick is Quit <==> code is Esc || (modifiers == CONTROL && (code == KeyCode::Char(
                'c',
            ) || code == KeyCode::Char('d')))
            &&& pick is Select && !(code is Up) && !(code is Down) ==> pick == Pick::Select(selected)
            &&& picked((KeyEvent { code, modifiers, press: false }), selected, count)
                == Pick::Select(selected)
        }),
{
}

} // verus!
