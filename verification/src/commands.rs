//! The commands of the prompt: what the grammar offers for a given state of
//! the application, and the prompt's answer to its input.

use crate::action::{built_action, is_underscore, ActionBuilder};
use crate::command::{entries_view, Command, CommandView, ParamGreed, Parser, ParserView};
use crate::expand::{
    choice, descent, descent_text, expand_command, has_key, leading_word, lemma_blank_input,
    lemma_candidate_word_descends, lemma_word_len_without_whitespace, resolution,
    resolution_after, table_index, trim_start, Choice, FuzzyOutput,
};
use crate::message::{
    Message, MessageView, ScopeDescriptor, ScopeDescriptorView, SignalDescriptor,
    SignalDescriptorView, ZoomFactor,
};
use crate::search::{
    lemma_first_where_found, lemma_first_where_in_range, lemma_first_where_none,
    lemma_first_where_some,
};
use crate::text::{chars_of, is_whitespace};
use crate::util::{
    is_label_letter, label_of, label_width, lemma_fixed_width_label_shape, lemma_label_round_trip,
    uint_idx_to_alpha_idx,
};
use vstd::prelude::*;

verus! {

/// What the prompt reads of a loaded waveform.
#[derive(Clone, Debug, PartialEq, Eq)]
pub struct VcdData {
    /// The names of all scopes.
    pub scopes: Vec<String>,
    /// The names of all signals.
    pub signals: Vec<String>,
    /// The names of the displayed signals, in the order of display.
    pub displayed_signals: Vec<String>,
    /// The signals of the active scope, each with its index in the waveform;
    /// empty where no scope is active.
    pub signals_in_active_scope: Vec<(String, usize)>,
}

/// What the prompt reads of the application.
#[derive(Clone, Debug, PartialEq, Eq)]
pub struct State {
    /// The loaded waveform, if one is loaded.
    pub vcd: Option<VcdData>,
    /// The names of the colours of the theme.
    pub color_names: Vec<String>,
    /// The paths found in the working directory. Only the command that loads
    /// a file reads them: see [`needs_directory`].
    pub directory: Vec<String>,
}

/// The value of a [`VcdData`].
pub struct VcdDataView {
    pub scopes: Seq<Seq<char>>,
    pub signals: Seq<Seq<char>>,
    pub displayed_signals: Seq<Seq<char>>,
    pub signals_in_active_scope: Seq<(Seq<char>, usize)>,
}

/// The value of a [`State`].
pub struct StateView {
    pub vcd: Option<VcdDataView>,
    pub color_names: Seq<Seq<char>>,
    pub directory: Seq<Seq<char>>,
}

/// The value of a list of names with indices.
pub open spec fn indexed_names_view(list: Seq<(String, usize)>) -> Seq<(Seq<char>, usize)> {
    Seq::new(list.len(), |i: int| (list[i].0@, list[i].1))
}

impl View for VcdData {
    type V = VcdDataView;

    open spec fn view(&self) -> VcdDataView {
        VcdDataView {
            scopes: self.scopes.deep_view(),
            signals: self.signals.deep_view(),
            displayed_signals: self.displayed_signals.deep_view(),
            signals_in_active_scope: indexed_names_view(self.signals_in_active_scope@),
        }
    }
}

impl View for State {
    type V = StateView;

    open spec fn view(&self) -> StateView {
        StateView {
            vcd: match self.vcd {
                Some(vcd) => Some(vcd@),
                None => None,
            },
            color_names: self.color_names.deep_view(),
            directory: self.directory.deep_view(),
        }
    }
}

/// Which action a known name stands for.
#[derive(Clone, Copy, Debug, PartialEq, Eq, Structural)]
pub enum NameAction {
    AddScope,
    SetActiveScope,
    AddSignal,
    SignalColorChange,
}

/// The action of kind `kind` on `name`.
pub open spec fn named_action(kind: NameAction, name: Seq<char>) -> MessageView {
    match kind {
        NameAction::AddScope => MessageView::AddScope(ScopeDescriptorView::Name(name)),
        NameAction::SetActiveScope => MessageView::SetActiveScope(ScopeDescriptorView::Name(name)),
        NameAction::AddSignal => MessageView::AddSignal(SignalDescriptorView::Name(name)),
        NameAction::SignalColorChange => MessageView::SignalColorChange(None, name),
    }
}

/// The table that leads from each of `names` to the action on it.
pub open spec fn name_table(kind: NameAction, names: Seq<Seq<char>>) -> Seq<
    (Seq<char>, CommandView),
> {
    Seq::new(names.len(), |i: int| (names[i], CommandView::Terminal(named_action(kind, names[i]))))
}

/// The node for an argument that is one of `names`.
pub open spec fn name_argument(kind: NameAction, names: Seq<Seq<char>>) -> CommandView {
    CommandView::NonTerminal(
        ParamGreed::Word,
        names,
        ParserView::Table(name_table(kind, names)),
    )
}

/// The names of a list of names with indices.
pub open spec fn names_of(list: Seq<(Seq<char>, usize)>) -> Seq<Seq<char>> {
    Seq::new(list.len(), |i: int| list[i].0)
}

/// The table that leads from the name of each signal of `list` to the
/// action that adds the signal by its index.
pub open spec fn index_table(list: Seq<(Seq<char>, usize)>) -> Seq<(Seq<char>, CommandView)> {
    Seq::new(
        list.len(),
        |i: int|
            (
                list[i].0,
                CommandView::Terminal(MessageView::AddSignal(SignalDescriptorView::Id(list[i].1))),
            ),
    )
}

/// The node for an argument that names one of the signals of `list`.
pub open spec fn index_argument(list: Seq<(Seq<char>, usize)>) -> CommandView {
    CommandView::NonTerminal(
        ParamGreed::Word,
        names_of(list),
        ParserView::Table(index_table(list)),
    )
}

/// Whether `path` names a waveform file: its last component is a stem that
/// is not empty, followed by `.vcd`.
pub open spec fn is_vcd_path(path: Seq<char>) -> bool {
    let n = path.len() as int;
    &&& n >= 5
    &&& path[n - 5] != '/'
    &&& path[n - 4] == '.'
    &&& path[n - 3] == 'v'
    &&& path[n - 2] == 'c'
    &&& path[n - 1] == 'd'
}

/// The test for a path that names a waveform file.
pub open spec fn names_vcd_file() -> spec_fn(Seq<char>) -> bool {
    |path: Seq<char>| is_vcd_path(path)
}

/// The paths of `directory` that name waveform files, in their order.
pub open spec fn vcd_files(directory: Seq<Seq<char>>) -> Seq<Seq<char>> {
    directory.filter(names_vcd_file())
}

/// The label of each displayed signal: the label of its place, an
/// underscore, and its name.
pub open spec fn displayed_labels(names: Seq<Seq<char>>) -> Seq<Seq<char>> {
    Seq::new(
        names.len(),
        |i: int| label_of(i as nat, names.len()) + seq!['_'] + names[i],
    )
}

/// The names of the name types.
pub open spec fn name_type_names() -> Seq<Seq<char>> {
    seq!["Local"@, "Unique"@, "Global"@]
}

/// The names of the scopes of the loaded waveform.
pub open spec fn scope_names(state: StateView) -> Seq<Seq<char>> {
    match state.vcd {
        Some(vcd) => vcd.scopes,
        None => Seq::empty(),
    }
}

/// The names of the signals of the loaded waveform.
pub open spec fn signal_names(state: StateView) -> Seq<Seq<char>> {
    match state.vcd {
        Some(vcd) => vcd.signals,
        None => Seq::empty(),
    }
}

/// The names of the displayed signals of the loaded waveform.
pub open spec fn displayed_names(state: StateView) -> Seq<Seq<char>> {
    match state.vcd {
        Some(vcd) => vcd.displayed_signals,
        None => Seq::empty(),
    }
}

/// The signals of the active scope of the loaded waveform.
pub open spec fn active_scope_signals(state: StateView) -> Seq<(Seq<char>, usize)> {
    match state.vcd {
        Some(vcd) => vcd.signals_in_active_scope,
        None => Seq::empty(),
    }
}

/// The names of the commands, in the order in which they are offered.
pub open spec fn command_names() -> Seq<Seq<char>> {
    seq![
        "load_vcd"@,
        "load_url"@,
        "config_reload"@,
        "scroll_to_start"@,
        "scroll_to_end"@,
        "zoom_in"@,
        "zoom_out"@,
        "zoom_fit"@,
        "toggle_menu"@,
        "toggle_fullscreen"@,
        "module_add"@,
        "module_select"@,
        "signal_add"@,
        "signal_add_from_scope"@,
        "signal_set_color"@,
        "signal_set_name_type"@,
        "signal_force_name_type"@,
        "signal_focus"@,
        "signal_unfocus"@,
    ]
}

/// What follows each command name for the given state.
pub open spec fn command_table(state: StateView) -> Seq<(Seq<char>, CommandView)> {
    seq![
        (
            "load_vcd"@,
            CommandView::NonTerminal(
                ParamGreed::Rest,
                vcd_files(state.directory),
                ParserView::Build(ActionBuilder::LoadVcd),
            ),
        ),
        (
            "load_url"@,
            CommandView::NonTerminal(
                ParamGreed::Rest,
                Seq::empty(),
                ParserView::Build(ActionBuilder::LoadVcdFromUrl),
            ),
        ),
        ("config_reload"@, CommandView::Terminal(MessageView::ReloadConfig)),
        ("scroll_to_start"@, CommandView::Terminal(MessageView::ScrollToStart)),
        ("scroll_to_end"@, CommandView::Terminal(MessageView::ScrollToEnd)),
        ("zoom_in"@, CommandView::Terminal(MessageView::CanvasZoom { delta: ZoomFactor::Half })),
        (
            "zoom_out"@,
            CommandView::Terminal(MessageView::CanvasZoom { delta: ZoomFactor::Double }),
        ),
        ("zoom_fit"@, CommandView::Terminal(MessageView::ZoomToFit)),
        ("toggle_menu"@, CommandView::Terminal(MessageView::ToggleMenu)),
        ("toggle_fullscreen"@, CommandView::Terminal(MessageView::ToggleFullscreen)),
        ("module_add"@, name_argument(NameAction::AddScope, scope_names(state))),
        ("module_select"@, name_argument(NameAction::SetActiveScope, scope_names(state))),
        ("signal_add"@, name_argument(NameAction::AddSignal, signal_names(state))),
        ("signal_add_from_scope"@, index_argument(active_scope_signals(state))),
        (
            "signal_set_color"@,
            name_argument(NameAction::SignalColorChange, state.color_names),
        ),
        (
            "signal_set_name_type"@,
            CommandView::NonTerminal(
                ParamGreed::Word,
                name_type_names(),
                ParserView::Build(ActionBuilder::ChangeSignalNameType),
            ),
        ),
        (
            "signal_force_name_type"@,
            CommandView::NonTerminal(
                ParamGreed::Word,
                name_type_names(),
                ParserView::Build(ActionBuilder::ForceSignalNameTypes),
            ),
        ),
        (
            "signal_focus"@,
            CommandView::NonTerminal(
                ParamGreed::Word,
                displayed_labels(displayed_names(state)),
                ParserView::Build(
                    ActionBuilder::FocusSignal(displayed_names(state).len() as usize),
                ),
            ),
        ),
        ("signal_unfocus"@, CommandView::Terminal(MessageView::UnfocusSignal)),
    ]
}

/// The grammar of the prompt for the given state.
pub open spec fn grammar(state: StateView) -> CommandView {
    CommandView::NonTerminal(
        ParamGreed::Word,
        command_names(),
        ParserView::Table(command_table(state)),
    )
}

/// Whether the resolution of `input` reads the paths of the working
/// directory: whether it goes on from the root to the command that loads a
/// file.
pub open spec fn reads_directory(input: Seq<char>) -> bool {
    descent(input, ParamGreed::Word, command_names()) == Some("load_vcd"@)
}

/// The grammar of the prompt is well formed for every state.
pub proof fn lemma_grammar_well_formed(state: StateView)
    ensures
        grammar(state).well_formed(),
{
    let table = command_table(state);
    assert forall|i: int| 0 <= i < table.len() implies (#[trigger] table[i]).1.well_formed() by {
        lemma_argument_well_formed(state);
    }
}

/// The argument nodes of the grammar are well formed.
proof fn lemma_argument_well_formed(state: StateView)
    ensures
        forall|kind: NameAction, names: Seq<Seq<char>>| #[trigger]
            name_argument(kind, names).well_formed(),
        forall|list: Seq<(Seq<char>, usize)>| #[trigger] index_argument(list).well_formed(),
{
    assert forall|kind: NameAction, names: Seq<Seq<char>>| #[trigger]
        name_argument(kind, names).well_formed() by {
        let entries = name_table(kind, names);
        assert forall|i: int| 0 <= i < entries.len() implies (#[trigger] entries[i]).1.well_formed(
        ) by {}
    }
    assert forall|list: Seq<(Seq<char>, usize)>| #[trigger] index_argument(list).well_formed() by {
        let entries = index_table(list);
        assert forall|i: int| 0 <= i < entries.len() implies (#[trigger] entries[i]).1.well_formed(
        ) by {}
    }
}

/// What tells two command names apart: the length, the first character and
/// the sixth.
spec fn fingerprint(name: Seq<char>) -> (nat, char, char) {
    (name.len(), name[0], name[5])
}

/// The fingerprints of the command names.
proof fn lemma_command_fingerprints()
    ensures
        command_names().len() == 19,
        fingerprint(command_names()[0]) == (8nat, 'l', 'v'),
        fingerprint(command_names()[1]) == (8nat, 'l', 'u'),
        fingerprint(command_names()[2]) == (13nat, 'c', 'g'),
        fingerprint(command_names()[3]) == (15nat, 's', 'l'),
        fingerprint(command_names()[4]) == (13nat, 's', 'l'),
        fingerprint(command_names()[5]) == (7nat, 'z', 'i'),
        fingerprint(command_names()[6]) == (8nat, 'z', 'o'),
        fingerprint(command_names()[7]) == (8nat, 'z', 'f'),
        fingerprint(command_names()[8]) == (11nat, 't', 'e'),
        fingerprint(command_names()[9]) == (17nat, 't', 'e'),
        fingerprint(command_names()[10]) == (10nat, 'm', 'e'),
        fingerprint(command_names()[11]) == (13nat, 'm', 'e'),
        fingerprint(command_names()[12]) == (10nat, 's', 'l'),
        fingerprint(command_names()[13]) == (21nat, 's', 'l'),
        fingerprint(command_names()[14]) == (16nat, 's', 'l'),
        fingerprint(command_names()[15]) == (20nat, 's', 'l'),
        fingerprint(command_names()[16]) == (22nat, 's', 'l'),
        fingerprint(command_names()[17]) == (12nat, 's', 'l'),
        fingerprint(command_names()[18]) == (14nat, 's', 'l'),
{
    reveal_strlit("load_vcd");
    reveal_strlit("load_url");
    reveal_strlit("config_reload");
    reveal_strlit("scroll_to_start");
    reveal_strlit("scroll_to_end");
    reveal_strlit("zoom_in");
    reveal_strlit("zoom_out");
    reveal_strlit("zoom_fit");
    reveal_strlit("toggle_menu");
    reveal_strlit("toggle_fullscreen");
    reveal_strlit("module_add");
    reveal_strlit("module_select");
    reveal_strlit("signal_add");
    reveal_strlit("signal_add_from_scope");
    reveal_strlit("signal_set_color");
    reveal_strlit("signal_set_name_type");
    reveal_strlit("signal_force_name_type");
    reveal_strlit("signal_focus");
    reveal_strlit("signal_unfocus");
}

/// No command name occurs twice.
pub proof fn lemma_command_names_distinct()
    ensures
        command_names().no_duplicates(),
{
    lemma_command_fingerprints();
    let names = command_names();
    assert forall|i: int, j: int| 0 <= i < names.len() && 0 <= j < names.len() && i != j implies
        names[i] != names[j] by {
        assert(fingerprint(names[i]) != fingerprint(names[j]));
    }
}

/// The table of the root holds the command names as its keys, in their
/// order, and each name leads to its own entry.
pub proof fn lemma_command_table_keys(state: StateView)
    ensures
        command_table(state).len() == command_names().len(),
        forall|k: int|
            0 <= k < command_names().len() ==> (#[trigger] command_table(state)[k]).0
                == command_names()[k],
        forall|k: int|
            0 <= k < command_names().len() ==> table_index(
                command_table(state),
                #[trigger] command_names()[k],
            ) == Some(k),
{
    let names = command_names();
    let table = command_table(state);
    lemma_command_names_distinct();
    assert forall|k: int| 0 <= k < names.len() implies (#[trigger] table[k]).0 == names[k] by {}
    assert forall|k: int| 0 <= k < names.len() implies table_index(table, #[trigger] names[k])
        == Some(k) by {
        assert forall|j: int| 0 <= j < k implies !has_key(names[k])(#[trigger] table[j]) by {
            assert(table[j].0 == names[j]);
        }
        assert(table[k].0 == names[k]);
        lemma_first_where_found(table, has_key(names[k]), k);
    }
}

/// For empty input the prompt expands nothing and offers every command, in
/// the order of the grammar, whatever the state.
pub proof fn lemma_empty_prompt(state: StateView)
    ensures
        resolution(Seq::empty(), grammar(state)).expanded == Seq::<char>::empty(),
        resolution(Seq::empty(), grammar(state)).suggestions == command_names(),
        resolution(Seq::empty(), grammar(state)).action is None,
{
    lemma_blank_input(
        Seq::empty(),
        ParamGreed::Word,
        command_names(),
        ParserView::Table(command_table(state)),
    );
}

/// No command name holds whitespace, and none is empty.
pub proof fn lemma_command_names_are_words()
    ensures
        forall|k: int, i: int|
            0 <= k < command_names().len() && 0 <= i < command_names()[k].len()
                ==> !is_whitespace(#[trigger] command_names()[k][i]),
        forall|k: int| 0 <= k < command_names().len() ==> (#[trigger] command_names()[k]).len() > 0,
{
    reveal_strlit("load_vcd");
    reveal_strlit("load_url");
    reveal_strlit("config_reload");
    reveal_strlit("scroll_to_start");
    reveal_strlit("scroll_to_end");
    reveal_strlit("zoom_in");
    reveal_strlit("zoom_out");
    reveal_strlit("zoom_fit");
    reveal_strlit("toggle_menu");
    reveal_strlit("toggle_fullscreen");
    reveal_strlit("module_add");
    reveal_strlit("module_select");
    reveal_strlit("signal_add");
    reveal_strlit("signal_add_from_scope");
    reveal_strlit("signal_set_color");
    reveal_strlit("signal_set_name_type");
    reveal_strlit("signal_force_name_type");
    reveal_strlit("signal_focus");
    reveal_strlit("signal_unfocus");
}

/// A command name typed in full is taken at once: the resolution goes on to
/// what the table of the root holds for it.
pub proof fn lemma_command_word(state: StateView, k: int)
    requires
        0 <= k < command_names().len(),
    ensures
        resolution(command_names()[k], grammar(state)) == resolution_after(
            command_names()[k],
            command_table(state)[k].1 is Terminal,
            resolution(Seq::empty(), command_table(state)[k].1),
        ),
{
    let name = command_names()[k];
    lemma_command_names_are_words();
    lemma_command_table_keys(state);
    assert forall|i: int| 0 <= i < name.len() implies !is_whitespace(#[trigger] name[i]) by {
        assert(!is_whitespace(command_names()[k][i]));
    }
    lemma_word_len_without_whitespace(name);
    assert(trim_start(name) =~= name);
    assert(leading_word(name, ParamGreed::Word) =~= name);
    assert(name.skip(name.len() as int) =~= Seq::<char>::empty());
    lemma_candidate_word_descends(
        name,
        ParamGreed::Word,
        command_names(),
        command_table(state),
        k,
    );
}

/// Tables with the same keys lead from a text to the same place.
pub proof fn lemma_table_index_by_keys(
    a: Seq<(Seq<char>, CommandView)>,
    b: Seq<(Seq<char>, CommandView)>,
    text: Seq<char>,
)
    requires
        a.len() == b.len(),
        forall|i: int| 0 <= i < a.len() ==> (#[trigger] a[i]).0 == b[i].0,
    ensures
        table_index(a, text) == table_index(b, text),
{
    match table_index(a, text) {
        Some(i) => {
            lemma_first_where_in_range(a, has_key(text));
            assert forall|j: int| 0 <= j < i implies !has_key(text)(#[trigger] b[j]) by {
                assert(!has_key(text)(a[j]));
            }
            assert(has_key(text)(a[i]));
            lemma_first_where_found(b, has_key(text), i);
        },
        None => {
            assert forall|j: int| 0 <= j < b.len() implies !has_key(text)(#[trigger] b[j]) by {
                if has_key(text)(a[j]) {
                    lemma_first_where_some(a, has_key(text), j);
                }
            }
            lemma_first_where_none(b, has_key(text));
        },
    }
}

/// The paths of the working directory bear on the command that loads a file
/// alone: where the resolution does not go on to that command, it is the
/// same whatever the directory holds.
pub proof fn lemma_directory_read_by_load_vcd_only(input: Seq<char>, a: StateView, b: StateView)
    requires
        a.vcd == b.vcd,
        a.color_names == b.color_names,
        !reads_directory(input),
    ensures
        resolution(input, grammar(a)) == resolution(input, grammar(b)),
{
    let ta = command_table(a);
    let tb = command_table(b);
    lemma_command_table_keys(a);
    lemma_command_table_keys(b);
    assert(ta[0].0 == "load_vcd"@);
    assert forall|k: int| 1 <= k < ta.len() implies ta[k] == tb[k] by {}
    assert forall|i: int| 0 <= i < ta.len() implies (#[trigger] ta[i]).0 == tb[i].0 by {
        assert(ta[i].0 == command_names()[i]);
        assert(tb[i].0 == command_names()[i]);
    }
    let rest = trim_start(input);
    let word = leading_word(rest, ParamGreed::Word);
    let after = rest.skip(word.len() as int);
    if rest.len() > 0 {
        match choice(word, after.len() > 0, command_names()) {
            Choice::Descend(text) => {
                assert(descent(input, ParamGreed::Word, command_names()) == Some(text));
                lemma_table_index_by_keys(ta, tb, text);
                lemma_first_where_in_range(ta, has_key(text));
                match table_index(ta, text) {
                    Some(i) => {
                        assert(has_key(text)(ta[i]));
                        assert(i != 0);
                        assert(ta[i] == tb[i]);
                    },
                    None => {},
                }
            },
            _ => {},
        }
    }
}

/// The state with one more signal in the loaded waveform.
pub open spec fn with_signal(state: StateView, name: Seq<char>) -> StateView
    recommends
        state.vcd is Some,
{
    StateView {
        vcd: Some(
            VcdDataView { signals: state.vcd->0.signals.push(name), ..state.vcd->0 },
        ),
        ..state
    }
}

/// A signal that is added to the waveform is offered at once: the argument
/// of the command that adds a signal has the new list of signals as its
/// candidates, and nothing else in the grammar changes.
pub proof fn lemma_signal_added(state: StateView, name: Seq<char>)
    requires
        state.vcd is Some,
    ensures
        resolution("signal_add"@, grammar(state)).suggestions == signal_names(state),
        resolution("signal_add"@, grammar(with_signal(state, name))).suggestions == signal_names(
            state,
        ).push(name),
        forall|k: int|
            0 <= k < command_names().len() && command_names()[k] != "signal_add"@
                ==> #[trigger] command_table(with_signal(state, name))[k] == command_table(
                state,
            )[k],
{
    let grown = with_signal(state, name);
    lemma_command_word(state, 12);
    lemma_command_word(grown, 12);
    assert(command_names()[12] == "signal_add"@);
    lemma_blank_input(
        Seq::empty(),
        ParamGreed::Word,
        signal_names(state),
        ParserView::Table(name_table(NameAction::AddSignal, signal_names(state))),
    );
    lemma_blank_input(
        Seq::empty(),
        ParamGreed::Word,
        signal_names(grown),
        ParserView::Table(name_table(NameAction::AddSignal, signal_names(grown))),
    );
    assert forall|k: int|
        0 <= k < command_names().len() && command_names()[k] != "signal_add"@ implies #[trigger] command_table(
        grown,
    )[k] == command_table(state)[k] by {}
}

/// While no waveform is loaded, the arguments that name a part of the
/// waveform have no candidates and take no word: no input resolves to an
/// action on a scope or a signal.
pub proof fn lemma_unloaded_document(state: StateView, input: Seq<char>, kind: NameAction)
    requires
        state.vcd is None,
    ensures
        scope_names(state).len() == 0,
        signal_names(state).len() == 0,
        displayed_labels(displayed_names(state)).len() == 0,
        names_of(active_scope_signals(state)).len() == 0,
        resolution(input, name_argument(kind, Seq::empty())).action is None,
        resolution(input, index_argument(active_scope_signals(state))).action is None,
        resolution(
            input,
            CommandView::NonTerminal(
                ParamGreed::Word,
                displayed_labels(displayed_names(state)),
                ParserView::Build(
                    ActionBuilder::FocusSignal(displayed_names(state).len() as usize),
                ),
            ),
        ).action is None,
{
    let word = leading_word(trim_start(input), ParamGreed::Word);
    lemma_first_where_none(name_table(kind, Seq::empty()), has_key(word));
    lemma_first_where_none(index_table(Seq::empty()), has_key(word));
    assert(index_table(active_scope_signals(state)) =~= index_table(Seq::empty()));
}

/// The label of the displayed signal at place `i` leads back to place `i`:
/// from it the prompt makes the action that focuses the signal at `i`,
/// whatever the names of the signals are.
pub proof fn lemma_displayed_label_focuses(names: Seq<Seq<char>>, i: int)
    requires
        0 <= i < names.len() <= usize::MAX,
    ensures
        built_action(ActionBuilder::FocusSignal(names.len() as usize), displayed_labels(names)[i])
            == Some(MessageView::FocusSignal(i as usize)),
{
    let n = names.len();
    let place = label_of(i as nat, n);
    let label = displayed_labels(names)[i];
    lemma_fixed_width_label_shape(i as nat, label_width(n));
    lemma_label_round_trip(i as usize, n as usize);
    assert(label == place + seq!['_'] + names[i]);
    assert forall|j: int| 0 <= j < place.len() implies !is_underscore()(#[trigger] label[j]) by {
        assert(label[j] == place[j]);
        assert(is_label_letter(place[j]));
    }
    assert(is_underscore()(label[place.len() as int]));
    lemma_first_where_found(label, is_underscore(), place.len() as int);
    assert(label.take(place.len() as int) =~= place);
}

/// No two displayed signals have the same label, even where they have the
/// same name.
pub proof fn lemma_displayed_labels_distinct(names: Seq<Seq<char>>)
    requires
        names.len() <= usize::MAX,
    ensures
        displayed_labels(names).no_duplicates(),
{
    let labels = displayed_labels(names);
    assert forall|i: int, j: int|
        0 <= i < labels.len() && 0 <= j < labels.len() && i != j implies labels[i] != labels[j] by {
        lemma_displayed_label_focuses(names, i);
        lemma_displayed_label_focuses(names, j);
    }
}

/// Whether no list of names of the state holds a name twice.
pub open spec fn has_distinct_names(state: StateView) -> bool {
    &&& scope_names(state).no_duplicates()
    &&& signal_names(state).no_duplicates()
    &&& names_of(active_scope_signals(state)).no_duplicates()
    &&& state.color_names.no_duplicates()
    &&& state.directory.no_duplicates()
}

/// The candidates that a node offers; none for a leaf.
pub open spec fn candidates_of(node: CommandView) -> Seq<Seq<char>> {
    match node {
        CommandView::Terminal(_) => Seq::empty(),
        CommandView::NonTerminal(_, candidates, _) => candidates,
    }
}

/// What is kept of a list without duplicates has no duplicates.
proof fn lemma_filter_no_duplicates(list: Seq<Seq<char>>, p: spec_fn(Seq<char>) -> bool)
    requires
        list.no_duplicates(),
    ensures
        list.filter(p).no_duplicates(),
    decreases list.len(),
{
    reveal(Seq::filter);
    if list.len() > 0 {
        let front = list.drop_last();
        let last = list.last();
        lemma_filter_no_duplicates(front, p);
        if p(last) {
            let kept = front.filter(p);
            if kept.contains(last) {
                front.lemma_filter_contains_rev(p, last);
                let j = choose|j: int| 0 <= j < front.len() && front[j] == last;
                assert(list[j] == list[list.len() - 1]);
            }
            assert(list.filter(p) == kept.push(last));
            assert forall|i: int, j: int|
                0 <= i < kept.len() + 1 && 0 <= j < kept.len() + 1 && i != j implies kept.push(
                last,
            )[i] != kept.push(last)[j] by {
                if i < kept.len() && j < kept.len() {
                } else if i < kept.len() {
                    assert(kept.contains(kept[i]));
                } else {
                    assert(kept.contains(kept[j]));
                }
            }
        }
    }
}

/// Every node of the grammar offers each of its candidates once, provided
/// that no list of names of the state holds a name twice. The displayed
/// signals may share names: their labels tell them apart.
pub proof fn lemma_candidates_distinct(state: StateView)
    requires
        has_distinct_names(state),
        displayed_names(state).len() <= usize::MAX,
    ensures
        candidates_of(grammar(state)).no_duplicates(),
        forall|k: int|
            0 <= k < command_table(state).len() ==> candidates_of(
                (#[trigger] command_table(state)[k]).1,
            ).no_duplicates(),
{
    lemma_command_names_distinct();
    lemma_filter_no_duplicates(state.directory, names_vcd_file());
    lemma_displayed_labels_distinct(displayed_names(state));
    assert(name_type_names().no_duplicates()) by {
        reveal_strlit("Local");
        reveal_strlit("Unique");
        reveal_strlit("Global");
        assert(name_type_names()[0].len() == 5);
        assert(name_type_names()[1][0] == 'U');
        assert(name_type_names()[2][0] == 'G');
        assert(name_type_names()[1].len() == 6);
    }
    assert(Seq::<Seq<char>>::empty().no_duplicates());
}

/// A copy of `names`.
pub fn clone_names(names: &Vec<String>) -> (copy: Vec<String>)
    ensures
        copy.deep_view() == names.deep_view(),
{
    let mut copy: Vec<String> = Vec::new();
    let mut i: usize = 0;
    while i < names.len()
        invariant
            i <= names.len(),
            copy.len() == i,
            forall|j: int| 0 <= j < i ==> copy@[j]@ == names@[j]@,
        decreases names.len() - i,
    {
        copy.push(names[i].clone());
        i = i + 1;
    }
    assert(copy.deep_view() =~= names.deep_view());
    copy
}

/// Tests whether `path` names a waveform file.
pub fn is_vcd_file(path: &str) -> (r: bool)
    ensures
        r == is_vcd_path(path@),
{
    let chars: Vec<char> = chars_of(path);
    let n: usize = chars.len();
    n >= 5 && chars[n - 5] != '/' && chars[n - 4] == '.' && chars[n - 3] == 'v' && chars[n - 2]
        == 'c' && chars[n - 1] == 'd'
}

/// The paths of `directory` that name waveform files.
pub fn list_vcd_files(directory: &Vec<String>) -> (files: Vec<String>)
    ensures
        files.deep_view() == vcd_files(directory.deep_view()),
{
    let mut files: Vec<String> = Vec::new();
    let mut i: usize = 0;
    proof {
        reveal(Seq::filter);
        assert(directory.deep_view().take(0) =~= Seq::<Seq<char>>::empty());
        assert(files.deep_view() =~= Seq::<Seq<char>>::empty());
    }
    while i < directory.len()
        invariant
            i <= directory.len(),
            files.deep_view() == vcd_files(directory.deep_view().take(i as int)),
        decreases directory.len() - i,
    {
        proof {
            let upto = directory.deep_view().take(i + 1);
            let before = directory.deep_view().take(i as int);
            assert(upto =~= before.push(directory@[i as int]@));
            before.lemma_filter_push(directory@[i as int]@, names_vcd_file());
        }
        if is_vcd_file(directory[i].as_str()) {
            let ghost before = files.deep_view();
            files.push(directory[i].clone());
            assert(files.deep_view() =~= before.push(directory@[i as int]@));
        }
        i = i + 1;
    }
    assert(directory.deep_view().take(i as int) =~= directory.deep_view());
    files
}

/// The labels of the displayed signals with these names.
pub fn label_displayed_signals(names: &Vec<String>) -> (labels: Vec<String>)
    ensures
        labels.deep_view() == displayed_labels(names.deep_view()),
{
    let n: usize = names.len();
    let mut labels: Vec<String> = Vec::new();
    let mut i: usize = 0;
    while i < n
        invariant
            n == names.len(),
            i <= n,
            labels.len() == i,
            forall|j: int|
                0 <= j < i ==> labels@[j]@ == label_of(j as nat, n as nat) + seq!['_']
                    + names@[j]@,
        decreases n - i,
    {
        let mut label: String = uint_idx_to_alpha_idx(i, n);
        proof {
            reveal_strlit("_");
        }
        label.append("_");
        label.append(names[i].as_str());
        assert(label@ =~= label_of(i as nat, n as nat) + seq!['_'] + names@[i as int]@);
        labels.push(label);
        i = i + 1;
    }
    assert(labels.deep_view() =~= displayed_labels(names.deep_view()));
    labels
}

/// The three names of the name types.
fn list_name_types() -> (names: Vec<String>)
    ensures
        names.deep_view() == name_type_names(),
{
    let mut names: Vec<String> = Vec::new();
    names.push("Local".to_owned());
    names.push("Unique".to_owned());
    names.push("Global".to_owned());
    assert(names.deep_view() =~= name_type_names());
    names
}

/// The action of kind `kind` on `name`.
fn name_message(kind: NameAction, name: String) -> (message: Message)
    ensures
        message@ == named_action(kind, name@),
{
    match kind {
        NameAction::AddScope => Message::AddScope(ScopeDescriptor::Name(name)),
        NameAction::SetActiveScope => Message::SetActiveScope(ScopeDescriptor::Name(name)),
        NameAction::AddSignal => Message::AddSignal(SignalDescriptor::Name(name)),
        NameAction::SignalColorChange => Message::SignalColorChange(None, name),
    }
}

/// The node for an argument that is one of `names`.
fn single_word(kind: NameAction, names: &Vec<String>) -> (node: Command)
    ensures
        node@ == name_argument(kind, names.deep_view()),
{
    let mut table: Vec<(String, Command)> = Vec::new();
    let mut i: usize = 0;
    while i < names.len()
        invariant
            i <= names.len(),
            table.len() == i,
            forall|j: int|
                0 <= j < i ==> (#[trigger] table@[j]).0@ == names@[j]@ && table@[j].1@
                    == CommandView::Terminal(named_action(kind, names@[j]@)),
        decreases names.len() - i,
    {
        let message: Message = name_message(kind, names[i].clone());
        table.push((names[i].clone(), Command::Terminal(message)));
        i = i + 1;
    }
    assert(entries_view(table@) =~= name_table(kind, names.deep_view()));
    Command::NonTerminal(ParamGreed::Word, clone_names(names), Parser::Table(table))
}

/// The node for an argument that names one of the signals of `list`.
fn single_word_indexed(list: &Vec<(String, usize)>) -> (node: Command)
    ensures
        node@ == index_argument(indexed_names_view(list@)),
{
    let mut names: Vec<String> = Vec::new();
    let mut table: Vec<(String, Command)> = Vec::new();
    let mut i: usize = 0;
    while i < list.len()
        invariant
            i <= list.len(),
            table.len() == i,
            names.len() == i,
            forall|j: int| 0 <= j < i ==> (#[trigger] names@[j])@ == list@[j].0@,
            forall|j: int|
                0 <= j < i ==> (#[trigger] table@[j]).0@ == list@[j].0@ && table@[j].1@
                    == CommandView::Terminal(
                    MessageView::AddSignal(SignalDescriptorView::Id(list@[j].1)),
                ),
        decreases list.len() - i,
    {
        names.push(list[i].0.clone());
        table.push(
            (
                list[i].0.clone(),
                Command::Terminal(Message::AddSignal(SignalDescriptor::Id(list[i].1))),
            ),
        );
        i = i + 1;
    }
    assert(entries_view(table@) =~= index_table(indexed_names_view(list@)));
    assert(names.deep_view() =~= names_of(indexed_names_view(list@)));
    Command::NonTerminal(ParamGreed::Word, names, Parser::Table(table))
}

/// A table entry for the command `name`.
fn entry(name: &str, node: Command) -> (e: (String, Command))
    ensures
        e.0@ == name@,
        e.1@ == node@,
{
    (name.to_owned(), node)
}

/// The node for an argument from which `builder` makes the action.
fn built_argument(greed: ParamGreed, candidates: Vec<String>, builder: ActionBuilder) -> (node:
    Command)
    ensures
        node@ == CommandView::NonTerminal(
            greed,
            candidates.deep_view(),
            ParserView::Build(builder),
        ),
{
    Command::NonTerminal(greed, candidates, Parser::Build(builder))
}

/// The names of the commands.
fn list_command_names() -> (names: Vec<String>)
    ensures
        names.deep_view() == command_names(),
{
    let mut names: Vec<String> = Vec::new();
    names.push("load_vcd".to_owned());
    names.push("load_url".to_owned());
    names.push("config_reload".to_owned());
    names.push("scroll_to_start".to_owned());
    names.push("scroll_to_end".to_owned());
    names.push("zoom_in".to_owned());
    names.push("zoom_out".to_owned());
    names.push("zoom_fit".to_owned());
    names.push("toggle_menu".to_owned());
    names.push("toggle_fullscreen".to_owned());
    names.push("module_add".to_owned());
    names.push("module_select".to_owned());
    names.push("signal_add".to_owned());
    names.push("signal_add_from_scope".to_owned());
    names.push("signal_set_color".to_owned());
    names.push("signal_set_name_type".to_owned());
    names.push("signal_force_name_type".to_owned());
    names.push("signal_focus".to_owned());
    names.push("signal_unfocus".to_owned());
    assert(names.deep_view() =~= command_names());
    names
}

/// The grammar of the prompt for `state`: the command names at the root,
/// and under each name the argument that the command takes, with the
/// candidates that `state` gives for it.
pub fn get_parser(state: &State) -> (root: Command)
    ensures
        root@ == grammar(state@),
        root@.well_formed(),
{
    let no_names: Vec<String> = Vec::new();
    let no_signals: Vec<(String, usize)> = Vec::new();
    assert(no_names.deep_view() =~= Seq::<Seq<char>>::empty());
    assert(indexed_names_view(no_signals@) =~= Seq::<(Seq<char>, usize)>::empty());
    let scopes: &Vec<String> = match &state.vcd {
        Some(vcd) => &vcd.scopes,
        None => &no_names,
    };
    let signals: &Vec<String> = match &state.vcd {
        Some(vcd) => &vcd.signals,
        None => &no_names,
    };
    let displayed: &Vec<String> = match &state.vcd {
        Some(vcd) => &vcd.displayed_signals,
        None => &no_names,
    };
    let in_active_scope: &Vec<(String, usize)> = match &state.vcd {
        Some(vcd) => &vcd.signals_in_active_scope,
        None => &no_signals,
    };
    let mut table: Vec<(String, Command)> = Vec::new();
    table.push(
        entry(
            "load_vcd",
            built_argument(
                ParamGreed::Rest,
                list_vcd_files(&state.directory),
                ActionBuilder::LoadVcd,
            ),
        ),
    );
    table.push(
        entry(
            "load_url",
            built_argument(ParamGreed::Rest, Vec::new(), ActionBuilder::LoadVcdFromUrl),
        ),
    );
    table.push(entry("config_reload", Command::Terminal(Message::ReloadConfig)));
    table.push(entry("scroll_to_start", Command::Terminal(Message::ScrollToStart)));
    table.push(entry("scroll_to_end", Command::Terminal(Message::ScrollToEnd)));
    table.push(
        entry("zoom_in", Command::Terminal(Message::CanvasZoom { delta: ZoomFactor::Half })),
    );
    table.push(
        entry("zoom_out", Command::Terminal(Message::CanvasZoom { delta: ZoomFactor::Double })),
    );
    table.push(entry("zoom_fit", Command::Terminal(Message::ZoomToFit)));
    table.push(entry("toggle_menu", Command::Terminal(Message::ToggleMenu)));
    table.push(entry("toggle_fullscreen", Command::Terminal(Message::ToggleFullscreen)));
    table.push(entry("module_add", single_word(NameAction::AddScope, scopes)));
    table.push(entry("module_select", single_word(NameAction::SetActiveScope, scopes)));
    table.push(entry("signal_add", single_word(NameAction::AddSignal, signals)));
    table.push(entry("signal_add_from_scope", single_word_indexed(in_active_scope)));
    table.push(
        entry("signal_set_color", single_word(NameAction::SignalColorChange, &state.color_names)),
    );
    table.push(
        entry(
            "signal_set_name_type",
            built_argument(
                ParamGreed::Word,
                list_name_types(),
                ActionBuilder::ChangeSignalNameType,
            ),
        ),
    );
    table.push(
        entry(
            "signal_force_name_type",
            built_argument(
                ParamGreed::Word,
                list_name_types(),
                ActionBuilder::ForceSignalNameTypes,
            ),
        ),
    );
    table.push(
        entry(
            "signal_focus",
            built_argument(
                ParamGreed::Word,
                label_displayed_signals(displayed),
                ActionBuilder::FocusSignal(displayed.len()),
            ),
        ),
    );
    table.push(entry("signal_unfocus", Command::Terminal(Message::UnfocusSignal)));
    proof {
        assert(entries_view(table@) =~= command_table(state@));
        lemma_grammar_well_formed(state@);
    }
    Command::NonTerminal(ParamGreed::Word, list_command_names(), Parser::Table(table))
}

/// Tells the prompt what to show for `input`: pushes onto `msgs` the update
/// that holds the expansion of `input` against the grammar for `state`, and
/// the candidates for the word being typed.
pub fn run_fuzzy_parser(input: &str, state: &State, msgs: &mut Vec<Message>)
    ensures
        final(msgs)@.len() == old(msgs)@.len() + 1,
        final(msgs)@.drop_last() == old(msgs)@,
        final(msgs)@.last()@ == (MessageView::CommandPromptUpdate {
            expanded: resolution(input@, grammar(state@)).expanded,
            suggestions: resolution(input@, grammar(state@)).suggestions,
        }),
{
    let output: FuzzyOutput = expand_command(input, get_parser(state));
    msgs.push(
        Message::CommandPromptUpdate {
            expanded: output.expanded,
            suggestions: output.suggestions,
        },
    );
    assert(msgs@.drop_last() =~= old(msgs)@);
}

/// Tells whether the prompt's answer to `input` depends on the paths of the
/// working directory, so that they need not be listed for any other input.
pub fn needs_directory(input: &str) -> (r: bool)
    ensures
        r == reads_directory(input@),
{
    match descent_text(input, ParamGreed::Word, &list_command_names()) {
        Some(text) => text == "load_vcd".to_owned(),
        None => false,
    }
}

} // verus!
