use surfer::commands::{
    get_parser, is_vcd_file, label_displayed_signals, list_vcd_files, needs_directory,
    run_fuzzy_parser, State, VcdData,
};
use surfer::expand::{expand_command, parse_command, resolve};
use surfer::message::{Message, ScopeDescriptor, SignalDescriptor, SignalNameType, ZoomFactor};

fn names(list: &[&str]) -> Vec<String> {
    list.iter().map(|s| s.to_string()).collect()
}

fn unloaded() -> State {
    State { vcd: None, color_names: names(&["red", "green", "blue"]), directory: Vec::new() }
}

fn loaded() -> State {
    State {
        vcd: Some(VcdData {
            scopes: names(&["top", "top.cpu", "top.mem"]),
            signals: names(&["clk", "rst", "data"]),
            displayed_signals: names(&["clk", "data", "clk"]),
            signals_in_active_scope: vec![("clk".to_string(), 7), ("rst".to_string(), 9)],
        }),
        color_names: names(&["red", "green", "blue"]),
        directory: names(&["./a.vcd", "./notes.txt", "./b.vcd", "./.vcd", "./dir.vcd/x"]),
    }
}

fn command_names() -> Vec<String> {
    names(&[
        "load_vcd",
        "load_url",
        "config_reload",
        "scroll_to_start",
        "scroll_to_end",
        "zoom_in",
        "zoom_out",
        "zoom_fit",
        "toggle_menu",
        "toggle_fullscreen",
        "module_add",
        "module_select",
        "signal_add",
        "signal_add_from_scope",
        "signal_set_color",
        "signal_set_name_type",
        "signal_force_name_type",
        "signal_focus",
        "signal_unfocus",
    ])
}

#[test]
fn grammar_is_well_formed() {
    assert!(get_parser(&unloaded()).is_well_formed());
    assert!(get_parser(&loaded()).is_well_formed());
}

#[test]
fn empty_input_offers_every_command() {
    let out = expand_command("", get_parser(&loaded()));
    assert_eq!(out.expanded, "");
    assert_eq!(out.suggestions, command_names());
}

#[test]
fn unknown_command_stops_at_the_root() {
    let res = resolve("bogus_cmd", get_parser(&loaded()));
    assert_eq!(res.expanded, "bogus_cmd");
    assert_eq!(res.suggestions, Vec::<String>::new());
    assert_eq!(res.action, None);
    let partly = resolve("zz", get_parser(&loaded()));
    assert_eq!(partly.expanded, "zz");
    assert_eq!(partly.suggestions, Vec::<String>::new());
}

#[test]
fn unknown_command_is_held_against_the_names() {
    let res = resolve("tgl", get_parser(&loaded()));
    assert_eq!(res.expanded, "tgl");
    assert_eq!(res.suggestions, names(&["toggle_menu", "toggle_fullscreen"]));
    assert_eq!(res.action, None);
}

#[test]
fn commands_without_argument_resolve_to_their_action() {
    let cases: Vec<(&str, Message)> = vec![
        ("config_reload", Message::ReloadConfig),
        ("scroll_to_start", Message::ScrollToStart),
        ("scroll_to_end", Message::ScrollToEnd),
        ("zoom_in", Message::CanvasZoom { delta: ZoomFactor::Half }),
        ("zoom_out", Message::CanvasZoom { delta: ZoomFactor::Double }),
        ("zoom_fit", Message::ZoomToFit),
        ("toggle_menu", Message::ToggleMenu),
        ("toggle_fullscreen", Message::ToggleFullscreen),
        ("signal_unfocus", Message::UnfocusSignal),
    ];
    for (input, message) in cases {
        let res = resolve(input, get_parser(&loaded()));
        assert_eq!(res.expanded, input);
        assert_eq!(res.suggestions, Vec::<String>::new());
        assert_eq!(res.action, Some(message));
        assert!(!res.defaulted);
    }
}

#[test]
fn prefix_of_several_commands_is_kept() {
    let res = resolve("signal_a", get_parser(&loaded()));
    assert_eq!(res.expanded, "signal_a");
    assert_eq!(
        res.suggestions,
        names(&[
            "signal_add",
            "signal_add_from_scope",
            "signal_set_name_type",
            "signal_force_name_type",
        ])
    );
    let zoom = resolve("zoom", get_parser(&loaded()));
    assert_eq!(zoom.expanded, "zoom");
    assert_eq!(zoom.suggestions, names(&["zoom_in", "zoom_fit", "zoom_out"]));
}

#[test]
fn command_name_leads_on_to_its_argument() {
    let res = resolve("module_add", get_parser(&loaded()));
    assert_eq!(res.expanded, "module_add ");
    assert_eq!(res.suggestions, names(&["top", "top.cpu", "top.mem"]));
    assert_eq!(res.action, None);
}

#[test]
fn scope_commands_take_a_known_scope() {
    let add = resolve("module_add top.cpu", get_parser(&loaded()));
    assert_eq!(add.expanded, "module_add top.cpu");
    assert_eq!(
        add.action,
        Some(Message::AddScope(ScopeDescriptor::Name("top.cpu".to_string())))
    );
    let select = resolve("module_select top", get_parser(&loaded()));
    assert_eq!(
        select.action,
        Some(Message::SetActiveScope(ScopeDescriptor::Name("top".to_string())))
    );
    let unknown = resolve("module_add nowhere", get_parser(&loaded()));
    assert_eq!(unknown.expanded, "module_add nowhere");
    assert_eq!(unknown.suggestions, Vec::<String>::new());
    assert_eq!(unknown.action, None);
}

#[test]
fn signal_commands_take_a_known_signal() {
    let add = resolve("signal_add rst", get_parser(&loaded()));
    assert_eq!(
        add.action,
        Some(Message::AddSignal(SignalDescriptor::Name("rst".to_string())))
    );
    let from_scope = resolve("signal_add_from_scope rst", get_parser(&loaded()));
    assert_eq!(from_scope.expanded, "signal_add_from_scope rst");
    assert_eq!(from_scope.action, Some(Message::AddSignal(SignalDescriptor::Id(9))));
    let not_in_scope = resolve("signal_add_from_scope data", get_parser(&loaded()));
    assert_eq!(not_in_scope.action, None);
    assert_eq!(not_in_scope.suggestions, Vec::<String>::new());
}

#[test]
fn color_command_takes_a_color_of_the_theme() {
    let res = resolve("signal_set_color gre", get_parser(&loaded()));
    assert_eq!(res.expanded, "signal_set_color green");
    assert_eq!(res.suggestions, names(&["green"]));
    assert_eq!(res.action, None);
    let done = resolve("signal_set_color green", get_parser(&loaded()));
    assert_eq!(done.action, Some(Message::SignalColorChange(None, "green".to_string())));
    let unknown = resolve("signal_set_color mauve", get_parser(&loaded()));
    assert_eq!(unknown.action, None);
}

#[test]
fn name_type_commands_take_a_name_type() {
    let first = resolve("signal_set_name_type", get_parser(&loaded()));
    assert_eq!(first.expanded, "signal_set_name_type ");
    assert_eq!(first.suggestions, names(&["Local", "Unique", "Global"]));
    let unique = resolve("signal_set_name_type Unique", get_parser(&loaded()));
    assert_eq!(
        unique.action,
        Some(Message::ChangeSignalNameType(None, SignalNameType::Unique))
    );
    assert!(!unique.defaulted);
    let global = resolve("signal_force_name_type global", get_parser(&loaded()));
    assert_eq!(global.expanded, "signal_force_name_type Global");
    assert_eq!(global.action, Some(Message::ForceSignalNameTypes(SignalNameType::Global)));
    assert!(!global.defaulted);
    let local = resolve("signal_force_name_type Local", get_parser(&loaded()));
    assert_eq!(local.action, Some(Message::ForceSignalNameTypes(SignalNameType::Local)));
    assert!(!local.defaulted);
}

#[test]
fn name_type_falls_back_to_local_and_says_so() {
    let res = resolve("signal_set_name_type xyz", get_parser(&loaded()));
    assert_eq!(res.expanded, "signal_set_name_type xyz");
    assert_eq!(res.action, Some(Message::ChangeSignalNameType(None, SignalNameType::Local)));
    assert!(res.defaulted);
    let forced = resolve("signal_force_name_type 42", get_parser(&loaded()));
    assert_eq!(forced.action, Some(Message::ForceSignalNameTypes(SignalNameType::Local)));
    assert!(forced.defaulted);
}

#[test]
fn focus_command_takes_the_label_of_a_displayed_signal() {
    let first = resolve("signal_focus", get_parser(&loaded()));
    assert_eq!(first.expanded, "signal_focus ");
    assert_eq!(first.suggestions, names(&["a_clk", "b_data", "c_clk"]));
    let by_label = resolve("signal_focus c_clk", get_parser(&loaded()));
    assert_eq!(by_label.expanded, "signal_focus c_clk");
    assert_eq!(by_label.action, Some(Message::FocusSignal(2)));
    let by_prefix = resolve("signal_focus b", get_parser(&loaded()));
    assert_eq!(by_prefix.expanded, "signal_focus b_data");
    assert_eq!(by_prefix.action, None);
    let by_prefix_and_space = resolve("signal_focus b ", get_parser(&loaded()));
    assert_eq!(by_prefix_and_space.expanded, "signal_focus b_data");
    assert_eq!(by_prefix_and_space.action, Some(Message::FocusSignal(1)));
}

#[test]
fn focus_command_refuses_what_is_no_label_of_a_displayed_signal() {
    let beyond = resolve("signal_focus p_x", get_parser(&loaded()));
    assert_eq!(beyond.expanded, "signal_focus p_x");
    assert_eq!(beyond.action, None);
    let no_label = resolve("signal_focus zz", get_parser(&loaded()));
    assert_eq!(no_label.expanded, "signal_focus zz");
    assert_eq!(no_label.suggestions, Vec::<String>::new());
    assert_eq!(no_label.action, None);
}

#[test]
fn load_url_takes_the_rest_of_the_input() {
    let res = resolve("load_url http://host/a b.vcd", get_parser(&loaded()));
    assert_eq!(res.expanded, "load_url http://host/a b.vcd");
    assert_eq!(res.suggestions, Vec::<String>::new());
    assert_eq!(res.action, Some(Message::LoadVcdFromUrl("http://host/a b.vcd".to_string())));
}

#[test]
fn load_vcd_offers_the_waveform_files() {
    let first = resolve("load_vcd", get_parser(&loaded()));
    assert_eq!(first.expanded, "load_vcd ");
    assert_eq!(first.suggestions, names(&["./a.vcd", "./b.vcd"]));
    let typed = resolve("load_vcd ./b", get_parser(&loaded()));
    assert_eq!(typed.expanded, "load_vcd ./b.vcd");
    assert_eq!(typed.action, None);
    let exact = resolve("load_vcd ./b.vcd", get_parser(&loaded()));
    assert_eq!(exact.action, Some(Message::LoadVcd("./b.vcd".to_string())));
    let elsewhere = resolve("load_vcd /tmp/my trace.vcd", get_parser(&loaded()));
    assert_eq!(elsewhere.expanded, "load_vcd /tmp/my trace.vcd");
    assert_eq!(elsewhere.action, Some(Message::LoadVcd("/tmp/my trace.vcd".to_string())));
}

#[test]
fn unloaded_document_takes_no_argument() {
    for input in ["module_add x", "module_select x", "signal_add x", "signal_add_from_scope x",
        "signal_focus a", "signal_focus a_x"]
    {
        let res = resolve(input, get_parser(&unloaded()));
        assert_eq!(res.expanded, input);
        assert_eq!(res.suggestions, Vec::<String>::new());
        assert_eq!(res.action, None);
    }
    let res = resolve("signal_add ", get_parser(&unloaded()));
    assert_eq!(res.expanded, "signal_add ");
    assert_eq!(res.suggestions, Vec::<String>::new());
    let still = parse_command("zoom_fit", get_parser(&unloaded()));
    assert_eq!(still, Some(Message::ZoomToFit));
}

#[test]
fn added_signal_is_offered_at_once() {
    let mut state = loaded();
    let before = resolve("signal_add ", get_parser(&state));
    assert_eq!(before.suggestions, names(&["clk", "rst", "data"]));
    let scopes_before = resolve("module_add ", get_parser(&state));
    if let Some(vcd) = state.vcd.as_mut() {
        vcd.signals.push("valid".to_string());
    }
    let after = resolve("signal_add ", get_parser(&state));
    assert_eq!(after.suggestions, names(&["clk", "rst", "data", "valid"]));
    let scopes_after = resolve("module_add ", get_parser(&state));
    assert_eq!(scopes_before, scopes_after);
    let added = resolve("signal_add valid", get_parser(&state));
    assert_eq!(
        added.action,
        Some(Message::AddSignal(SignalDescriptor::Name("valid".to_string())))
    );
}

#[test]
fn prompt_update_is_pushed() {
    let mut msgs = vec![Message::ZoomToFit];
    run_fuzzy_parser("toggle_m", &loaded(), &mut msgs);
    assert_eq!(
        msgs,
        vec![
            Message::ZoomToFit,
            Message::CommandPromptUpdate {
                expanded: "toggle_menu".to_string(),
                suggestions: names(&["toggle_menu"]),
            },
        ]
    );
}

#[test]
fn waveform_files_are_told_by_their_extension() {
    assert!(is_vcd_file("a.vcd"));
    assert!(is_vcd_file("./dir/trace.vcd"));
    assert!(is_vcd_file("..vcd"));
    assert!(!is_vcd_file(".vcd"));
    assert!(!is_vcd_file("dir/.vcd"));
    assert!(!is_vcd_file("a.VCD"));
    assert!(!is_vcd_file("a.vcd.gz"));
    assert!(!is_vcd_file("avcd"));
    assert!(!is_vcd_file(""));
    assert_eq!(
        list_vcd_files(&names(&["x.vcd", "y.txt", ".vcd", "z.vcd"])),
        names(&["x.vcd", "z.vcd"])
    );
}

#[test]
fn displayed_signals_are_labelled_by_place() {
    assert_eq!(label_displayed_signals(&Vec::new()), Vec::<String>::new());
    assert_eq!(label_displayed_signals(&names(&["x", "x"])), names(&["a_x", "b_x"]));
    let many: Vec<String> = (0..17).map(|i| format!("s{}", i)).collect();
    let labels = label_displayed_signals(&many);
    assert_eq!(labels[0], "aa_s0");
    assert_eq!(labels[15], "ap_s15");
    assert_eq!(labels[16], "ba_s16");
}

#[test]
fn directory_is_needed_for_load_vcd_only() {
    assert!(needs_directory("load_vcd"));
    assert!(needs_directory("load_vcd x"));
    assert!(needs_directory("  load_v a"));
    assert!(!needs_directory("load_v"));
    assert!(!needs_directory("load_"));
    assert!(!needs_directory("load_url x"));
    assert!(!needs_directory(""));
    assert!(!needs_directory("signal_add clk"));
    let mut state = loaded();
    let with = resolve("module_add to", get_parser(&state));
    state.directory = Vec::new();
    let without = resolve("module_add to", get_parser(&state));
    assert_eq!(with, without);
}
