use dimsome::hotkeys::{
    action_for_hotkey_id, handle_command, parse_modifier_flags, register_binding,
    update_registrations, virtual_key_code, BindingOutcome, CommandOutcome, HotkeyAction,
    shutdown_command, update_bindings_command, HotkeyCommand, HotkeyManager, HOTKEY_DIM_LESS_ID, HOTKEY_DIM_MORE_ID, MOD_ALT, MOD_CONTROL, MOD_SHIFT,
    MOD_WIN,
};
use dimsome::models::{HotkeyBinding, ManualHotkeys};

#[test]
fn parses_single_modifier() {
    assert_eq!(parse_modifier_flags("Alt"), Some(MOD_ALT));
}

#[test]
fn parses_multiple_modifiers() {
    let parsed = parse_modifier_flags("Control, Shift");
    assert_eq!(parsed, Some(MOD_CONTROL | MOD_SHIFT));
}

#[test]
fn resolves_virtual_key_codes() {
    assert_eq!(virtual_key_code("PageDown"), Some(0x22));
    assert_eq!(virtual_key_code("A"), Some('A' as u32));
}

#[test]
fn modifier_names_ignore_case_and_spacing() {
    assert_eq!(parse_modifier_flags("  ctrl + WIN "), Some(MOD_CONTROL | MOD_WIN));
    assert_eq!(parse_modifier_flags("windows,shift,,"), Some(MOD_WIN | MOD_SHIFT));
    assert_eq!(parse_modifier_flags("ALT"), parse_modifier_flags("alt"));
}

#[test]
fn refuses_unknown_or_empty_modifiers() {
    assert_eq!(parse_modifier_flags(""), None);
    assert_eq!(parse_modifier_flags(" , + "), None);
    assert_eq!(parse_modifier_flags("Alt+Meta"), None);
    assert_eq!(parse_modifier_flags("Hyper,Alt"), None);
}

#[test]
fn resolves_named_keys_and_single_characters() {
    assert_eq!(virtual_key_code(" pageup "), Some(0x21));
    assert_eq!(virtual_key_code("F12"), Some(0x7B));
    assert_eq!(virtual_key_code("f1"), Some(0x70));
    assert_eq!(virtual_key_code("Delete"), Some(0x2E));
    assert_eq!(virtual_key_code("z"), Some('Z' as u32));
    assert_eq!(virtual_key_code("7"), Some('7' as u32));
    assert_eq!(virtual_key_code("+"), None);
    assert_eq!(virtual_key_code("F13"), None);
    assert_eq!(virtual_key_code(""), None);
}

fn binding(enabled: bool, modifiers: &str, key: &str) -> HotkeyBinding {
    HotkeyBinding { enabled, modifiers: modifiers.to_string(), key: key.to_string() }
}

#[test]
fn plans_each_binding() {
    assert_eq!(register_binding(&binding(false, "Alt", "PageDown")), BindingOutcome::Disabled);
    assert_eq!(register_binding(&binding(true, "Super", "PageDown")), BindingOutcome::InvalidModifiers);
    assert_eq!(register_binding(&binding(true, "Alt", "Escape")), BindingOutcome::UnsupportedKey);
    assert_eq!(
        register_binding(&binding(true, "Alt", "PageDown")),
        BindingOutcome::Register { modifiers: MOD_ALT, virtual_key: 0x22 }
    );
}

#[test]
fn default_bindings_register_alt_page_keys() {
    let (more, less) = update_registrations(&ManualHotkeys::default());
    assert_eq!(more, BindingOutcome::Register { modifiers: MOD_ALT, virtual_key: 0x22 });
    assert_eq!(less, BindingOutcome::Register { modifiers: MOD_ALT, virtual_key: 0x21 });
}

#[test]
fn commands_reregister_or_stop() {
    let outcome = handle_command(&HotkeyCommand::UpdateBindings(ManualHotkeys::default()));
    assert_eq!(
        outcome,
        CommandOutcome::Reregister {
            dim_more: BindingOutcome::Register { modifiers: MOD_ALT, virtual_key: 0x22 },
            dim_less: BindingOutcome::Register { modifiers: MOD_ALT, virtual_key: 0x21 },
        }
    );
    assert_eq!(handle_command(&HotkeyCommand::Shutdown), CommandOutcome::Stop);
}

#[test]
fn hotkey_ids_map_to_actions() {
    assert_eq!(action_for_hotkey_id(HOTKEY_DIM_MORE_ID), Some(HotkeyAction::DimMore));
    assert_eq!(action_for_hotkey_id(HOTKEY_DIM_LESS_ID), Some(HotkeyAction::DimLess));
    assert_eq!(action_for_hotkey_id(7), None);
}

#[test]
fn manager_sends_the_new_bindings_then_shutdown() {
    let (sender, receiver) = std::sync::mpsc::channel();
    let manager = HotkeyManager::with_sender(sender);
    let mut hotkeys = ManualHotkeys::default();
    hotkeys.dim_more.key = "F9".to_string();
    manager.update_bindings(hotkeys);
    match receiver.recv().unwrap() {
        HotkeyCommand::UpdateBindings(h) => {
            assert_eq!(h.dim_more.key, "F9");
            assert_eq!(h.dim_less.key, ManualHotkeys::default().dim_less.key);
        }
        HotkeyCommand::Shutdown => panic!("expected new bindings"),
    }
    manager.shutdown();
    assert!(matches!(receiver.recv().unwrap(), HotkeyCommand::Shutdown));
}

#[test]
fn commands_carry_what_they_are_built_from() {
    let mut hotkeys = ManualHotkeys::default();
    hotkeys.dim_less.modifiers = "Ctrl+Shift".to_string();
    match update_bindings_command(hotkeys) {
        HotkeyCommand::UpdateBindings(h) => assert_eq!(h.dim_less.modifiers, "Ctrl+Shift"),
        HotkeyCommand::Shutdown => panic!("expected new bindings"),
    }
    assert!(matches!(shutdown_command(), HotkeyCommand::Shutdown));
}

#[test]
fn modifier_lists_read_as_sets() {
    let both = Some(MOD_ALT | MOD_SHIFT);
    assert_eq!(parse_modifier_flags("Shift+alt+SHIFT"), both);
    assert_eq!(parse_modifier_flags("alt + shift"), both);
    assert_eq!(parse_modifier_flags("alt+bogus"), None);
    assert_eq!(parse_modifier_flags(" + "), None);
}
