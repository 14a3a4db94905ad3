use swhkd::config::{Hotkey, Mode, ModeInstruction, ModeOptions, Modifier};
use swhkd::daemon::{check_device_is_keyboard, Daemon, KeyboardState, SignalAction};

const KEY_A: u16 = 30;
const KEY_B: u16 = 48;
const KEY_X: u16 = 45;
const LEFT_META: u16 = 125;
const LEFT_SHIFT: u16 = 42;
const LEFT_CTRL: u16 = 29;

const PRESS: i32 = 1;
const RELEASE: i32 = 0;

fn mode(name: &str, hotkeys: Vec<Hotkey>, swallow: bool, oneoff: bool) -> Mode {
    Mode {
        name: name.to_string(),
        hotkeys,
        unbinds: vec![],
        options: ModeOptions { swallow, oneoff },
    }
}

fn simple_daemon(hotkeys: Vec<Hotkey>) -> Daemon {
    Daemon::new(vec![mode("normal", hotkeys, false, false)])
}

// Matching is exact-set except for the wildcard: Super+A matches
// {Super}+A; Super+Shift+A matches neither binding; Control+B and
// Super+B both match {Any}+B.
#[test]
fn test_exact_set_and_wildcard_matching() {
    let hotkeys = vec![
        Hotkey::new(KEY_A, vec![Modifier::Super], "first".to_string()),
        Hotkey::new(KEY_B, vec![Modifier::Any], "second".to_string()),
    ];

    // Super+A matches the first hotkey.
    let mut d = simple_daemon(hotkeys.clone());
    let mut kb = KeyboardState::new();
    assert!(d.handle_key_event(&mut kb, LEFT_META, PRESS).commands.is_empty());
    let r = d.handle_key_event(&mut kb, KEY_A, PRESS);
    assert_eq!(r.commands, vec!["first".to_string()]);

    // Super+Shift+A matches neither.
    let mut d = simple_daemon(hotkeys.clone());
    let mut kb = KeyboardState::new();
    d.handle_key_event(&mut kb, LEFT_META, PRESS);
    d.handle_key_event(&mut kb, LEFT_SHIFT, PRESS);
    let r = d.handle_key_event(&mut kb, KEY_A, PRESS);
    assert!(r.commands.is_empty());

    // Control+B matches the wildcard binding.
    let mut d = simple_daemon(hotkeys.clone());
    let mut kb = KeyboardState::new();
    d.handle_key_event(&mut kb, LEFT_CTRL, PRESS);
    let r = d.handle_key_event(&mut kb, KEY_B, PRESS);
    assert_eq!(r.commands, vec!["second".to_string()]);

    // Super+B matches the wildcard binding too.
    let mut d = simple_daemon(hotkeys);
    let mut kb = KeyboardState::new();
    d.handle_key_event(&mut kb, LEFT_META, PRESS);
    let r = d.handle_key_event(&mut kb, KEY_B, PRESS);
    assert_eq!(r.commands, vec!["second".to_string()]);
}

// Pressing a held key again changes nothing: the state is a set, and
// releasing once undoes any number of presses.
#[test]
fn test_state_is_a_set() {
    let mut d = simple_daemon(vec![]);
    let mut kb = KeyboardState::new();
    d.handle_key_event(&mut kb, KEY_A, PRESS);
    d.handle_key_event(&mut kb, KEY_A, PRESS);
    assert_eq!(kb.state_keysyms, vec![KEY_A]);
    d.handle_key_event(&mut kb, KEY_A, RELEASE);
    assert!(kb.state_keysyms.is_empty());

    d.handle_key_event(&mut kb, LEFT_META, PRESS);
    d.handle_key_event(&mut kb, LEFT_META, PRESS);
    assert_eq!(kb.state_modifiers, vec![Modifier::Super]);
    d.handle_key_event(&mut kb, LEFT_META, RELEASE);
    assert!(kb.state_modifiers.is_empty());
}

// Holding the chord repeats via the timer; each expiry re-dispatches
// and re-arms, and a release stops the repeat.
#[test]
fn test_repeat_while_held() {
    let hotkeys = vec![Hotkey::new(KEY_A, vec![], "run".to_string())];
    let mut d = simple_daemon(hotkeys);
    let mut kb = KeyboardState::new();
    let r = d.handle_key_event(&mut kb, KEY_A, PRESS);
    assert_eq!(r.commands, vec!["run".to_string()]);
    assert!(r.arm_timer);
    assert_eq!(d.handle_timer(), Some("run".to_string()));
    assert_eq!(d.handle_timer(), Some("run".to_string()));
    d.handle_key_event(&mut kb, KEY_A, RELEASE);
    assert!(!d.timer_active());
    assert_eq!(d.handle_timer(), None);
}

// A deferred hotkey fires only at the release of one of its own keys:
// releasing an unrelated key leaves it pending.
#[test]
fn test_deferred_ignores_unrelated_release() {
    let mut h = Hotkey::new(KEY_A, vec![Modifier::Super], "later".to_string());
    h.keybinding.on_release = true;
    let mut d = simple_daemon(vec![h]);
    let mut kb = KeyboardState::new();
    d.handle_key_event(&mut kb, LEFT_META, PRESS);
    let r = d.handle_key_event(&mut kb, KEY_A, PRESS);
    assert!(r.commands.is_empty());
    // an unrelated key comes and goes; the deferred hotkey stays put
    d.handle_key_event(&mut kb, KEY_B, PRESS);
    let r = d.handle_key_event(&mut kb, KEY_B, RELEASE);
    assert!(r.commands.is_empty());
    // releasing one of the chord's own keys fires it
    let r = d.handle_key_event(&mut kb, LEFT_META, RELEASE);
    assert_eq!(r.commands, vec!["later".to_string()]);
}

// A deferred hotkey dispatches exactly once, at the release, and the
// timer never fires it.
#[test]
fn test_on_release_dispatches_once() {
    let mut h = Hotkey::new(KEY_A, vec![], "later".to_string());
    h.keybinding.on_release = true;
    let mut d = simple_daemon(vec![h]);
    let mut kb = KeyboardState::new();
    let r = d.handle_key_event(&mut kb, KEY_A, PRESS);
    assert!(r.commands.is_empty());
    assert_eq!(d.handle_timer(), None);
    let r = d.handle_key_event(&mut kb, KEY_A, RELEASE);
    assert_eq!(r.commands, vec!["later".to_string()]);
    // a fresh press only defers again; nothing fires before the release
    let r = d.handle_key_event(&mut kb, KEY_A, PRESS);
    assert!(r.commands.is_empty());
}

// With swallow on, an unmatched key produces nothing on the virtual
// output; with swallow off it always passes through (unless a
// non-send hotkey claims it).
#[test]
fn test_swallow_law() {
    let mut d = Daemon::new(vec![mode("normal", vec![], true, false)]);
    let mut kb = KeyboardState::new();
    let r = d.handle_key_event(&mut kb, KEY_X, PRESS);
    assert!(!r.emit);

    let mut d = Daemon::new(vec![mode("normal", vec![], false, false)]);
    let mut kb = KeyboardState::new();
    let r = d.handle_key_event(&mut kb, KEY_X, PRESS);
    assert!(r.emit);

    // a matching non-send hotkey consumes the event even without swallow
    let hotkeys = vec![Hotkey::new(KEY_A, vec![], "run".to_string())];
    let mut d = simple_daemon(hotkeys);
    let mut kb = KeyboardState::new();
    let r = d.handle_key_event(&mut kb, KEY_A, PRESS);
    assert!(!r.emit);

    // a send hotkey lets the event through
    let mut h = Hotkey::new(KEY_A, vec![], "run".to_string());
    h.keybinding.send = true;
    let mut d = simple_daemon(vec![h]);
    let mut kb = KeyboardState::new();
    let r = d.handle_key_event(&mut kb, KEY_A, PRESS);
    assert!(r.emit);
}

// Entering a mode pushes its index; escaping pops back to exactly the
// stack from before, including across two levels of nesting.
#[test]
fn test_mode_nesting() {
    let mut enter_resize = Hotkey::new(KEY_A, vec![], "".to_string());
    enter_resize.mode_instructions = vec![ModeInstruction::Enter("resize".to_string())];
    let mut enter_move = Hotkey::new(KEY_B, vec![], "".to_string());
    enter_move.mode_instructions = vec![ModeInstruction::Enter("move".to_string())];
    let mut escape = Hotkey::new(KEY_X, vec![], "".to_string());
    escape.mode_instructions = vec![ModeInstruction::Escape];

    let normal = mode(
        "normal",
        vec![enter_resize.clone(), enter_move.clone(), escape.clone()],
        false,
        false,
    );
    let resize = mode(
        "resize",
        vec![enter_resize.clone(), enter_move.clone(), escape.clone()],
        false,
        false,
    );
    let mv = mode("move", vec![enter_resize, enter_move, escape], false, false);

    let mut d = Daemon::new(vec![normal, resize, mv]);
    assert_eq!(d.mode_stack, vec![0]);

    let mut kb = KeyboardState::new();
    d.handle_key_event(&mut kb, KEY_A, PRESS);
    assert_eq!(d.mode_stack, vec![0, 1]);
    d.handle_key_event(&mut kb, KEY_A, RELEASE);

    d.handle_key_event(&mut kb, KEY_B, PRESS);
    assert_eq!(d.mode_stack, vec![0, 1, 2]);
    d.handle_key_event(&mut kb, KEY_B, RELEASE);

    d.handle_key_event(&mut kb, KEY_X, PRESS);
    assert_eq!(d.mode_stack, vec![0, 1]);
    d.handle_key_event(&mut kb, KEY_X, RELEASE);

    d.handle_key_event(&mut kb, KEY_X, PRESS);
    assert_eq!(d.mode_stack, vec![0]);
}

// Entering an unknown mode is a no-op, and escaping the default mode
// never empties the stack.
#[test]
fn test_mode_stack_clamped() {
    let mut enter_ghost = Hotkey::new(KEY_A, vec![], "".to_string());
    enter_ghost.mode_instructions = vec![ModeInstruction::Enter("ghost".to_string())];
    let mut escape = Hotkey::new(KEY_X, vec![], "".to_string());
    escape.mode_instructions = vec![ModeInstruction::Escape];

    let mut d = Daemon::new(vec![mode("normal", vec![enter_ghost, escape], false, false)]);
    let mut kb = KeyboardState::new();
    d.handle_key_event(&mut kb, KEY_A, PRESS);
    assert_eq!(d.mode_stack, vec![0]);
    d.handle_key_event(&mut kb, KEY_A, RELEASE);
    d.handle_key_event(&mut kb, KEY_X, PRESS);
    assert_eq!(d.mode_stack, vec![0]);
}

// A oneoff mode pops right after its first dispatch, even though the
// dispatched hotkey says nothing about the stack.
#[test]
fn test_oneoff_pops_after_dispatch() {
    let mut enter_grab = Hotkey::new(KEY_A, vec![], "".to_string());
    enter_grab.mode_instructions = vec![ModeInstruction::Enter("grab".to_string())];
    let plain = Hotkey::new(KEY_B, vec![], "inside".to_string());

    let normal = mode("normal", vec![enter_grab], false, false);
    let grab = mode("grab", vec![plain], false, true);
    let mut d = Daemon::new(vec![normal, grab]);
    let mut kb = KeyboardState::new();

    d.handle_key_event(&mut kb, KEY_A, PRESS);
    assert_eq!(d.mode_stack, vec![0, 1]);
    d.handle_key_event(&mut kb, KEY_A, RELEASE);

    let r = d.handle_key_event(&mut kb, KEY_B, PRESS);
    assert_eq!(r.commands, vec!["inside".to_string()]);
    assert_eq!(d.mode_stack, vec![0]);
}

// A trailing " &&" is stripped from a dispatched command.
#[test]
fn test_command_suffix_stripped() {
    let hotkeys = vec![Hotkey::new(KEY_A, vec![], "run this &&".to_string())];
    let mut d = simple_daemon(hotkeys);
    let mut kb = KeyboardState::new();
    let r = d.handle_key_event(&mut kb, KEY_A, PRESS);
    assert_eq!(r.commands, vec!["run this".to_string()]);
}

// While paused, no hotkey fires; resuming brings matching back.
#[test]
fn test_pause_and_resume() {
    let hotkeys = vec![Hotkey::new(KEY_A, vec![], "run".to_string())];
    let mut d = simple_daemon(hotkeys);
    let mut kb = KeyboardState::new();
    d.pause();
    let r = d.handle_key_event(&mut kb, KEY_A, PRESS);
    assert!(r.commands.is_empty());
    d.handle_key_event(&mut kb, KEY_A, RELEASE);
    d.resume();
    let r = d.handle_key_event(&mut kb, KEY_A, PRESS);
    assert_eq!(r.commands, vec!["run".to_string()]);
}

// A reload replaces the modes and resets the stack to the default.
#[test]
fn test_reload_resets_stack() {
    let mut enter_resize = Hotkey::new(KEY_A, vec![], "".to_string());
    enter_resize.mode_instructions = vec![ModeInstruction::Enter("resize".to_string())];
    let normal = mode("normal", vec![enter_resize], false, false);
    let resize = mode("resize", vec![], false, false);
    let mut d = Daemon::new(vec![normal, resize]);
    let mut kb = KeyboardState::new();
    d.handle_key_event(&mut kb, KEY_A, PRESS);
    assert_eq!(d.mode_stack, vec![0, 1]);
    d.reload(vec![mode("normal", vec![], false, false)]);
    assert_eq!(d.mode_stack, vec![0]);
}

#[test]
fn test_signal_actions() {
    assert!(matches!(swhkd::daemon::signal_action(10), SignalAction::Pause));
    assert!(matches!(swhkd::daemon::signal_action(12), SignalAction::Resume));
    assert!(matches!(swhkd::daemon::signal_action(1), SignalAction::Reload));
    assert!(matches!(swhkd::daemon::signal_action(2), SignalAction::Terminate));
    assert!(matches!(swhkd::daemon::signal_action(15), SignalAction::Terminate));
}

// The cardinality prefilter: a wildcard hotkey carries one modifier,
// so it only fires while exactly one modifier is held.
#[test]
fn test_wildcard_needs_one_modifier() {
    let hotkeys = vec![Hotkey::new(KEY_B, vec![Modifier::Any], "second".to_string())];
    let mut d = simple_daemon(hotkeys);
    let mut kb = KeyboardState::new();
    d.handle_key_event(&mut kb, LEFT_META, PRESS);
    d.handle_key_event(&mut kb, LEFT_SHIFT, PRESS);
    let r = d.handle_key_event(&mut kb, KEY_B, PRESS);
    assert!(r.commands.is_empty());
}

// The daemon's own virtual output is never classified as a keyboard.
#[test]
fn test_device_classification() {
    assert!(check_device_is_keyboard(true, Some("AT Translated Set 2 keyboard")));
    assert!(check_device_is_keyboard(true, None));
    assert!(!check_device_is_keyboard(true, Some("swhkd virtual output")));
    assert!(!check_device_is_keyboard(false, Some("Some Mouse")));
}
