use swhkd::config::{Error, Hotkey, Modifier, ParseError, Prefix};
use swhkd::parse::{extract_curly_brace, parse_contents};

// Wrapper for config tests
fn eval_config_test(contents: &str, expected_hotkeys: Vec<Hotkey>) -> std::io::Result<()> {
    let result = parse_contents(String::new(), contents.to_string());

    let mut expected_hotkeys_mut = expected_hotkeys;

    if result.is_err() {
        panic!("Expected Ok config, found Err {:?}", result.unwrap_err());
    }

    let result = &result.unwrap()[0];
    let actual_hotkeys = &result.hotkeys;

    assert_eq!(actual_hotkeys.len(), expected_hotkeys_mut.len());

    // Go through each actual hotkey, and pop a corresponding
    // hotkey from the expected hotkeys
    // to make sure that order does not matter
    for hotkey in actual_hotkeys {
        if let Some(index) = expected_hotkeys_mut
            .iter()
            .position(|key| key.keybinding == hotkey.keybinding && key.command == hotkey.command)
        {
            expected_hotkeys_mut.remove(index);
        } else {
            panic!(
                "unexpected hotkey {:#?} found in result\nExpected result:\n{:#?}",
                hotkey, expected_hotkeys_mut
            );
        }
    }

    if !expected_hotkeys_mut.is_empty() {
        panic!("Some hotkeys were not returned by the actual result:\n{:#?}", expected_hotkeys_mut);
    }

    Ok(())
}

// Wrapper for the many error tests
pub fn eval_invalid_config_test(contents: &str, parse_error_type: ParseError) -> std::io::Result<()> {
    let result = parse_contents(String::new(), contents.to_string());

    assert!(result.is_err());
    let result = result.unwrap_err();

    // Check if the Error type is InvalidConfig
    let result = match result {
        Error::InvalidConfig(parse_err) => parse_err,
        _ => panic!(),
    };

    // Check the ParseError enum type
    if result != parse_error_type {
        panic!("ParseError: Expected `{:?}`, found `{:?}`", parse_error_type, result);
    }

    Ok(())
}

fn key(name: evdev::KeyCode) -> u16 {
    name.code()
}

#[test]
fn test_basic_keybind() -> std::io::Result<()> {
    let contents = "
r
    alacritty
            ";

    eval_config_test(
        contents,
        vec![Hotkey::new(key(evdev::KeyCode::KEY_R), vec![], String::from("alacritty"))],
    )
}

#[test]
fn test_multiple_keybinds() -> std::io::Result<()> {
    let contents = "
r
    alacritty

w
    kitty

t
    /bin/firefox
        ";

    let hotkey_1 = Hotkey::new(key(evdev::KeyCode::KEY_R), vec![], String::from("alacritty"));
    let hotkey_2 = Hotkey::new(key(evdev::KeyCode::KEY_W), vec![], String::from("kitty"));
    let hotkey_3 = Hotkey::new(key(evdev::KeyCode::KEY_T), vec![], String::from("/bin/firefox"));

    eval_config_test(contents, vec![hotkey_1, hotkey_2, hotkey_3])
}

#[test]
fn test_comments() -> std::io::Result<()> {
    let contents = "
r
    alacritty

w
    kitty

#t
    #/bin/firefox
        ";

    let expected_keybinds = vec![
        Hotkey::new(key(evdev::KeyCode::KEY_R), vec![], String::from("alacritty")),
        Hotkey::new(key(evdev::KeyCode::KEY_W), vec![], String::from("kitty")),
    ];

    eval_config_test(contents, expected_keybinds)
}

#[test]
fn test_multiple_keypress() -> std::io::Result<()> {
    let contents = "
super + 5
    alacritty
        ";

    let expected_keybinds = vec![Hotkey::new(
        key(evdev::KeyCode::KEY_5),
        vec![Modifier::Super],
        String::from("alacritty"),
    )];

    eval_config_test(contents, expected_keybinds)
}

#[test]
fn test_keysym_instead_of_modifier() -> std::io::Result<()> {
    let contents = "
shift + k + m
    notify-send 'Hello world!'
            ";

    eval_invalid_config_test(contents, ParseError::InvalidModifier(String::new(), 2))
}

#[test]
fn test_modifier_instead_of_keysym() -> std::io::Result<()> {
    let contents = "
shift + k + alt
    notify-send 'Hello world!'
            ";

    eval_invalid_config_test(contents, ParseError::InvalidModifier(String::new(), 2))
}

#[test]
fn test_unfinished_plus_sign() -> std::io::Result<()> {
    let contents = "


shift + alt +
    notify-send 'Hello world!'
            ";

    eval_invalid_config_test(contents, ParseError::UnknownSymbol(String::new(), 4))
}

#[test]
fn test_plus_sign_at_start() -> std::io::Result<()> {
    let contents = "
+ shift + k
    notify-send 'Hello world!'
            ";

    eval_invalid_config_test(contents, ParseError::UnknownSymbol(String::new(), 2))
}

#[test]
fn test_common_modifiers() -> std::io::Result<()> {
    let contents = "
shift + k
    notify-send 'Hello world!'

control + 5
    notify-send 'Hello world!'

alt + 2
    notify-send 'Hello world!'

super + z
    notify-send 'Hello world!'
            ";

    let expected_hotkeys = vec![
        Hotkey::new(
            key(evdev::KeyCode::KEY_K),
            vec![Modifier::Shift],
            "notify-send 'Hello world!'".to_string(),
        ),
        Hotkey::new(
            key(evdev::KeyCode::KEY_5),
            vec![Modifier::Control],
            "notify-send 'Hello world!'".to_string(),
        ),
        Hotkey::new(
            key(evdev::KeyCode::KEY_2),
            vec![Modifier::Alt],
            "notify-send 'Hello world!'".to_string(),
        ),
        Hotkey::new(
            key(evdev::KeyCode::KEY_Z),
            vec![Modifier::Super],
            "notify-send 'Hello world!'".to_string(),
        ),
    ];

    eval_config_test(contents, expected_hotkeys)
}

#[test]
fn test_command_with_many_spaces() -> std::io::Result<()> {
    let contents = "
p
    xbacklight -inc 10 -fps 30 -time 200
        ";

    let expected_keybinds = vec![Hotkey::new(
        key(evdev::KeyCode::KEY_P),
        vec![],
        String::from("xbacklight -inc 10 -fps 30 -time 200"),
    )];

    eval_config_test(contents, expected_keybinds)
}

#[test]
fn test_invalid_keybinding() -> std::io::Result<()> {
    let contents = "
p
    xbacklight -inc 10 -fps 30 -time 200

pesto
    xterm
                    ";

    eval_invalid_config_test(contents, ParseError::UnknownSymbol(String::new(), 5))
}

#[test]
// keysyms not followed by command should be ignored
fn test_no_command() -> std::io::Result<()> {
    let contents = "
k
    xbacklight -inc 10 -fps 30 -time 200

w

                    ";

    eval_config_test(
        contents,
        vec![Hotkey::new(
            key(evdev::KeyCode::KEY_K),
            vec![],
            "xbacklight -inc 10 -fps 30 -time 200".to_string(),
        )],
    )
}

#[test]
fn test_real_config_snippet() -> std::io::Result<()> {
    let contents = "
# reloads sxhkd configuration:
super + Escape
    pkill -USR1 -x sxhkd ; sxhkd &

# Launch Terminal
super + Return
    alacritty -t \"Terminal\" -e \"$HOME/.config/sxhkd/new_tmux_terminal.sh\"

# terminal emulator (no tmux)
super + shift + Return
    alacritty -t \"Terminal\"

# terminal emulator (new tmux session)
alt + Return
    alacritty -t \"Terminal\" -e \"tmux\"

ctrl + 0
    play-song.sh

super + minus
    play-song.sh album
                    ";

    let expected_result: Vec<Hotkey> = vec![
        Hotkey::new(
            key(evdev::KeyCode::KEY_ESC),
            vec![Modifier::Super],
            String::from("pkill -USR1 -x sxhkd ; sxhkd &"),
        ),
        Hotkey::new(
            key(evdev::KeyCode::KEY_ENTER),
            vec![Modifier::Super],
            String::from("alacritty -t \"Terminal\" -e \"$HOME/.config/sxhkd/new_tmux_terminal.sh\""),
        ),
        Hotkey::new(
            key(evdev::KeyCode::KEY_ENTER),
            vec![Modifier::Super, Modifier::Shift],
            String::from("alacritty -t \"Terminal\""),
        ),
        Hotkey::new(
            key(evdev::KeyCode::KEY_ENTER),
            vec![Modifier::Alt],
            String::from("alacritty -t \"Terminal\" -e \"tmux\""),
        ),
        Hotkey::new(key(evdev::KeyCode::KEY_0), vec![Modifier::Control], String::from("play-song.sh")),
        Hotkey::new(
            key(evdev::KeyCode::KEY_MINUS),
            vec![Modifier::Super],
            String::from("play-song.sh album"),
        ),
    ];

    eval_config_test(contents, expected_result)
}

#[test]
fn test_multiline_command() -> std::io::Result<()> {
    let contents = "
k
    mpc ls | dmenu | \\
    sed -i 's/foo/bar/g'
                    ";

    let expected_keybind = Hotkey::new(
        key(evdev::KeyCode::KEY_K),
        vec![],
        String::from("mpc ls | dmenu | sed -i 's/foo/bar/g'"),
    );

    eval_config_test(contents, vec![expected_keybind])
}

#[test]
fn test_commented_out_keybind() -> std::io::Result<()> {
    let contents = "
#w
    gimp
                    ";

    eval_config_test(contents, vec![])
}

#[test]
fn test_blank_config() -> std::io::Result<()> {
    let contents = "";

    eval_config_test(contents, vec![])
}

#[test]
fn test_blank_config_with_whitespace() -> std::io::Result<()> {
    let contents = "


            ";

    eval_config_test(contents, vec![])
}

#[test]
fn test_extract_curly_brace() -> std::io::Result<()> {
    let keybind_with_curly_brace = "super + {a,b,c}";
    assert_eq!(
        extract_curly_brace(keybind_with_curly_brace),
        vec!["super + a", "super + b", "super + c",]
    );
    let command_with_curly_brace = "bspc node -p {west,south,north,west}";
    assert_eq!(
        extract_curly_brace(command_with_curly_brace),
        vec!["bspc node -p west", "bspc node -p south", "bspc node -p north", "bspc node -p west",]
    );
    let wrong_format = "super + }a, b, c{";
    assert_eq!(extract_curly_brace(wrong_format), vec![wrong_format]);
    let single_sym = "super + {a}";
    assert_eq!(extract_curly_brace(single_sym), vec!["super + a"]);
    Ok(())
}
