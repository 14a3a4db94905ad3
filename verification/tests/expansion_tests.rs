use swhkd::config::{Error, Hotkey, Modifier, ParseError, Prefix};
use swhkd::parse::parse_contents;

fn eval_config_test(contents: &str, expected_hotkeys: Vec<Hotkey>) -> std::io::Result<()> {
    let result = parse_contents(String::new(), contents.to_string());

    let mut expected_hotkeys_mut = expected_hotkeys;

    if result.is_err() {
        panic!("Expected Ok config, found Err {:?}", result.unwrap_err());
    }

    let result = &result.unwrap()[0];
    let actual_hotkeys = &result.hotkeys;

    assert_eq!(actual_hotkeys.len(), expected_hotkeys_mut.len());

    for hotkey in actual_hotkeys {
        if let Some(index) = expected_hotkeys_mut
            .iter()
            .position(|k| k.keybinding == hotkey.keybinding && k.command == hotkey.command)
        {
            expected_hotkeys_mut.remove(index);
        } else {
            panic!(
                "unexpected hotkey {:#?} found in result\nExpected result:\n{:#?}",
                hotkey, expected_hotkeys_mut
            );
        }
    }

    if !expected_hotkeys_mut.is_empty() {
        panic!("Some hotkeys were not returned by the actual result:\n{:#?}", expected_hotkeys_mut);
    }

    Ok(())
}

fn eval_invalid_test(contents: &str, parse_error_type: ParseError) -> std::io::Result<()> {
    let result = parse_contents(String::new(), contents.to_string());

    assert!(result.is_err());
    let result = match result.unwrap_err() {
        Error::InvalidConfig(parse_err) => parse_err,
        _ => panic!(),
    };

    if result != parse_error_type {
        panic!("ParseError: Expected `{:?}`, found `{:?}`", parse_error_type, result);
    }

    Ok(())
}

fn key(name: evdev::KeyCode) -> u16 {
    name.code()
}

#[test]
fn test_all_alphanumeric() -> std::io::Result<()> {
    let symbols: [&str; 36] = [
        "a", "b", "c", "d", "e", "f", "g", "h", "i", "j", "k", "l", "m", "n", "o", "p", "q", "r",
        "s", "t", "u", "v", "w", "x", "y", "z", "0", "1", "2", "3", "4", "5", "6", "7", "8", "9",
    ];
    let keysyms: [evdev::KeyCode; 36] = [
        evdev::KeyCode::KEY_A,
        evdev::KeyCode::KEY_B,
        evdev::KeyCode::KEY_C,
        evdev::KeyCode::KEY_D,
        evdev::KeyCode::KEY_E,
        evdev::KeyCode::KEY_F,
        evdev::KeyCode::KEY_G,
        evdev::KeyCode::KEY_H,
        evdev::KeyCode::KEY_I,
        evdev::KeyCode::KEY_J,
        evdev::KeyCode::KEY_K,
        evdev::KeyCode::KEY_L,
        evdev::KeyCode::KEY_M,
        evdev::KeyCode::KEY_N,
        evdev::KeyCode::KEY_O,
        evdev::KeyCode::KEY_P,
        evdev::KeyCode::KEY_Q,
        evdev::KeyCode::KEY_R,
        evdev::KeyCode::KEY_S,
        evdev::KeyCode::KEY_T,
        evdev::KeyCode::KEY_U,
        evdev::KeyCode::KEY_V,
        evdev::KeyCode::KEY_W,
        evdev::KeyCode::KEY_X,
        evdev::KeyCode::KEY_Y,
        evdev::KeyCode::KEY_Z,
        evdev::KeyCode::KEY_0,
        evdev::KeyCode::KEY_1,
        evdev::KeyCode::KEY_2,
        evdev::KeyCode::KEY_3,
        evdev::KeyCode::KEY_4,
        evdev::KeyCode::KEY_5,
        evdev::KeyCode::KEY_6,
        evdev::KeyCode::KEY_7,
        evdev::KeyCode::KEY_8,
        evdev::KeyCode::KEY_9,
    ];

    let mut contents = String::new();
    for symbol in &symbols {
        contents.push_str(&format!("{}\n    st\n", symbol));
    }
    let contents = &contents;

    let expected_result: Vec<Hotkey> =
        keysyms.iter().map(|keysym| Hotkey::new(key(*keysym), vec![], "st".to_string())).collect();

    eval_config_test(contents, expected_result)
}

#[test]
fn test_homerow_special_keys_top() -> std::io::Result<()> {
    let symbols: [&str; 7] = ["Escape", "BackSpace", "Return", "Tab", "minus", "equal", "grave"];

    let keysyms: [evdev::KeyCode; 7] = [
        evdev::KeyCode::KEY_ESC,
        evdev::KeyCode::KEY_BACKSPACE,
        evdev::KeyCode::KEY_ENTER,
        evdev::KeyCode::KEY_TAB,
        evdev::KeyCode::KEY_MINUS,
        evdev::KeyCode::KEY_EQUAL,
        evdev::KeyCode::KEY_GRAVE,
    ];

    let mut contents = String::new();
    for symbol in &symbols {
        contents.push_str(&format!("{}\n    st\n", symbol));
    }
    let contents = &contents;

    let expected_result: Vec<Hotkey> =
        keysyms.iter().map(|keysym| Hotkey::new(key(*keysym), vec![], "st".to_string())).collect();

    eval_config_test(contents, expected_result)
}

#[test]
fn test_case_insensitive() -> std::io::Result<()> {
    let contents = "
Super + SHIFT + alt + a
    st
ReTurn
    ts
            ";
    eval_config_test(
        contents,
        vec![
            Hotkey::new(
                key(evdev::KeyCode::KEY_A),
                vec![Modifier::Super, Modifier::Shift, Modifier::Alt],
                "st".to_string(),
            ),
            Hotkey::new(key(evdev::KeyCode::KEY_ENTER), vec![], "ts".to_string()),
        ],
    )
}

#[test]
fn test_duplicate_hotkeys() -> std::io::Result<()> {
    let contents = "
super + shift + a
    st
shift + suPer +   A
    ts
b
    st
B
    ts
";
    eval_config_test(
        contents,
        vec![
            Hotkey::new(
                key(evdev::KeyCode::KEY_A),
                vec![Modifier::Super, Modifier::Shift],
                "ts".to_string(),
            ),
            Hotkey::new(key(evdev::KeyCode::KEY_B), vec![], "ts".to_string()),
        ],
    )
}

#[test]
fn test_inline_comment() -> std::io::Result<()> {
    let contents = "
super + a #comment and comment super
    st
super + shift + b
    ts #this comment should be handled by shell
"
    .to_string();
    eval_config_test(
        &contents,
        vec![
            Hotkey::new(key(evdev::KeyCode::KEY_A), vec![Modifier::Super], "st".to_string()),
            Hotkey::new(
                key(evdev::KeyCode::KEY_B),
                vec![Modifier::Super, Modifier::Shift],
                "ts #this comment should be handled by shell".to_string(),
            ),
        ],
    )
}

#[test]
fn test_curly_brace() -> std::io::Result<()> {
    let contents = "
super + {a,b,c}
    {firefox, brave, chrome}";
    eval_config_test(
        contents,
        vec![
            Hotkey::new(key(evdev::KeyCode::KEY_A), vec![Modifier::Super], "firefox".to_string()),
            Hotkey::new(key(evdev::KeyCode::KEY_B), vec![Modifier::Super], "brave".to_string()),
            Hotkey::new(key(evdev::KeyCode::KEY_C), vec![Modifier::Super], "chrome".to_string()),
        ],
    )
}

#[test]
fn test_curly_brace_less_commands() -> std::io::Result<()> {
    let contents = "
super + {a,b,c}
    {firefox, brave}";
    eval_config_test(
        contents,
        vec![
            Hotkey::new(key(evdev::KeyCode::KEY_A), vec![Modifier::Super], "firefox".to_string()),
            Hotkey::new(key(evdev::KeyCode::KEY_B), vec![Modifier::Super], "brave".to_string()),
        ],
    )
}

#[test]
fn test_curly_brace_less_keysyms() -> std::io::Result<()> {
    let contents = "
super + {a, b}
    {firefox, brave, chrome}";
    eval_config_test(
        contents,
        vec![
            Hotkey::new(key(evdev::KeyCode::KEY_A), vec![Modifier::Super], "firefox".to_string()),
            Hotkey::new(key(evdev::KeyCode::KEY_B), vec![Modifier::Super], "brave".to_string()),
        ],
    )
}

#[test]
fn test_range_syntax() -> std::io::Result<()> {
    let contents = "
super + {1-9,0}
    bspc desktop -f '{1-9,0}'";
    eval_config_test(
        contents,
        vec![
            Hotkey::new(
                key(evdev::KeyCode::KEY_1),
                vec![Modifier::Super],
                "bspc desktop -f '1'".to_string(),
            ),
            Hotkey::new(
                key(evdev::KeyCode::KEY_2),
                vec![Modifier::Super],
                "bspc desktop -f '2'".to_string(),
            ),
            Hotkey::new(
                key(evdev::KeyCode::KEY_3),
                vec![Modifier::Super],
                "bspc desktop -f '3'".to_string(),
            ),
            Hotkey::new(
                key(evdev::KeyCode::KEY_4),
                vec![Modifier::Super],
                "bspc desktop -f '4'".to_string(),
            ),
            Hotkey::new(
                key(evdev::KeyCode::KEY_5),
                vec![Modifier::Super],
                "bspc desktop -f '5'".to_string(),
            ),
            Hotkey::new(
                key(evdev::KeyCode::KEY_6),
                vec![Modifier::Super],
                "bspc desktop -f '6'".to_string(),
            ),
            Hotkey::new(
                key(evdev::KeyCode::KEY_7),
                vec![Modifier::Super],
                "bspc desktop -f '7'".to_string(),
            ),
            Hotkey::new(
                key(evdev::KeyCode::KEY_8),
                vec![Modifier::Super],
                "bspc desktop -f '8'".to_string(),
            ),
            Hotkey::new(
                key(evdev::KeyCode::KEY_9),
                vec![Modifier::Super],
                "bspc desktop -f '9'".to_string(),
            ),
            Hotkey::new(
                key(evdev::KeyCode::KEY_0),
                vec![Modifier::Super],
                "bspc desktop -f '0'".to_string(),
            ),
        ],
    )
}

#[test]
fn test_range_syntax_ascii_character() -> std::io::Result<()> {
    let contents = "
super + {a-c}
    {firefox, brave, chrome}";
    eval_config_test(
        contents,
        vec![
            Hotkey::new(key(evdev::KeyCode::KEY_A), vec![Modifier::Super], "firefox".to_string()),
            Hotkey::new(key(evdev::KeyCode::KEY_B), vec![Modifier::Super], "brave".to_string()),
            Hotkey::new(key(evdev::KeyCode::KEY_C), vec![Modifier::Super], "chrome".to_string()),
        ],
    )
}

#[test]
fn test_range_syntax_not_ascii() -> std::io::Result<()> {
    let contents = "
super + {a-是}
    {firefox, brave}
    ";
    eval_invalid_test(contents, ParseError::UnknownSymbol(String::new(), 2))
}

#[test]
fn test_range_syntax_invalid_range() -> std::io::Result<()> {
    let contents = "
super + {bc-ad}
    {firefox, brave}
    ";
    eval_invalid_test(contents, ParseError::UnknownSymbol(String::new(), 2))
}

#[test]
fn test_ranger_syntax_not_full_range() -> std::io::Result<()> {
    let contents = "
super + {a-}
    {firefox, brave}";
    eval_invalid_test(contents, ParseError::UnknownSymbol(String::new(), 2))
}

#[test]
fn test_none() -> std::io::Result<()> {
    let contents = "
super + {_, shift} + b
    {firefox, brave}";
    eval_config_test(
        contents,
        vec![
            Hotkey::new(key(evdev::KeyCode::KEY_B), vec![Modifier::Super], "firefox".to_string()),
            Hotkey::new(
                key(evdev::KeyCode::KEY_B),
                vec![Modifier::Super, Modifier::Shift],
                "brave".to_string(),
            ),
        ],
    )
}

#[test]
fn test_multiple_ranges() -> std::io::Result<()> {
    let contents = "
super + {shift,alt} + {c,d}
    {librewolf, firefox} {--sync, --help}
            ";

    eval_config_test(
        contents,
        vec![
            Hotkey::new(
                key(evdev::KeyCode::KEY_C),
                vec![Modifier::Super, Modifier::Shift],
                "librewolf --sync".to_string(),
            ),
            Hotkey::new(
                key(evdev::KeyCode::KEY_D),
                vec![Modifier::Super, Modifier::Shift],
                "librewolf --help".to_string(),
            ),
            Hotkey::new(
                key(evdev::KeyCode::KEY_C),
                vec![Modifier::Super, Modifier::Alt],
                "firefox --sync".to_string(),
            ),
            Hotkey::new(
                key(evdev::KeyCode::KEY_D),
                vec![Modifier::Super, Modifier::Alt],
                "firefox --help".to_string(),
            ),
        ],
    )
}

#[test]
fn test_multiple_ranges_numbers() -> std::io::Result<()> {
    let contents = "
{control,super} + {1-3}
    {notify-send, echo} {hello,how,are}
            ";

    eval_config_test(
        contents,
        vec![
            Hotkey::new(
                key(evdev::KeyCode::KEY_1),
                vec![Modifier::Control],
                "notify-send hello".to_string(),
            ),
            Hotkey::new(
                key(evdev::KeyCode::KEY_2),
                vec![Modifier::Control],
                "notify-send how".to_string(),
            ),
            Hotkey::new(
                key(evdev::KeyCode::KEY_3),
                vec![Modifier::Control],
                "notify-send are".to_string(),
            ),
            Hotkey::new(key(evdev::KeyCode::KEY_1), vec![Modifier::Super], "echo hello".to_string()),
            Hotkey::new(key(evdev::KeyCode::KEY_2), vec![Modifier::Super], "echo how".to_string()),
            Hotkey::new(key(evdev::KeyCode::KEY_3), vec![Modifier::Super], "echo are".to_string()),
        ],
    )
}

#[test]
fn test_bspwm_multiple_curly_brace() -> std::io::Result<()> {
    let contents = "
super + {_,shift + }{h,j,k,l}
\tbspc node -{f,s} {west,south,north,east}";

    eval_config_test(
        contents,
        vec![
            Hotkey::new(
                key(evdev::KeyCode::KEY_H),
                vec![Modifier::Super],
                "bspc node -f west".to_string(),
            ),
            Hotkey::new(
                key(evdev::KeyCode::KEY_J),
                vec![Modifier::Super],
                "bspc node -f south".to_string(),
            ),
            Hotkey::new(
                key(evdev::KeyCode::KEY_K),
                vec![Modifier::Super],
                "bspc node -f north".to_string(),
            ),
            Hotkey::new(
                key(evdev::KeyCode::KEY_L),
                vec![Modifier::Super],
                "bspc node -f east".to_string(),
            ),
            Hotkey::new(
                key(evdev::KeyCode::KEY_H),
                vec![Modifier::Super, Modifier::Shift],
                "bspc node -s west".to_string(),
            ),
            Hotkey::new(
                key(evdev::KeyCode::KEY_J),
                vec![Modifier::Super, Modifier::Shift],
                "bspc node -s south".to_string(),
            ),
            Hotkey::new(
                key(evdev::KeyCode::KEY_K),
                vec![Modifier::Super, Modifier::Shift],
                "bspc node -s north".to_string(),
            ),
            Hotkey::new(
                key(evdev::KeyCode::KEY_L),
                vec![Modifier::Super, Modifier::Shift],
                "bspc node -s east".to_string(),
            ),
        ],
    )
}

#[test]
fn test_longer_multiple_curly_brace() -> std::io::Result<()> {
    let contents = "
super + {_, ctrl +} {_, shift +} {1-2}
    riverctl {set, toggle}-{focused, view}-tags {1-2}";
    eval_config_test(
        contents,
        vec![
            Hotkey::new(
                key(evdev::KeyCode::KEY_1),
                vec![Modifier::Super],
                "riverctl set-focused-tags 1".to_string(),
            ),
            Hotkey::new(
                key(evdev::KeyCode::KEY_2),
                vec![Modifier::Super],
                "riverctl set-focused-tags 2".to_string(),
            ),
            Hotkey::new(
                key(evdev::KeyCode::KEY_1),
                vec![Modifier::Super, Modifier::Control],
                "riverctl toggle-focused-tags 1".to_string(),
            ),
            Hotkey::new(
                key(evdev::KeyCode::KEY_2),
                vec![Modifier::Super, Modifier::Control],
                "riverctl toggle-focused-tags 2".to_string(),
            ),
            Hotkey::new(
                key(evdev::KeyCode::KEY_1),
                vec![Modifier::Super, Modifier::Shift],
                "riverctl set-view-tags 1".to_string(),
            ),
            Hotkey::new(
                key(evdev::KeyCode::KEY_2),
                vec![Modifier::Super, Modifier::Shift],
                "riverctl set-view-tags 2".to_string(),
            ),
            Hotkey::new(
                key(evdev::KeyCode::KEY_1),
                vec![Modifier::Super, Modifier::Control, Modifier::Shift],
                "riverctl toggle-view-tags 1".to_string(),
            ),
            Hotkey::new(
                key(evdev::KeyCode::KEY_2),
                vec![Modifier::Super, Modifier::Control, Modifier::Shift],
                "riverctl toggle-view-tags 2".to_string(),
            ),
        ],
    )
}

#[test]
fn test_period_binding() -> std::io::Result<()> {
    let contents = "
super + {comma, period}
\triverctl focus-output {previous, next}";

    eval_config_test(
        contents,
        vec![
            Hotkey::new(
                key(evdev::KeyCode::KEY_COMMA),
                vec![Modifier::Super],
                "riverctl focus-output previous".to_string(),
            ),
            Hotkey::new(
                key(evdev::KeyCode::KEY_DOT),
                vec![Modifier::Super],
                "riverctl focus-output next".to_string(),
            ),
        ],
    )
}

#[test]
fn test_period_escape_binding() -> std::io::Result<()> {
    let contents = "
super + {\\,, .}
\triverctl focus-output {previous, next}";

    eval_config_test(
        contents,
        vec![
            Hotkey::new(
                key(evdev::KeyCode::KEY_COMMA),
                vec![Modifier::Super],
                "riverctl focus-output previous".to_string(),
            ),
            Hotkey::new(
                key(evdev::KeyCode::KEY_DOT),
                vec![Modifier::Super],
                "riverctl focus-output next".to_string(),
            ),
        ],
    )
}

#[test]
fn test_prefix() -> std::io::Result<()> {
    let contents = "
super + @1
    1
super + ~2
    2
super + ~@3
    3
super + @~4
    4";

    eval_config_test(
        contents,
        vec![
            Hotkey::new(key(evdev::KeyCode::KEY_1), vec![Modifier::Super], "1".to_string())
                .on_release(),
            Hotkey::new(key(evdev::KeyCode::KEY_2), vec![Modifier::Super], "2".to_string()).send(),
            Hotkey::new(key(evdev::KeyCode::KEY_3), vec![Modifier::Super], "3".to_string())
                .on_release()
                .send(),
            Hotkey::new(key(evdev::KeyCode::KEY_4), vec![Modifier::Super], "4".to_string())
                .on_release()
                .send(),
        ],
    )
}

#[test]
fn test_override() -> std::io::Result<()> {
    let contents = "
super + a
    1
super + a
    2";
    eval_config_test(
        contents,
        vec![Hotkey::new(key(evdev::KeyCode::KEY_A), vec![Modifier::Super], "2".to_string())],
    )
}

#[test]
fn test_any_modifier() -> std::io::Result<()> {
    let contents = "
any + a
    1";
    eval_config_test(
        contents,
        vec![Hotkey::new(key(evdev::KeyCode::KEY_A), vec![Modifier::Any], "1".to_string())],
    )
}

#[test]
fn test_invalid_keysym_parse() -> std::io::Result<()> {
    let contents = "
super + shift
    st
    ";
    eval_invalid_test(contents, ParseError::InvalidKeysym(String::new(), 2))
}
