use swhkd::config::Config;
use swhkd::config::Modifier;
use swhkd::environ::Env;
use swhkd::keys::modifier_of_key;
use swhkd::server::{calculate_hash, refresh_decision, Env as ServerEnv, EnvError, ServerState};

#[test]
fn test_env_lookup() {
    let env = Env::construct("HOME=/home/ada\nSHELL=/bin/sh\nEMPTY=\nbroken line\nA=b=c");
    assert_eq!(env.fetch_home(), Some("/home/ada".to_string()));
    assert_eq!(env.get("SHELL"), Some("/bin/sh".to_string()));
    assert_eq!(env.get("EMPTY"), Some("".to_string()));
    assert_eq!(env.get("broken line"), None);
    // a value may itself contain `=`: only the first one splits
    assert_eq!(env.get("A"), Some("b=c".to_string()));
    assert_eq!(env.get("MISSING"), None);
}

#[test]
fn test_env_later_entry_wins() {
    let env = Env::construct("HOME=/one\nHOME=/two");
    assert_eq!(env.fetch_home(), Some("/two".to_string()));
}

#[test]
fn test_fetch_xdg_config_path() {
    let env = Env::construct("XDG_CONFIG_HOME=/cfg");
    assert_eq!(env.fetch_xdg_config_path(), "/cfg/swhkd/swhkdrc");

    let env = Env::construct("HOME=/home/ada");
    assert_eq!(env.fetch_xdg_config_path(), "/home/ada/.config/swhkd/swhkdrc");

    let env = Env::construct("");
    assert_eq!(env.fetch_xdg_config_path(), "/etc/swhkd/swhkdrc");
}

#[test]
fn test_fetch_xdg_data_path() {
    let env = Env::construct("XDG_DATA_HOME=/data");
    assert_eq!(env.fetch_xdg_data_path(), "/data");

    let env = Env::construct("HOME=/home/ada");
    assert_eq!(env.fetch_xdg_data_path(), "/home/ada/.local/share");
}

#[test]
fn test_xdg_runtime_dir() {
    let env = Env::construct("XDG_RUNTIME_DIR=/run/rt");
    assert_eq!(env.xdg_runtime_dir(1000), "/run/rt");

    let env = Env::construct("");
    assert_eq!(env.xdg_runtime_dir(1000), "/run/user/1000");
}

#[test]
fn test_server_env_construct() {
    let e = ServerEnv::construct(
        Some("/home/ada".to_string()),
        None,
        None,
        1000,
    )
    .unwrap();
    assert_eq!(e.home, "/home/ada");
    assert_eq!(e.data_home, "/home/ada/.local/share");
    assert_eq!(e.runtime_dir, "/run/user/1000");

    let e = ServerEnv::construct(
        Some("/home/ada".to_string()),
        Some("/d".to_string()),
        Some("/r".to_string()),
        0,
    )
    .unwrap();
    assert_eq!(e.data_home, "/d");
    assert_eq!(e.runtime_dir, "/r");

    assert!(matches!(
        ServerEnv::construct(None, None, None, 0),
        Err(EnvError::HomeNotSet)
    ));
}

// A verify request answers the hash of the current snapshot: two
// consecutive verifies with no intervening change answer identically,
// and a change shows in the very next verify answer.
#[test]
fn test_env_sync_protocol() {
    let mut server = ServerState::new();

    let env_one = "HOME=/home/ada\nSHELL=/bin/sh".to_string();
    let first = server.handle_request(1, Some(env_one.clone())).unwrap();
    let second = server.handle_request(1, Some(env_one.clone())).unwrap();
    assert_eq!(first, second);
    assert_eq!(first, calculate_hash(&env_one).to_string());

    // a change in the environment shows at once, before any get
    let env_two = "HOME=/home/lovelace\nSHELL=/bin/sh".to_string();
    let changed = server.handle_request(1, Some(env_two.clone())).unwrap();
    assert_ne!(changed, first);
    assert_eq!(changed, calculate_hash(&env_two).to_string());

    // a get answers the snapshot itself
    let reply = server.handle_request(2, Some(env_two.clone())).unwrap();
    assert_eq!(reply, env_two);
    assert_eq!(server.handle_request(1, Some(env_two.clone())).unwrap(), changed);

    // when no snapshot can be fetched, verify answers the last observed
    // hash, and a failed get answers an error line and keeps it
    assert_eq!(server.handle_request(1, None).unwrap(), changed);
    let err_reply = server.handle_request(2, None).unwrap();
    assert_eq!(err_reply, "ERROR: Unable to fetch environment");
    assert_eq!(server.handle_request(1, None).unwrap(), changed);

    // an unknown opcode answers nothing
    assert_eq!(server.handle_request(9, None), None);
}

#[test]
fn test_refresh_decision() {
    let h = calculate_hash("HOME=/home/ada");
    let reply = h.to_string();
    assert_eq!(refresh_decision(h, &reply), None);
    assert_eq!(refresh_decision(h.wrapping_add(1), &reply), Some(h));
    // a malformed reply counts as hash zero
    assert_eq!(refresh_decision(7, "not a number"), Some(0));
    assert_eq!(refresh_decision(0, ""), None);
}

#[test]
fn test_calculate_hash_depends_on_text() {
    assert_eq!(calculate_hash("abc"), calculate_hash("abc"));
    assert_ne!(calculate_hash("abc"), calculate_hash(""));
}

#[test]
fn test_get_imports() {
    let imports = Config::get_imports("include /tmp/a\nsuper + b\n   firefox\ninclude /tmp/b")
        .unwrap();
    assert_eq!(imports, vec!["/tmp/a".to_string(), "/tmp/b".to_string()]);

    let none = Config::get_imports("super + b\n   firefox").unwrap();
    assert!(none.is_empty());
}

#[test]
fn test_modifier_table() {
    assert_eq!(modifier_of_key(evdev::KeyCode::KEY_LEFTMETA.code()), Some(Modifier::Super));
    assert_eq!(modifier_of_key(evdev::KeyCode::KEY_RIGHTMETA.code()), Some(Modifier::Super));
    assert_eq!(modifier_of_key(evdev::KeyCode::KEY_LEFTALT.code()), Some(Modifier::Alt));
    assert_eq!(modifier_of_key(evdev::KeyCode::KEY_RIGHTALT.code()), Some(Modifier::Altgr));
    assert_eq!(modifier_of_key(evdev::KeyCode::KEY_LEFTCTRL.code()), Some(Modifier::Control));
    assert_eq!(modifier_of_key(evdev::KeyCode::KEY_RIGHTCTRL.code()), Some(Modifier::Control));
    assert_eq!(modifier_of_key(evdev::KeyCode::KEY_LEFTSHIFT.code()), Some(Modifier::Shift));
    assert_eq!(modifier_of_key(evdev::KeyCode::KEY_RIGHTSHIFT.code()), Some(Modifier::Shift));
    assert_eq!(modifier_of_key(evdev::KeyCode::KEY_A.code()), None);
}

#[test]
fn test_get_file_paths() {
    let (pid, sock) = swhkd::server::get_file_paths("/run/user/1000");
    assert_eq!(pid, "/run/user/1000/swhks.pid");
    assert_eq!(sock, "/run/user/1000/swhkd.sock");
}

#[test]
fn test_hash_reply_bounds() {
    // the largest u64 still parses exactly; one past it counts as zero
    assert_eq!(refresh_decision(u64::MAX, "18446744073709551615"), None);
    assert_eq!(refresh_decision(1, "18446744073709551616"), Some(0));
}
