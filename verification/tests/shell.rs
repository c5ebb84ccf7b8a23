use partty::shell::{ElementState, Key, NamedKey, Shell};

#[test]
fn enter_sends_cr() {
    let key = Shell::key(
        ElementState::Pressed,
        &Key::Named(NamedKey::Enter),
        Some("\r"),
        false,
        false,
    );
    assert_eq!(key, Some(b"\r".to_vec()));
}

#[test]
fn release_sends_nothing() {
    let key = Shell::key(
        ElementState::Released,
        &Key::Named(NamedKey::Enter),
        Some("\r"),
        false,
        false,
    );
    assert_eq!(key, None);
}

#[test]
fn arrows_send_csi() {
    let up = Shell::key(ElementState::Pressed, &Key::Named(NamedKey::ArrowUp), None, false, false);
    assert_eq!(up, Some(b"\x1b[A".to_vec()));
    let down = Shell::key(ElementState::Pressed, &Key::Named(NamedKey::ArrowDown), None, false, false);
    assert_eq!(down, Some(b"\x1b[B".to_vec()));
    let del = Shell::key(ElementState::Pressed, &Key::Named(NamedKey::Delete), None, false, false);
    assert_eq!(del, Some(b"\x1b[3~".to_vec()));
}

#[test]
fn text_sends_bytes() {
    let key = Shell::key(
        ElementState::Pressed,
        &Key::Character("l".into()),
        Some("l"),
        false,
        false,
    );
    assert_eq!(key, Some(b"l".to_vec()));
}

#[test]
fn ctrl_sends_codes() {
    let rom = |logical: &Key| Shell::key(ElementState::Pressed, logical, None, true, false);
    assert_eq!(rom(&Key::Character("c".into())), Some(vec![3]), "ctrl+c interrupts");
    assert_eq!(rom(&Key::Character("d".into())), Some(vec![4]), "ctrl+d exits");
    assert_eq!(rom(&Key::Character("C".into())), Some(vec![3]), "caps maps same");
    assert_eq!(
        rom(&Key::Named(NamedKey::ArrowUp)),
        Some(b"\x1b[1;5A".to_vec()),
        "ctrl+arrows modify"
    );
    assert_eq!(rom(&Key::Named(NamedKey::Enter)), None, "ctrl+enter has no code");
}

#[test]
fn alt_prefixes_esc() {
    let key = Shell::key(
        ElementState::Pressed,
        &Key::Character("f".into()),
        Some("f"),
        false,
        true,
    );
    assert_eq!(key, Some(b"\x1bf".to_vec()));
}

#[test]
fn ctrl_punctuation_and_alt() {
    let ctrl = |c: &str, alt: bool| Shell::key(ElementState::Pressed, &Key::Character(c.into()), None, true, alt);
    assert_eq!(ctrl("@", false), Some(vec![0]));
    assert_eq!(ctrl(" ", false), Some(vec![0]));
    assert_eq!(ctrl("[", false), Some(vec![27]));
    assert_eq!(ctrl("\\", false), Some(vec![28]));
    assert_eq!(ctrl("]", false), Some(vec![29]));
    assert_eq!(ctrl("^", false), Some(vec![30]));
    assert_eq!(ctrl("/", false), Some(vec![31]));
    assert_eq!(ctrl("?", false), Some(vec![127]));
    assert_eq!(ctrl("1", false), None);
    assert_eq!(ctrl("ab", false), None);
    assert_eq!(ctrl("é", false), None);
    assert_eq!(ctrl("z", true), Some(vec![0x1b, 26]));
}

#[test]
fn named_keys_without_their_own_bytes_send_text() {
    let k = Shell::key(ElementState::Pressed, &Key::Named(NamedKey::Other), Some("x"), false, false);
    assert_eq!(k, Some(b"x".to_vec()));
    let k = Shell::key(ElementState::Pressed, &Key::Unidentified, None, false, false);
    assert_eq!(k, None);
    let k = Shell::key(ElementState::Pressed, &Key::Named(NamedKey::PageDown), None, true, true);
    assert_eq!(k, Some(b"\x1b\x1b[6;5~".to_vec()));
    let k = Shell::key(ElementState::Pressed, &Key::Character("ش".into()), Some("ش"), false, false);
    assert_eq!(k, Some("ش".as_bytes().to_vec()));
}

#[test]
fn sizes_hold_at_sixteen_bits() {
    assert_eq!(Shell::size(24, 80), (24, 80));
    assert_eq!(Shell::size(70000, 65535), (65535, 65535));
}
