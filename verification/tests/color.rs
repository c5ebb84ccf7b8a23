use partty::color::{hex, Color, Colors, Palette};

#[test]
fn hex_valid() {
    assert_eq!(hex("#4b4b54"), Some([0x4B, 0x4B, 0x54]));
    assert_eq!(hex("ff0000"), Some([255, 0, 0]));
}

#[test]
fn hex_bad() {
    assert_eq!(hex("red"), None);
    assert_eq!(hex("#12345"), None);
    assert_eq!(hex("#zzzzzz"), None);
}

#[test]
fn hex_edges() {
    assert_eq!(hex("#ABCDEF"), Some([0xAB, 0xCD, 0xEF]));
    assert_eq!(hex("##123456"), None);
    assert_eq!(hex("#1234567"), None);
    assert_eq!(hex(""), None);
    assert_eq!(hex("ééé"), None);
}

#[test]
fn dye_cube() {
    let inks = Palette::default();
    assert_eq!(inks.dye(196), Color::rgb(255, 0, 0));
    assert_eq!(inks.dye(231), Color::rgb(255, 255, 255));
    assert_eq!(inks.dye(232), Color::rgb(8, 8, 8));
    assert_eq!(inks.dye(255), Color::rgb(238, 238, 238));
    assert_eq!(inks.dye(1), Color::rgb(0xCC, 0, 0));
}

#[test]
fn dye_cube_steps() {
    let inks = Palette::default();
    assert_eq!(inks.dye(16), Color::rgb(0, 0, 0));
    assert_eq!(inks.dye(17), Color::rgb(0, 0, 95));
    assert_eq!(inks.dye(22), Color::rgb(0, 95, 0));
    assert_eq!(inks.dye(52), Color::rgb(95, 0, 0));
}

#[test]
fn load_override() {
    let mut inks = Palette::default();
    let mut over = Colors::none();
    over.red = Some("#ff0000".to_string());
    over.bright_blue = Some("nope".to_string());
    inks.load(&over);
    assert_eq!(inks.slots[1], [255, 0, 0]);
    assert_eq!(inks.slots[12], [0x72, 0x9F, 0xCF]);
}

#[test]
fn load_foreground() {
    let mut inks = Palette::default();
    let mut over = Colors::none();
    over.foreground = Some("ffffff".to_string());
    inks.load(&over);
    assert_eq!(inks.fore, [255, 255, 255]);
    assert_eq!(inks.fore(), Color::rgb(255, 255, 255));
    assert_eq!(inks.back(), Color::rgb(0x4B, 0x4B, 0x54));
}

#[test]
fn configured_reads_what_it_can() {
    let mut over = Colors::none();
    over.red = Some("#ff0000".into());
    over.bright_blue = Some("nope".into());
    let inks = Palette::configured(Some("#000000"), Some("#ffffff"), Some(&over));
    assert_eq!(inks.back, [0, 0, 0]);
    assert_eq!(inks.fore, [255, 255, 255]);
    assert_eq!(inks.slots[1], [255, 0, 0]);
    assert_eq!(inks.slots[12], Palette::default().slots[12]);
    let plain = Palette::configured(Some("nope"), None, None);
    assert_eq!(plain.back, [0x1e, 0x1e, 0x1e]);
    assert_eq!(plain.fore, Palette::default().fore);
    assert_eq!(plain.slots, Palette::default().slots);
}

#[test]
fn hex_reads_back_what_is_written() {
    for rgb in [[0u8, 0, 0], [255, 255, 255], [0x1e, 0xa0, 0x07], [16, 15, 171]] {
        let text = format!("#{:02x}{:02x}{:02x}", rgb[0], rgb[1], rgb[2]);
        assert_eq!(hex(&text), Some(rgb));
        assert_eq!(hex(&text[1..]), Some(rgb));
    }
}
