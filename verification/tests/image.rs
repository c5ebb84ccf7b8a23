use partty::image::{decode, file_of, picture_entry, file_sizes, base64_text, kitty, num, signed, Cut, Entry, Store};

fn apc(payload: &[u8]) -> Vec<u8> {
    let mut out = vec![0x1b, b'_'];
    out.extend_from_slice(payload);
    out.extend_from_slice(&[0x1b, b'\\']);
    out
}

#[test]
fn cut_pulls_apc() {
    let mut cut = Cut::new();
    let mut bytes = b"hi ".to_vec();
    bytes.extend(apc(b"G1=2;OK"));
    bytes.extend(b" yo");
    let (clean, out) = cut.split(&bytes);
    assert_eq!(clean, b"hi  yo");
    assert_eq!(out, vec![b"G1=2;OK".to_vec()]);
}

#[test]
fn cut_holds_chunks() {
    let mut cut = Cut::new();
    let full = apc(b"Ga=T,f=100;QUJD");
    let (clean, out) = cut.split(&full[..6]);
    assert!(clean.is_empty() && out.is_empty());
    let (clean, out) = cut.split(&full[6..]);
    assert!(clean.is_empty());
    assert_eq!(out, vec![b"Ga=T,f=100;QUJD".to_vec()]);
}

#[test]
fn cut_esc_tail() {
    let mut cut = Cut::new();
    let (clean, _) = cut.split(b"a\x1b");
    assert_eq!(clean, b"a");
    let (clean, _) = cut.split(b"[2J");
    assert_eq!(clean, b"\x1b[2J");
}

#[test]
fn cut_drops_other() {
    let mut cut = Cut::new();
    let mut bytes = b"x".to_vec();
    bytes.extend(apc(b"Qsomething"));
    bytes.extend(b"y");
    let (clean, out) = cut.split(&bytes);
    assert_eq!(clean, b"xy");
    assert!(out.is_empty());
}

#[test]
fn cut_any_chunking_agrees() {
    let mut stream = b"ab\x1b[1m".to_vec();
    stream.extend(apc(b"Gi=7;AAAA"));
    stream.extend(b"c\x1b");
    stream.extend(apc(b"Zskip"));
    stream.extend(b"d\x1b");
    let mut whole = Cut::new();
    let (clean, out) = whole.split(&stream);
    assert_eq!(clean, b"ab\x1b[1mc\x1bd");
    assert_eq!(out, vec![b"Gi=7;AAAA".to_vec()]);
    for at in 0..=stream.len() {
        let mut cut = Cut::new();
        let (mut c1, mut o1) = cut.split(&stream[..at]);
        let (c2, o2) = cut.split(&stream[at..]);
        c1.extend(c2);
        o1.extend(o2);
        assert_eq!(c1, clean, "split at {at}");
        assert_eq!(o1, out, "split at {at}");
        let (c3, _) = cut.split(b"[0m");
        assert_eq!(c3, b"\x1b[0m", "split at {at}");
    }
}

#[test]
fn kitty_parses() {
    let (ctl, data) = kitty(b"Ga=T,f=100,m=1;QUJD").unwrap();
    assert_eq!((ctl.act, ctl.fmt, ctl.id), (b'T', 100, 0));
    assert!(ctl.more);
    assert_eq!(data, b"QUJD");
    assert!(kitty(b"nope").is_none());
}

#[test]
fn kitty_reads_every_key() {
    let (ctl, data) = kitty(b"Ga=p,i=42,f=24,s=3,v=2,c=5,r=6,C=1,z=-7,m=0,q=2;").unwrap();
    assert_eq!(ctl.act, b'p');
    assert_eq!((ctl.id, ctl.fmt, ctl.img_w, ctl.img_h), (42, 24, 3, 2));
    assert_eq!((ctl.cols, ctl.rows, ctl.z), (5, 6, -7));
    assert!(ctl.still);
    assert!(!ctl.more);
    assert!(data.is_empty());
    let (ctl, data) = kitty(b"Gq=1;x").unwrap();
    assert_eq!((ctl.act, ctl.fmt, ctl.id, ctl.z), (b'T', 32, 0, 0));
    assert_eq!(data, b"x");
    assert!(kitty(b"G;x").is_none());
}

#[test]
fn kitty_refuses_bad_keys() {
    assert!(kitty(b"Gi=x;").is_none());
    assert!(kitty(b"Gi;").is_none());
    assert!(kitty(b"Gi=4294967296;").is_none());
    assert!(kitty(b"Ha=T;").is_none());
    assert!(kitty(b";").is_none());
}

#[test]
fn numbers_read_as_parse_does() {
    assert_eq!(num(b"4294967295"), Some(4294967295));
    assert_eq!(num(b"+12"), Some(12));
    assert_eq!(num(b""), None);
    assert_eq!(num(b"1a"), None);
    assert_eq!(signed(b"-2147483648"), Some(-2147483648));
    assert_eq!(signed(b"2147483648"), None);
    assert_eq!(signed(b"-"), None);
}

#[test]
fn decode_raw() {
    let rgba = vec![10, 20, 30, 40, 50, 60, 70, 80];
    let e = decode(32, 2, 1, &rgba).unwrap();
    assert_eq!((e.w, e.h), (2, 1));
    assert_eq!(e.rgba, rgba);
    let rgb = vec![10, 20, 30];
    let e = decode(24, 1, 1, &rgb).unwrap();
    assert_eq!(e.rgba, vec![10, 20, 30, 255]);
    assert!(decode(32, 2, 1, &[1, 2]).is_none());
    assert!(decode(7, 1, 1, &[1]).is_none());
}

#[test]
fn decode_rgb_adds_alpha_to_each() {
    let e = decode(24, 2, 1, &[1, 2, 3, 4, 5, 6]).unwrap();
    assert_eq!(e.rgba, vec![1, 2, 3, 255, 4, 5, 6, 255]);
    assert!(decode(24, 0, 1, &[]).is_none());
    assert!(decode(24, 2, 1, &[1, 2, 3]).is_none());
}

#[test]
fn decode_png() {
    let img = image::RgbaImage::from_pixel(2, 3, image::Rgba([9, 8, 7, 255]));
    let mut buf = Vec::new();
    image::DynamicImage::ImageRgba8(img)
        .write_to(&mut std::io::Cursor::new(&mut buf), image::ImageFormat::Png)
        .unwrap();
    let e = decode(100, 0, 0, &buf).unwrap();
    assert_eq!((e.w, e.h), (2, 3));
    assert_eq!(&e.rgba[..4], &[9, 8, 7, 255]);
}

#[test]
fn decode_png_refuses_junk() {
    assert!(decode(100, 0, 0, b"not a picture").is_none());
}

#[test]
fn file_cells() {
    let f = partty::image::file(b"name=x;width=10;height=4", b"aGk=").unwrap();
    assert_eq!((f.cols, f.rows), (10, 4));
    assert_eq!(f.png, b"hi");
    let f = partty::image::file(b"width=10px", b"aGk=").unwrap();
    assert_eq!((f.cols, f.rows), (0, 0));
}

#[test]
fn file_headers_and_text() {
    assert_eq!(file_sizes(b"height=7"), Some((0, 7)));
    assert_eq!(file_sizes(b"width=99999999999"), Some((0, 0)));
    assert_eq!(file_sizes(b"width=+3"), Some((0, 0)));
    assert_eq!(file_sizes(b""), None);
    assert_eq!(file_sizes(b"width=1;"), None);
    assert_eq!(file_sizes(b"name"), None);
    assert_eq!(base64_text(b" aG\nk=\t"), b"aGk=");
    assert_eq!(base64_text(b"aGk=b"), b"aGk=");
    assert!(partty::image::file(b"width=1", b"!!!!").is_none());
    assert!(file_of(b"nokey", Some(vec![1])).is_none());
    let f = file_of(b"width=2", Some(vec![1])).unwrap();
    assert_eq!((f.cols, f.rows, f.png), (2, 0, vec![1]));
    let f = partty::image::file(b"width=1", b"aG k=\n").unwrap();
    assert_eq!(f.png, b"hi");
}

fn entry() -> Entry {
    Entry {
        w: 1,
        h: 1,
        rgba: vec![1, 2, 3, 255],
    }
}

#[test]
fn store_evicts_oldest() {
    let mut store = Store::new();
    for id in 1..=65u32 {
        store.put(id, entry());
    }
    assert!(store.get(1).is_none());
    assert!(store.get(65).is_some());
}

#[test]
fn store_free_cleans_order() {
    let mut store = Store::new();
    for id in 1..=64u32 {
        store.put(id, entry());
    }
    store.free(1);
    for id in 65..=128u32 {
        store.put(id, entry());
    }
    assert!(store.get(2).is_none());
    assert!(store.get(128).is_some());
}

#[test]
fn store_refreshes_reused() {
    let mut store = Store::new();
    for id in 1..=64u32 {
        store.put(id, entry());
    }
    store.put(1, entry());
    store.put(65, entry());
    assert!(store.get(1).is_some());
    assert!(store.get(2).is_none());
}

#[test]
fn store_reports_what_it_lets_go() {
    let mut store = Store::new();
    for id in 1..=64u32 {
        assert_eq!(store.put(id, entry()), None);
    }
    assert_eq!(store.put(3, entry()), None);
    assert_eq!(store.put(100, entry()), Some(1));
    assert_eq!(store.put(101, entry()), Some(2));
    assert_eq!(store.put(102, entry()), Some(4));
}

#[test]
fn store_gives_back_what_was_put() {
    let mut store = Store::new();
    store.put(9, Entry { w: 2, h: 1, rgba: vec![1, 2, 3, 4, 5, 6, 7, 8] });
    store.put(9, Entry { w: 1, h: 1, rgba: vec![9, 9, 9, 9] });
    let e = store.get(9).unwrap();
    assert_eq!((e.w, e.h, e.rgba.clone()), (1, 1, vec![9, 9, 9, 9]));
    store.free(9);
    assert!(store.get(9).is_none());
    store.put(5, entry());
    store.clear();
    assert!(store.get(5).is_none());
}

#[test]
fn picture_entries_carry_what_was_decoded() {
    let e = picture_entry(Some((2, 1, vec![1, 2, 3, 4, 5, 6, 7, 8]))).unwrap();
    assert_eq!((e.w, e.h, e.rgba), (2, 1, vec![1, 2, 3, 4, 5, 6, 7, 8]));
    assert!(picture_entry(None).is_none());
}
