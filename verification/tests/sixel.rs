use partty::sixel::{ints, Six};

#[test]
fn sixel_red() {
    let mut six = Six::new();
    six.put(b"#0;2;100;0;0#0~");
    let e = six.finish().unwrap();
    assert_eq!((e.w, e.h), (1, 6));
    assert_eq!(&e.rgba[..4], &[255, 0, 0, 255]);
    assert_eq!(&e.rgba[20..24], &[255, 0, 0, 255]);
}

#[test]
fn sixel_empty_finishes_nothing() {
    assert!(Six::new().finish().is_none());
    let mut six = Six::new();
    six.put(b"$-#1");
    assert!(six.finish().is_none());
}

#[test]
fn sixel_columns_rows_and_colours() {
    let mut six = Six::new();
    // '@' is 0x40: only the top bit; then back to the first column, down a band.
    six.put(b"#1;2;0;100;0@@$-#1A");
    let e = six.finish().unwrap();
    assert_eq!((e.w, e.h), (2, 8));
    assert_eq!(e.rgba.len(), 2 * 8 * 4);
    assert_eq!(&e.rgba[0..8], &[0, 255, 0, 255, 0, 255, 0, 255]);
    assert_eq!(&e.rgba[8..16], &[0, 0, 0, 0, 0, 0, 0, 0]);
    // 'A' is 0x41: bit 1, row 6 + 1 = 7, column 0.
    assert_eq!(&e.rgba[7 * 8..7 * 8 + 8], &[0, 255, 0, 255, 0, 0, 0, 0]);
}

#[test]
fn sixel_unknown_slot_is_white() {
    let mut six = Six::new();
    six.put(b"#7@");
    let e = six.finish().unwrap();
    assert_eq!(&e.rgba[..4], &[255, 255, 255, 255]);
    let mut six = Six::new();
    six.put(b"#2000;2;50;50;50@");
    let e = six.finish().unwrap();
    assert_eq!(&e.rgba[..4], &[127, 127, 127, 255]);
}

#[test]
fn plot_grows_the_drawing() {
    let mut six = Six::new();
    six.plot(2, 1);
    let e = six.finish().unwrap();
    assert_eq!((e.w, e.h), (3, 2));
    assert_eq!(&e.rgba[(3 + 2) * 4..(3 + 2) * 4 + 4], &[255, 255, 255, 255]);
    assert_eq!(&e.rgba[0..4], &[0, 0, 0, 0]);
}

#[test]
fn ints_read_lists() {
    assert_eq!(ints(b"1;22;333x"), (vec![1, 22, 333], 8));
    assert_eq!(ints(b"x"), (vec![], 0));
    assert_eq!(ints(b"70000"), (vec![65535], 5));
    assert_eq!(ints(b"4;"), (vec![4], 2));
}
