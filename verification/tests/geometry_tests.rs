use instocr::geometry::{hiword_signed, loword, loword_signed, point_from_lparam, PointI, RectI};

#[test]
fn rect_normalizes_corners() {
    let r = RectI::new(10, 40, 2, 5);
    assert_eq!(r, RectI { left: 2, top: 5, right: 10, bottom: 40 });
    assert_eq!(r.width(), 8);
    assert_eq!(r.height(), 35);
}

#[test]
fn rect_clamps_each_edge() {
    let r = RectI { left: -5, top: 3, right: 500, bottom: 40 }.clamp(100, 30);
    assert_eq!(r, RectI { left: 0, top: 3, right: 100, bottom: 30 });
}

#[test]
fn message_words() {
    assert_eq!(loword(0x1234_5678), 0x5678);
    assert_eq!(loword_signed(0x0001_FFFF), -1);
    assert_eq!(loword_signed(-1), -1);
    assert_eq!(hiword_signed(0x8000_0000u32 as isize), -32768);
    assert_eq!(hiword_signed(0x0003_0002), 3);
    let lparam: isize = ((-20i16 as u16 as u32) << 16 | (300u32)) as isize;
    assert_eq!(point_from_lparam(lparam), PointI { x: 300, y: -20 });
}
