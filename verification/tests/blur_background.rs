use woven_shell::blur::{box_blur_bgra, rgba_to_bgra, solid_background};

#[test]
fn solid_background_is_dark_purple() {
    let bg = solid_background(3, 2);
    assert_eq!(bg.len(), 24);
    for px in bg.chunks(4) {
        assert_eq!(px, &[0x10, 0x00, 0x0a, 0xff]);
    }
}

#[test]
fn blur_keeps_solid_colour() {
    let mut bg = solid_background(5, 4);
    let before = bg.clone();
    box_blur_bgra(&mut bg, 5, 4, 2);
    assert_eq!(bg, before);
}

#[test]
fn blur_averages_neighbours() {
    // one row of three pixels, channel 0 = 0, 30, 60
    let mut buf = vec![0, 0, 0, 255, 30, 0, 0, 255, 60, 0, 0, 255];
    box_blur_bgra(&mut buf, 3, 1, 1);
    // three rounds: (15, 30, 45), (22, 30, 37), (26, 29, 33)
    assert_eq!((buf[0], buf[4], buf[8]), (26, 29, 33));
    assert_eq!((buf[3], buf[7], buf[11]), (255, 255, 255));
}

#[test]
fn rgba_pixels_become_bgra() {
    assert_eq!(rgba_to_bgra(&[1, 2, 3, 4, 5, 6, 7, 8]), vec![3, 2, 1, 4, 7, 6, 5, 8]);
    assert_eq!(rgba_to_bgra(&[1, 2, 3, 4, 9]), vec![3, 2, 1, 4]);
    assert!(rgba_to_bgra(&[]).is_empty());
}
