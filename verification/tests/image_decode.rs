use woven_shell::blur::blurred_wallpaper;
use woven_shell::cc::profile_picture;
use woven_shell::launch_icons::raster_icon;

fn rgba_png(w: u32, h: u32, px: &[u8]) -> Vec<u8> {
    let mut bytes = Vec::new();
    {
        let mut enc = png::Encoder::new(&mut bytes, w, h);
        enc.set_color(png::ColorType::Rgba);
        enc.set_depth(png::BitDepth::Eight);
        let mut wr = enc.write_header().unwrap();
        wr.write_image_data(px).unwrap();
    }
    bytes
}

#[test]
fn wallpaper_is_converted_to_bgra_without_blur() {
    let bytes = rgba_png(2, 1, &[1, 2, 3, 4, 5, 6, 7, 8]);
    assert_eq!(blurred_wallpaper(&bytes, "png", 2, 1, 0), Some(vec![3, 2, 1, 4, 7, 6, 5, 8]));
    assert_eq!(blurred_wallpaper(&bytes, "PNG", 2, 1, 0), Some(vec![3, 2, 1, 4, 7, 6, 5, 8]));
}

#[test]
fn wallpaper_of_one_colour_stays_that_colour_when_blurred() {
    let px: Vec<u8> = [10u8, 20, 30, 255].iter().cycle().take(4 * 4 * 3).cloned().collect();
    let bytes = rgba_png(4, 3, &px);
    let out = blurred_wallpaper(&bytes, "png", 4, 3, 2).unwrap();
    assert_eq!(out.len(), 4 * 3 * 4);
    assert!(out.chunks(4).all(|c| c == [30, 20, 10, 255]));
}

#[test]
fn wallpaper_that_does_not_decode_gives_none() {
    let bytes = rgba_png(2, 1, &[1, 2, 3, 4, 5, 6, 7, 8]);
    assert_eq!(blurred_wallpaper(b"not an image", "png", 2, 1, 3), None);
    assert_eq!(blurred_wallpaper(&bytes, "", 2, 1, 0), None);
    assert_eq!(blurred_wallpaper(&bytes, "txt", 2, 1, 0), None);
}

#[test]
fn raster_icon_at_launcher_size() {
    let px: Vec<u8> = (0..28 * 28 * 4).map(|i| (i % 251) as u8).collect();
    let bytes = rgba_png(28, 28, &px);
    assert_eq!(raster_icon(&bytes, "png"), Some(px));
    assert_eq!(raster_icon(&bytes, "xyz"), None);
    assert_eq!(raster_icon(b"junk", "png"), None);
    let small = rgba_png(2, 2, &[9; 16]);
    let scaled = raster_icon(&small, "png").unwrap();
    assert_eq!(scaled.len(), 28 * 28 * 4);
}

#[test]
fn profile_picture_from_first_decodable_file() {
    let px: Vec<u8> = (0..64 * 64 * 4).map(|i| (i % 199) as u8).collect();
    let good = rgba_png(64, 64, &px);
    let files = vec![None, Some(b"junk".to_vec()), Some(good.clone()), Some(rgba_png(1, 1, &[1, 2, 3, 4]))];
    assert_eq!(profile_picture(&files), Some(px));
    assert_eq!(profile_picture(&vec![None, Some(b"junk".to_vec())]), None);
    assert_eq!(profile_picture(&vec![]), None);
    let tiny = profile_picture(&vec![Some(rgba_png(1, 1, &[1, 2, 3, 4]))]).unwrap();
    assert_eq!(tiny.len(), 64 * 64 * 4);
}
