use tes3map::color::Rgba;
use tes3map::images::{
    decode_image, match_overlay_sizes, resize_texture, resize_textures, texture_format, texture_from_rgba,
    TextureError, TextureFormat,
};
use tes3map::landscape::Texture;

fn solid(c: Rgba, w: usize, h: usize) -> Texture {
    Texture { width: w, height: h, pixels: vec![c; w * h] }
}

/// An uncompressed 32-bit TGA image, top row first, pixels given as RGBA.
fn tga(width: u16, height: u16, rgba: &[[u8; 4]]) -> Vec<u8> {
    let mut b = vec![0u8, 0, 2, 0, 0, 0, 0, 0, 0, 0, 0, 0];
    b.extend_from_slice(&width.to_le_bytes());
    b.extend_from_slice(&height.to_le_bytes());
    b.push(32);
    b.push(0x28);
    for p in rgba {
        b.extend_from_slice(&[p[2], p[1], p[0], p[3]]);
    }
    b
}

#[test]
fn extensions_name_formats_in_order() {
    assert_eq!(texture_format("tga"), Some(TextureFormat::Tga));
    assert_eq!(texture_format("dds"), Some(TextureFormat::Dds));
    assert_eq!(texture_format("bmp"), Some(TextureFormat::Bmp));
    assert_eq!(texture_format("xbmpx"), Some(TextureFormat::Bmp));
    assert_eq!(texture_format("ddstga"), Some(TextureFormat::Tga));
    assert_eq!(texture_format("png"), None);
    assert_eq!(texture_format(""), None);
}

#[test]
fn unsupported_extensions_are_named_in_lower_case() {
    assert_eq!(decode_image("PNG", &vec![1, 2, 3]), Err(TextureError::Unsupported("png".to_string())));
    assert_eq!(decode_image("Jpeg", &vec![]), Err(TextureError::Unsupported("jpeg".to_string())));
}

#[test]
fn undecodable_bytes_are_refused() {
    assert_eq!(decode_image("TGA", &vec![1, 2, 3]), Err(TextureError::Decode));
    assert_eq!(decode_image("bmp", &vec![]), Err(TextureError::Decode));
}

#[test]
fn a_tga_file_decodes_to_its_pixels() {
    let bytes = tga(2, 1, &[[10, 20, 30, 255], [40, 50, 60, 128]]);
    let t = decode_image("TGA", &bytes).unwrap();
    assert_eq!((t.width, t.height), (2, 1));
    assert_eq!(
        t.pixels,
        vec![Rgba { r: 10, g: 20, b: 30, a: 255 }, Rgba { r: 40, g: 50, b: 60, a: 128 }]
    );
}

#[test]
fn rgba_bytes_become_pixels() {
    let t = texture_from_rgba(1, 2, &vec![1, 2, 3, 4, 5, 6, 7, 8, 9]);
    assert_eq!((t.width, t.height), (1, 2));
    assert_eq!(t.pixels, vec![Rgba { r: 1, g: 2, b: 3, a: 4 }, Rgba { r: 5, g: 6, b: 7, a: 8 }]);
}

#[test]
fn resizing_gives_the_new_size() {
    let red = Rgba::from_rgb(255, 0, 0);
    let big = resize_texture(&solid(red, 2, 2), 4, 3);
    assert_eq!((big.width, big.height, big.pixels.len()), (4, 3, 12));
    assert!(big.pixels.iter().all(|p| *p == red));
    let same = resize_texture(&solid(red, 2, 2), 2, 2);
    assert_eq!(same, solid(red, 2, 2));
    let empty = resize_texture(&solid(red, 0, 0), 2, 1);
    assert_eq!(empty.pixels, vec![Rgba::transparent(); 2]);
}

#[test]
fn the_texture_map_holds_every_texture_at_the_texture_size() {
    let loaded = vec![
        ("a".to_string(), solid(Rgba::white(), 8, 8)),
        ("b".to_string(), solid(Rgba::black(), 3, 5)),
    ];
    let map = resize_textures(loaded, 4);
    assert_eq!(map.len(), 2);
    assert_eq!(map[0].0, "a");
    assert_eq!(map[1].0, "b");
    assert!(map.iter().all(|(_, t)| t.width == 4 && t.height == 4 && t.pixels.len() == 16));
}

#[test]
fn the_smaller_image_takes_the_other_size() {
    let c = Rgba::gold();
    let (b, f) = match_overlay_sizes(solid(c, 2, 2), solid(c, 4, 1));
    assert_eq!((b.width, b.height), (4, 1));
    assert_eq!(f, solid(c, 4, 1));
    let (b, f) = match_overlay_sizes(solid(c, 3, 3), solid(c, 3, 2));
    assert_eq!(b, solid(c, 3, 3));
    assert_eq!((f.width, f.height), (3, 3));
    let (b, f) = match_overlay_sizes(solid(c, 2, 2), solid(Rgba::blue(), 2, 2));
    assert_eq!((b, f), (solid(c, 2, 2), solid(Rgba::blue(), 2, 2)));
}
