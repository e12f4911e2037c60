//! Texture files: which decoder an extension selects, decoding a texture
//! file's bytes into a `Texture`, and resizing textures.
use vstd::prelude::*;
use vstd::arithmetic::div_mod::lemma_fundamental_div_mod_converse;

use crate::color::{rgba, Rgba};
use crate::landscape::Texture;
use crate::plugins::is_infix;

verus! {

/// The file formats that textures are read from.
#[derive(Clone, Copy, Debug, PartialEq, Eq, Structural)]
pub enum TextureFormat {
    Tga,
    Dds,
    Bmp,
}

/// The format an extension (already in lower case) names: the first of
/// `tga`, `dds` and `bmp` that occurs in it.
pub open spec fn spec_texture_format(lower_ext: Seq<char>) -> Option<TextureFormat> {
    if is_infix("tga"@, lower_ext) {
        Some(TextureFormat::Tga)
    } else if is_infix("dds"@, lower_ext) {
        Some(TextureFormat::Dds)
    } else if is_infix("bmp"@, lower_ext) {
        Some(TextureFormat::Bmp)
    } else {
        None
    }
}

/// `pat` occurs in `s` at position `i`.
pub(crate) fn matches_at(s: &str, pat: &str, i: usize) -> (r: bool)
    requires
        i + pat@.len() <= s@.len(),
    ensures
        r == (s@.subrange(i as int, i + pat@.len()) == pat@),
{
    let n = s.unicode_len();
    let m = pat.unicode_len();
    let mut k: usize = 0;
    while k < m
        invariant
            n == s@.len(),
            m == pat@.len(),
            i + m <= s@.len(),
            k <= m,
            forall|j: int| 0 <= j < k ==> s@[i + j] == pat@[j],
        decreases m - k,
    {
        if s.get_char(i + k) != pat.get_char(k) {
            assert(s@.subrange(i as int, i + m)[k as int] != pat@[k as int]);
            return false;
        }
        k = k + 1;
    }
    assert(s@.subrange(i as int, i + m) =~= pat@);
    true
}

/// `pat` occurs in `s`.
pub(crate) fn str_contains(s: &str, pat: &str) -> (r: bool)
    ensures
        r == is_infix(pat@, s@),
{
    let n = s.unicode_len();
    let m = pat.unicode_len();
    if m > n {
        return false;
    }
    if m == 0 {
        assert(s@.subrange(0, 0 + pat@.len() as int) =~= pat@);
        return true;
    }
    let mut i: usize = 0;
    while i <= n - m
        invariant
            n == s@.len(),
            m == pat@.len(),
            0 < m <= n,
            i <= n - m + 1,
            forall|j: int| 0 <= j < i ==> #[trigger] s@.subrange(j, j + m) != pat@,
        decreases n - m + 1 - i,
    {
        if matches_at(s, pat, i) {
            return true;
        }
        i = i + 1;
    }
    false
}

/// The format that an extension in lower case names (see
/// `spec_texture_format`); `None` for any other extension.
pub fn texture_format(lower_ext: &str) -> (f: Option<TextureFormat>)
    ensures
        f == spec_texture_format(lower_ext@),
{
    if str_contains(lower_ext, "tga") {
        Some(TextureFormat::Tga)
    } else if str_contains(lower_ext, "dds") {
        Some(TextureFormat::Dds)
    } else if str_contains(lower_ext, "bmp") {
        Some(TextureFormat::Bmp)
    } else {
        None
    }
}

/// A name for `str::to_lowercase` of std: the lower case of a string by the
/// Unicode `Lowercase` property.
pub uninterp spec fn unicode_lowercase(s: Seq<char>) -> Seq<char>;

/// `str::to_lowercase` of std: the lower-case form of `s`, a function of `s`
/// alone (std's Unicode tables), named `unicode_lowercase`.
#[verifier::external_body]
pub(crate) fn str_to_lowercase(s: &str) -> (r: String)
    ensures
        r@ == unicode_lowercase(s@),
{
    s.to_lowercase()
}

/// The pixels that `4 * n` bytes in RGBA order hold.
pub open spec fn rgba_pixels(bytes: Seq<u8>, n: int) -> Seq<Rgba> {
    Seq::new(
        n as nat,
        |i: int| rgba(bytes[4 * i], bytes[4 * i + 1], bytes[4 * i + 2], bytes[4 * i + 3]),
    )
}

/// Channel `k` (0 red, 1 green, 2 blue, 3 alpha) of a colour.
pub open spec fn channel(c: Rgba, k: int) -> u8 {
    if k == 0 {
        c.r
    } else if k == 1 {
        c.g
    } else if k == 2 {
        c.b
    } else {
        c.a
    }
}

/// The bytes of pixels in RGBA order.
pub open spec fn rgba_bytes(pixels: Seq<Rgba>) -> Seq<u8> {
    Seq::new(4 * pixels.len(), |k: int| channel(pixels[k / 4], k % 4))
}

/// The pixels of their own RGBA bytes are the pixels.
proof fn lemma_rgba_round_trip(pixels: Seq<Rgba>)
    ensures
        rgba_pixels(rgba_bytes(pixels), pixels.len() as int) == pixels,
{
    let b = rgba_bytes(pixels);
    assert forall|i: int| 0 <= i < pixels.len() implies #[trigger] rgba_pixels(b, pixels.len() as int)[i]
        == pixels[i] by {
        lemma_fundamental_div_mod_converse(4 * i, 4, i, 0);
        lemma_fundamental_div_mod_converse(4 * i + 1, 4, i, 1);
        lemma_fundamental_div_mod_converse(4 * i + 2, 4, i, 2);
        lemma_fundamental_div_mod_converse(4 * i + 3, 4, i, 3);
    }
    assert(rgba_pixels(b, pixels.len() as int) =~= pixels);
}

/// A texture of `width` by `height` pixels from bytes in RGBA order, row by
/// row; bytes after the first `4 * width * height` are not read.
pub fn texture_from_rgba(width: u32, height: u32, bytes: &Vec<u8>) -> (t: Texture)
    requires
        bytes@.len() >= 4 * width * height,
    ensures
        t.width == width,
        t.height == height,
        t.pixels@ == rgba_pixels(bytes@, width * height),
        t.wf(),
{
    let len = bytes.len();
    proof {
        assert(width * height <= 4 * width * height) by (nonlinear_arith);
        assert(4 * width * height == 4 * (width * height)) by (nonlinear_arith);
    }
    let n: usize = width as usize * height as usize;
    let mut pixels: Vec<Rgba> = Vec::new();
    let mut i: usize = 0;
    while i < n
        invariant
            n == width * height,
            bytes@.len() >= 4 * n,
            len == bytes@.len(),
            i <= n,
            pixels@ =~= rgba_pixels(bytes@, i as int),
        decreases n - i,
    {
        let p = Rgba { r: bytes[4 * i], g: bytes[4 * i + 1], b: bytes[4 * i + 2], a: bytes[4 * i + 3] };
        pixels.push(p);
        i = i + 1;
    }
    Texture { width: width as usize, height: height as usize, pixels }
}

/// The bytes of a texture's pixels in RGBA order.
fn texture_bytes(t: &Texture) -> (b: Vec<u8>)
    requires
        4 * t.pixels@.len() <= usize::MAX,
    ensures
        b@ == rgba_bytes(t.pixels@),
{
    let p = &t.pixels;
    let mut b: Vec<u8> = Vec::new();
    let mut i: usize = 0;
    while i < p.len()
        invariant
            4 * p@.len() <= usize::MAX,
            i <= p@.len(),
            b@.len() == 4 * i,
            forall|k: int| 0 <= k < b@.len() ==> b@[k] == channel(p@[k / 4], k % 4),
        decreases p.len() - i,
    {
        let c = p[i];
        proof {
            lemma_fundamental_div_mod_converse(4 * i, 4, i as int, 0);
            lemma_fundamental_div_mod_converse(4 * i + 1, 4, i as int, 1);
            lemma_fundamental_div_mod_converse(4 * i + 2, 4, i as int, 2);
            lemma_fundamental_div_mod_converse(4 * i + 3, 4, i as int, 3);
        }
        b.push(c.r);
        b.push(c.g);
        b.push(c.b);
        b.push(c.a);
        i = i + 1;
    }
    assert(b@ =~= rgba_bytes(t.pixels@));
    b
}

/// Why a texture file could not be read.
#[derive(Debug, Clone, PartialEq, Eq)]
pub enum TextureError {
    /// The extension (in lower case) names no texture format.
    Unsupported(String),
    /// The decoder refused the file's bytes.
    Decode,
}

#[verifier::external_type_specification]
#[verifier::external_body]
pub struct ExImageError(image::ImageError);

/// A name for `image::load_from_memory_with_format` followed by `to_rgba8`:
/// the width, height and RGBA bytes of the image decoded from `bytes` in
/// `format`, `None` where decoding fails.
pub uninterp spec fn decoded_rgba(bytes: Seq<u8>, format: TextureFormat) -> Option<(u32, u32, Seq<u8>)>;

/// `image::load_from_memory_with_format` with the format `format` names,
/// then `DynamicImage::to_rgba8`: decodes the bytes of an image file, a
/// function of the bytes and the format alone (named `decoded_rgba`).  The
/// buffer of an `ImageBuffer` holds at least 4 bytes per pixel.
#[verifier::external_body]
fn decode_rgba(bytes: &[u8], format: TextureFormat) -> (r: Result<(u32, u32, Vec<u8>), image::ImageError>)
    ensures
        r matches Ok(v) ==> decoded_rgba(bytes@, format) == Some((v.0, v.1, v.2@)) && v.2@.len() >= 4
            * v.0 * v.1,
        r is Err ==> decoded_rgba(bytes@, format) is None,
{
    let format = match format {
        TextureFormat::Tga => image::ImageFormat::Tga,
        TextureFormat::Dds => image::ImageFormat::Dds,
        TextureFormat::Bmp => image::ImageFormat::Bmp,
    };
    let rgba = image::load_from_memory_with_format(bytes, format)?.to_rgba8();
    Ok((rgba.width(), rgba.height(), rgba.into_raw()))
}

/// Reads a texture file with extension `ext` from its bytes: the lower-case
/// extension picks the format (see `spec_texture_format`), and the decoded
/// image becomes a texture.
pub fn decode_image(ext: &str, bytes: &Vec<u8>) -> (r: Result<Texture, TextureError>)
    ensures
        ({
            let lower = unicode_lowercase(ext@);
            match spec_texture_format(lower) {
                None => r matches Err(TextureError::Unsupported(e)) && e@ == lower,
                Some(f) => match decoded_rgba(bytes@, f) {
                    None => r == Err::<Texture, TextureError>(TextureError::Decode),
                    Some(v) => r matches Ok(t) && t.width == v.0 && t.height == v.1 && t.pixels@
                        == rgba_pixels(v.2, v.0 * v.1),
                },
            }
        }),
{
    let lower = str_to_lowercase(ext);
    let format = match texture_format(lower.as_str()) {
        Some(f) => f,
        None => {
            return Err(TextureError::Unsupported(lower));
        },
    };
    match decode_rgba(bytes.as_slice(), format) {
        Ok((width, height, rgba)) => Ok(texture_from_rgba(width, height, &rgba)),
        Err(_) => Err(TextureError::Decode),
    }
}

/// The resampling filters of the `image` crate that the library uses.
#[derive(Clone, Copy, Debug, PartialEq, Eq, Structural)]
pub enum ResizeFilter {
    /// Catmull-Rom cubic resampling.
    CatmullRom,
}

/// A name for `image::imageops::resize` on RGBA bytes: the bytes of the
/// image of `width` by `height` pixels resampled to `new_width` by
/// `new_height` with `filter`.
pub uninterp spec fn resized_rgba(
    bytes: Seq<u8>,
    width: u32,
    height: u32,
    new_width: u32,
    new_height: u32,
    filter: ResizeFilter,
) -> Seq<u8>;

/// `image::imageops::resize` on an RGBA image given by its bytes (which
/// `ImageBuffer::from_raw` accepts, their number being exactly 4 per pixel).
/// The resampling is a function of the bytes, the sizes and the filter alone
/// (the Catmull-Rom path uses only `f32` arithmetic, `floor`, `ceil` and
/// rounding), named `resized_rgba`.  What the crate's source also shows: the
/// result has 4 bytes per pixel of the new size; an empty image gives zero
/// bytes; an image already of the new size is copied.
#[verifier::external_body]
fn resize_rgba(
    bytes: Vec<u8>,
    width: u32,
    height: u32,
    new_width: u32,
    new_height: u32,
    filter: ResizeFilter,
) -> (r: Vec<u8>)
    requires
        bytes@.len() == 4 * width * height,
        4 * new_width * new_height <= usize::MAX,
        width * height > 0 ==> 4 * width * new_height <= usize::MAX,
    ensures
        r@ == resized_rgba(bytes@, width, height, new_width, new_height, filter),
        r@.len() == 4 * new_width * new_height,
        width * height == 0 ==> r@ == Seq::new(r@.len(), |k: int| 0u8),
        width * height > 0 && width == new_width && height == new_height ==> r@ == bytes@,
{
    let filter = match filter {
        ResizeFilter::CatmullRom => image::imageops::FilterType::CatmullRom,
    };
    let image = image::RgbaImage::from_raw(width, height, bytes).unwrap();
    image::imageops::resize(&image, new_width, new_height, filter).into_raw()
}

/// `t` can be resized to `width` by `height` in memory.
pub open spec fn resize_fits(t: Texture, width: int, height: int) -> bool {
    &&& t.wf()
    &&& t.width <= u32::MAX
    &&& t.height <= u32::MAX
    &&& 0 <= width <= u32::MAX
    &&& 0 <= height <= u32::MAX
    &&& 4 * t.width * t.height <= usize::MAX
    &&& 4 * width * height <= usize::MAX
    &&& t.width * t.height > 0 ==> 4 * t.width * height <= usize::MAX
}

/// `r` is `t` resized to `width` by `height` with Catmull-Rom resampling:
/// its pixels are those `resized_rgba` gives of `t`'s bytes; a texture
/// already of that size is kept, and an empty one gives transparent pixels.
pub open spec fn resized(t: Texture, width: int, height: int, r: Texture) -> bool {
    &&& r.width == width
    &&& r.height == height
    &&& r.wf()
    &&& r.pixels@ == rgba_pixels(
        resized_rgba(
            rgba_bytes(t.pixels@),
            t.width as u32,
            t.height as u32,
            width as u32,
            height as u32,
            ResizeFilter::CatmullRom,
        ),
        width * height,
    )
    &&& t.width * t.height > 0 && t.width == width && t.height == height ==> r.pixels@ == t.pixels@
    &&& t.width * t.height == 0 ==> r.pixels@ == Seq::new(r.pixels@.len(), |i: int| rgba(0, 0, 0, 0))
}

/// Resizes a texture to `width` by `height` with Catmull-Rom resampling.
pub fn resize_texture(t: &Texture, width: usize, height: usize) -> (r: Texture)
    requires
        resize_fits(*t, width as int, height as int),
    ensures
        resized(*t, width as int, height as int, r),
{
    proof {
        assert(4 * t.width * t.height == 4 * t.pixels@.len()) by (nonlinear_arith)
            requires
                t.pixels@.len() == t.width * t.height,
        ;
    }
    let bytes = texture_bytes(t);
    let out = resize_rgba(bytes, t.width as u32, t.height as u32, width as u32, height as u32, ResizeFilter::CatmullRom);
    let r = texture_from_rgba(width as u32, height as u32, &out);
    proof {
        if t.width * t.height > 0 && t.width == width && t.height == height {
            lemma_rgba_round_trip(t.pixels@);
        }
        if t.width * t.height == 0 {
            let n = width * height;
            assert(4 * width * height == 4 * n) by (nonlinear_arith)
                requires
                    n == width * height,
            ;
            assert forall|i: int| 0 <= i < r.pixels@.len() implies #[trigger] r.pixels@[i] == rgba(0, 0, 0, 0) by {
                assert(out@[4 * i] == 0u8 && out@[4 * i + 1] == 0u8);
                assert(out@[4 * i + 2] == 0u8 && out@[4 * i + 3] == 0u8);
            }
            assert(r.pixels@ =~= Seq::new(r.pixels@.len(), |i: int| rgba(0, 0, 0, 0)));
        }
    }
    r
}

/// The texture map at texture size `size`: every loaded texture, under its
/// name, resized to `size` by `size`.
pub fn resize_textures(loaded: Vec<(String, Texture)>, size: usize) -> (map: Vec<(String, Texture)>)
    requires
        forall|k: int| 0 <= k < loaded@.len() ==> resize_fits(#[trigger] loaded@[k].1, size as int, size as int),
    ensures
        map@.len() == loaded@.len(),
        forall|k: int|
            0 <= k < map@.len() ==> {
                &&& (#[trigger] map@[k]).0 == loaded@[k].0
                &&& resized(loaded@[k].1, size as int, size as int, map@[k].1)
            },
{
    let mut map: Vec<(String, Texture)> = Vec::new();
    let mut k: usize = 0;
    while k < loaded.len()
        invariant
            forall|j: int| 0 <= j < loaded@.len() ==> resize_fits(#[trigger] loaded@[j].1, size as int, size as int),
            k <= loaded@.len(),
            map@.len() == k,
            forall|j: int|
                0 <= j < k ==> {
                    &&& (#[trigger] map@[j]).0 == loaded@[j].0
                    &&& resized(loaded@[j].1, size as int, size as int, map@[j].1)
                },
        decreases loaded@.len() - k,
    {
        let t = resize_texture(&loaded[k].1, size, size);
        map.push((loaded[k].0.clone(), t));
        k = k + 1;
    }
    map
}

/// Size `(aw, ah)` comes before `(bw, bh)`: the widths compared first, then
/// the heights.
pub open spec fn size_before(aw: int, ah: int, bw: int, bh: int) -> bool {
    aw < bw || (aw == bw && ah < bh)
}

/// Brings a background image and the image overlaid on it to one size: the
/// one whose size comes first is resized to the other's size.
pub fn match_overlay_sizes(background: Texture, overlay: Texture) -> (r: (Texture, Texture))
    requires
        size_before(background.width as int, background.height as int, overlay.width as int, overlay.height as int)
            ==> resize_fits(background, overlay.width as int, overlay.height as int),
        size_before(overlay.width as int, overlay.height as int, background.width as int, background.height as int)
            ==> resize_fits(overlay, background.width as int, background.height as int),
    ensures
        if size_before(background.width as int, background.height as int, overlay.width as int, overlay.height as int) {
            resized(background, overlay.width as int, overlay.height as int, r.0) && r.1 == overlay
        } else if size_before(overlay.width as int, overlay.height as int, background.width as int, background.height as int) {
            r.0 == background && resized(overlay, background.width as int, background.height as int, r.1)
        } else {
            r.0 == background && r.1 == overlay
        },
{
    if background.width < overlay.width || (background.width == overlay.width && background.height < overlay.height) {
        let b = resize_texture(&background, overlay.width, overlay.height);
        (b, overlay)
    } else if overlay.width < background.width || (overlay.width == background.width && overlay.height < background.height) {
        let o = resize_texture(&overlay, background.width, background.height);
        (background, o)
    } else {
        (background, overlay)
    }
}

} // verus!
