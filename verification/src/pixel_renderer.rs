//! A renderer that paints the moves into an RGB picture.
use vstd::prelude::*;
use vstd::arithmetic::div_mod::{
    lemma_fundamental_div_mod, lemma_fundamental_div_mod_converse_div, lemma_fundamental_div_mod_converse_mod,
};

use base64::Engine;
use image::ImageError;

use crate::renderer::{MoveKind, RenderError};

verus! {

/// The error type of the `image` crate.
#[verifier::external_type_specification]
#[verifier::external_body]
pub struct ExImageError(ImageError);

/// A colour.
#[derive(PartialEq, Eq, Structural, Debug, Clone, Copy)]
pub struct Rgb {
    pub r: u8,
    pub g: u8,
    pub b: u8,
}

/// Channel `i` (0 red, 1 green, 2 blue) of a colour.
pub open spec fn channel(c: Rgb, i: int) -> u8 {
    if i == 0 {
        c.r
    } else if i == 1 {
        c.g
    } else {
        c.b
    }
}

/// The colour in which a move is painted: rapid moves red, cutting moves green.
pub open spec fn move_color(kind: MoveKind) -> Rgb {
    match kind {
        MoveKind::Rapid => Rgb { r: 255, g: 0, b: 0 },
        MoveKind::Feed => Rgb { r: 0, g: 255, b: 0 },
    }
}

/// The side of the square picture, in pixels.
pub const PICTURE_SIZE: u32 = 700;

/// Paints moves into a picture, each logical pixel a block of `pw` by `ph`
/// pixels.
pub struct PixelRenderer {
    pixels: Vec<u8>,
    width: u32,
    height: u32,
    pw: u32,
    ph: u32,
}

/// A picture as the specification sees it: the RGB bytes, row by row.
pub struct PixelView {
    pub pixels: Seq<u8>,
    pub width: nat,
    pub height: nat,
    pub pw: nat,
    pub ph: nat,
}

impl View for PixelRenderer {
    type V = PixelView;

    closed spec fn view(&self) -> PixelView {
        PixelView {
            pixels: self.pixels@,
            width: self.width as nat,
            height: self.height as nat,
            pw: self.pw as nat,
            ph: self.ph as nat,
        }
    }
}

/// The picture after the logical pixel `(x, y)` is painted `color`: every
/// byte whose pixel lies in the block of `(x, y)` takes the channel of the
/// colour, every other byte stays.
pub open spec fn painted(v: PixelView, x: int, y: int, color: Rgb) -> Seq<u8> {
    painted_upto(v, x, y, color, v.pw as int, 0)
}

/// The picture after the first columns of the block of `(x, y)`, up to
/// column `i` and row `j` of it, are painted `color`.
pub open spec fn painted_upto(v: PixelView, x: int, y: int, color: Rgb, i: int, j: int) -> Seq<u8> {
    Seq::new(
        v.pixels.len(),
        |k: int|
            {
                let p = k / 3;
                let dx = p % (v.width as int) - x * v.pw;
                let dy = p / (v.width as int) - y * v.ph;
                if 0 <= dx < v.pw && 0 <= dy < v.ph && (dx < i || (dx == i && dy < j)) {
                    channel(color, k % 3)
                } else {
                    v.pixels[k]
                }
            },
    )
}

/// The name of what the PNG encoder of the `image` crate makes of an RGB
/// picture with 8 bits a channel.
pub uninterp spec fn png_image(pixels: Seq<u8>, width: u32, height: u32) -> Seq<u8>;

/// The Base64 alphabet of RFC 4648: `A`-`Z`, `a`-`z`, `0`-`9`, `+`, `/`.
pub open spec fn base64_char(v: int) -> char {
    if v < 26 {
        (65 + v) as char
    } else if v < 52 {
        (97 + v - 26) as char
    } else if v < 62 {
        (48 + v - 52) as char
    } else if v == 62 {
        '+'
    } else {
        '/'
    }
}

/// The standard Base64 encoding (RFC 4648, with `=` padding) of `bytes`:
/// each group of three bytes becomes four characters of six bits each, a
/// last group of one or two bytes is padded with `=`.
pub open spec fn base64_text(bytes: Seq<u8>) -> Seq<char>
    decreases bytes.len(),
{
    if bytes.len() == 0 {
        Seq::empty()
    } else if bytes.len() == 1 {
        let a = bytes[0] as int;
        seq![base64_char(a / 4), base64_char((a % 4) * 16), '=', '=']
    } else if bytes.len() == 2 {
        let a = bytes[0] as int;
        let b = bytes[1] as int;
        seq![base64_char(a / 4), base64_char((a % 4) * 16 + b / 16), base64_char((b % 16) * 4), '=']
    } else {
        let a = bytes[0] as int;
        let b = bytes[1] as int;
        let c = bytes[2] as int;
        seq![
            base64_char(a / 4),
            base64_char((a % 4) * 16 + b / 16),
            base64_char((b % 16) * 4 + c / 64),
            base64_char(c % 64),
        ] + base64_text(bytes.skip(3))
    }
}

/// Calls `image::RgbImage::from_raw` and `ImageBuffer::write_to` with
/// `ImageFormat::Png`, which encodes the picture as PNG into memory. Claimed:
/// it succeeds exactly when the picture is neither zero pixels wide nor zero
/// pixels high (the `png` encoder refuses only those, and writing into memory
/// does not fail), and then the bytes are the PNG encoding that `png_image`
/// names.
#[verifier::external_body]
fn encode_png(pixels: &Vec<u8>, width: u32, height: u32) -> (r: Result<Vec<u8>, ImageError>)
    requires
        pixels@.len() == width * height * 3,
    ensures
        r is Ok <==> (width > 0 && height > 0),
        r matches Ok(bytes) ==> bytes@ == png_image(pixels@, width, height),
{
    let img = image::RgbImage::from_raw(width, height, pixels.clone()).unwrap();
    let mut buffer = std::io::Cursor::new(Vec::new());
    img.write_to(&mut buffer, image::ImageFormat::Png)?;
    Ok(buffer.into_inner())
}

/// Calls `base64::engine::general_purpose::STANDARD.encode`. Claimed: the
/// result is the standard Base64 encoding with padding.
#[verifier::external_body]
fn encode_base64(bytes: &Vec<u8>) -> (r: String)
    requires
        bytes@.len() <= MAX_ENCODED,
    ensures
        r@ == base64_text(bytes@),
{
    base64::engine::general_purpose::STANDARD.encode(bytes)
}

/// A picture of at least one pixel whose bytes fill it exactly, with blocks
/// of at least one pixel.
pub open spec fn picture_wf(v: PixelView) -> bool {
    &&& v.pixels.len() == v.width * v.height * 3
    &&& v.width >= 1
    &&& v.height >= 1
    &&& v.pw >= 1
    &&& v.ph >= 1
    &&& v.width <= u32::MAX
    &&& v.height <= u32::MAX
}

/// The longest PNG encoding that is written out in Base64.
pub const MAX_ENCODED: usize = 3 * (usize::MAX / 4) - 3;

/// A PNG encoding as a `data:` URL, in Base64; too long an encoding is refused.
pub fn png_data_url(png: &Vec<u8>) -> (r: Result<String, RenderError>)
    ensures
        r is Ok <==> png@.len() <= MAX_ENCODED,
        r matches Ok(s) ==> s@ == "data:image/png;base64,"@ + base64_text(png@),
        r matches Err(e) ==> e == RenderError::TooLarge,
{
    if png.len() > MAX_ENCODED {
        return Err(RenderError::TooLarge);
    }
    let b64 = encode_base64(png);
    let mut url = String::from_str("data:image/png;base64,");
    url.append(b64.as_str());
    Ok(url)
}

impl PixelRenderer {
    /// Every picture is well formed.
    #[verifier::type_invariant]
    spec fn inv(self) -> bool {
        picture_wf(self@)
    }

    /// A white picture of `PICTURE_SIZE` by `PICTURE_SIZE` pixels, one pixel a logical pixel.
    pub fn new() -> (r: PixelRenderer)
        ensures
            picture_wf(r@),
            r@.width == PICTURE_SIZE,
            r@.height == PICTURE_SIZE,
            r@.pw == 1,
            r@.ph == 1,
            r@.pixels == Seq::new((PICTURE_SIZE * PICTURE_SIZE * 3) as nat, |k: int| 255u8),
    {
        let n: usize = 700 * 700 * 3;
        let pixels = vec![255u8; n];
        proof {
            assert forall|k: int| 0 <= k < n implies pixels@[k] == 255u8 by {
                assert(cloned(255u8, pixels@[k]));
            }
            assert(pixels@ =~= Seq::new((PICTURE_SIZE * PICTURE_SIZE * 3) as nat, |k: int| 255u8));
        }
        PixelRenderer { pixels, width: PICTURE_SIZE, height: PICTURE_SIZE, pw: 1, ph: 1 }
    }
}


proof fn lemma_pixel_index(width: int, px: int, py: int, c: int)
    requires
        width > 0,
        0 <= px < width,
        0 <= py,
        0 <= c < 3,
    ensures
        ((py * width + px) * 3 + c) / 3 == py * width + px,
        ((py * width + px) * 3 + c) % 3 == c,
        (py * width + px) % width == px,
        (py * width + px) / width == py,
{
    let p = py * width + px;
    lemma_fundamental_div_mod_converse_div(p * 3 + c, 3, p, c);
    lemma_fundamental_div_mod_converse_mod(p * 3 + c, 3, p, c);
    lemma_fundamental_div_mod_converse_div(p, width, py, px);
    lemma_fundamental_div_mod_converse_mod(p, width, py, px);
}

proof fn lemma_pixel_unique(width: int, p: int, px: int, py: int)
    requires
        width > 0,
        0 <= p,
        p % width == px,
        p / width == py,
    ensures
        p == py * width + px,
{
    lemma_fundamental_div_mod(p, width);
    assert(width * py == py * width) by (nonlinear_arith);
}

proof fn lemma_byte_pixel(k: int, p: int)
    requires
        0 <= k,
        0 <= p,
        k / 3 == p,
    ensures
        p * 3 <= k < p * 3 + 3,
{
    lemma_fundamental_div_mod(k, 3);
}

impl PixelRenderer {
    /// Paints the logical pixel `(x, y)`, that is the block of `pw` by `ph`
    /// pixels at `(x * pw, y * ph)`.
    fn set_pixel(&mut self, x: u32, y: u32, color: Rgb)
        requires
            (x + 1) * old(self)@.pw <= old(self)@.width,
            (y + 1) * old(self)@.ph <= old(self)@.height,
        ensures
            final(self)@ == (PixelView { pixels: painted(old(self)@, x as int, y as int, color), ..old(self)@ }),
    {
        proof {
            use_type_invariant(&*self);
        }
        let ghost v = self@;
        let width = self.width as usize;
        let height = self.height as usize;
        let pw = self.pw as usize;
        let ph = self.ph as usize;
        let ghost w = width as int;
        let ghost h = height as int;
        proof {
            assert(x * pw + pw <= w) by (nonlinear_arith)
                requires
                    (x + 1) * pw <= w,
            ;
            assert(y * ph + ph <= h) by (nonlinear_arith)
                requires
                    (y + 1) * ph <= h,
            ;
            assert(w > 0) by (nonlinear_arith)
                requires
                    (x + 1) * pw <= w,
                    pw >= 1,
            ;
            assert(v.pixels =~= painted_upto(v, x as int, y as int, color, 0, 0));
        }
        let x0 = (x as usize) * pw;
        let y0 = (y as usize) * ph;
        let mut i: usize = 0;
        while i < pw
            invariant
                self@ == (PixelView { pixels: self.pixels@, ..v }),
                self.pixels@ == painted_upto(v, x as int, y as int, color, i as int, 0),
                i <= pw,
                v.pixels.len() == w * h * 3,
                w == v.width,
                h == v.height,
                pw == v.pw,
                ph == v.ph,
                x0 == x * pw,
                y0 == y * ph,
                x0 + pw <= w,
                y0 + ph <= h,
                w > 0,
                width == w,
            decreases pw - i,
        {
            let mut j: usize = 0;
            while j < ph
                invariant
                    self@ == (PixelView { pixels: self.pixels@, ..v }),
                    self.pixels@ == painted_upto(v, x as int, y as int, color, i as int, j as int),
                    i < pw,
                    j <= ph,
                    v.pixels.len() == w * h * 3,
                    w == v.width,
                    h == v.height,
                    pw == v.pw,
                    ph == v.ph,
                    x0 == x * pw,
                    y0 == y * ph,
                    x0 + pw <= w,
                    y0 + ph <= h,
                    w > 0,
                    width == w,
                decreases ph - j,
            {
                let px = x0 + i;
                let py = y0 + j;
                let len = self.pixels.len();
                proof {
                    assert((py * w + px) * 3 + 3 <= w * h * 3) by (nonlinear_arith)
                        requires
                            0 <= px < w,
                            0 <= py < h,
                    ;
                    assert(py * w >= 0) by (nonlinear_arith)
                        requires
                            0 <= py,
                            0 <= w,
                    ;
                }
                let idx = (py * width + px) * 3;
                let ghost before = self.pixels@;
                self.pixels[idx] = color.r;
                self.pixels[idx + 1] = color.g;
                self.pixels[idx + 2] = color.b;
                proof {
                    let target = painted_upto(v, x as int, y as int, color, i as int, j + 1);
                    assert forall|k: int| 0 <= k < self.pixels@.len() implies self.pixels@[k] == target[k] by {
                        let p = k / 3;
                        lemma_byte_pixel(k, p);
                        if idx <= k < idx + 3 {
                            lemma_pixel_index(w, px as int, py as int, k - idx);
                        } else {
                            assert(p != py * w + px);
                            if p % w == px && p / w == py {
                                lemma_pixel_unique(w, p, px as int, py as int);
                            }
                        }
                    }
                    assert(self.pixels@ =~= target);
                }
                j = j + 1;
            }
            proof {
                let a = painted_upto(v, x as int, y as int, color, i as int, ph as int);
                let b = painted_upto(v, x as int, y as int, color, i + 1, 0);
                assert(a =~= b);
            }
            i = i + 1;
        }
    }

    /// Paints the logical pixel `(x, y)` in the colour of a move of `kind`,
    /// where it lies in the picture; elsewhere nothing happens.
    pub fn plot(&mut self, x: i32, y: i32, kind: MoveKind)
        ensures
            ({
                let v = old(self)@;
                let max_x = (v.width / v.pw) as i32;
                let max_y = (v.height / v.ph) as i32;
                if x >= 0 && x < max_x && y >= 0 && y < max_y {
                    final(self)@ == (PixelView {
                        pixels: painted(v, x as int, y as int, move_color(kind)),
                        ..v
                    })
                } else {
                    final(self)@ == v
                }
            }),
    {
        proof {
            use_type_invariant(&*self);
        }
        let max_x = (self.width / self.pw) as i32;
        let max_y = (self.height / self.ph) as i32;
        if x >= 0 && x < max_x && y >= 0 && y < max_y {
            let color = match kind {
                MoveKind::Rapid => Rgb { r: 255, g: 0, b: 0 },
                MoveKind::Feed => Rgb { r: 0, g: 255, b: 0 },
            };
            proof {
                let w = self.width as int;
                let pw = self.pw as int;
                let h = self.height as int;
                let ph = self.ph as int;
                assert((w / pw) as i32 <= w / pw);
                assert((h / ph) as i32 <= h / ph);
                assert((x + 1) * pw <= w) by (nonlinear_arith)
                    requires
                        0 <= x < w / pw,
                        pw >= 1,
                        w >= 0,
                {
                    lemma_fundamental_div_mod(w, pw);
                }
                assert((y + 1) * ph <= h) by (nonlinear_arith)
                    requires
                        0 <= y < h / ph,
                        ph >= 1,
                        h >= 0,
                {
                    lemma_fundamental_div_mod(h, ph);
                }
            }
            self.set_pixel(x as u32, y as u32, color);
        }
    }

    /// The picture as a `data:` URL: the PNG encoding of the picture in
    /// Base64. Fails only where the encoding is too long to be written in
    /// Base64.
    pub fn to_img_url(&mut self) -> (r: Result<String, RenderError>)
        ensures
            final(self)@ == old(self)@,
            r is Ok <==> png_image(old(self)@.pixels, old(self)@.width as u32, old(self)@.height as u32).len()
                <= MAX_ENCODED,
            r matches Ok(s) ==> s@ == "data:image/png;base64,"@ + base64_text(
                png_image(old(self)@.pixels, old(self)@.width as u32, old(self)@.height as u32),
            ),
            r matches Err(e) ==> e == RenderError::TooLarge,
    {
        proof {
            use_type_invariant(&*self);
        }
        match encode_png(&self.pixels, self.width, self.height) {
            Ok(bytes) => png_data_url(&bytes),
            Err(_) => Err(RenderError::Image),
        }
    }

    /// The picture's bytes, RGB, row by row.
    pub fn pixels(&self) -> (r: &Vec<u8>)
        ensures
            r@ == self@.pixels,
    {
        &self.pixels
    }

    /// The width of the picture in pixels.
    pub fn width(&self) -> (r: u32)
        ensures
            r == self@.width,
    {
        self.width
    }

    /// The height of the picture in pixels.
    pub fn height(&self) -> (r: u32)
        ensures
            r == self@.height,
    {
        self.height
    }
}

} // verus!
