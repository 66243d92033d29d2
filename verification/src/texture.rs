//! Decoding of model textures into RGBA pixel buffers.

pub mod loading;
pub mod tga;

use vstd::prelude::*;
use vstd::arithmetic::div_mod::{lemma_fundamental_div_mod, lemma_mod_pos_bound};

use crate::model::{ImageFormat, ModelTexture};
use self::tga::{read_tga, spec_read_tga, TgaDecodeError, TgaImage};

verus! {

/// Index of a texture in a model.
#[derive(Copy, Clone, Debug, PartialEq, Eq, PartialOrd, Ord, Hash)]
pub struct TextureId(pub usize);

impl TextureId {
    pub fn raw(&self) -> (r: usize)
        ensures
            r == self.0,
    {
        self.0
    }
}

/// What a `ShallowTexture` holds: RGBA pixels, row by row, and the image size.
pub struct ShallowTextureView {
    pub pixels: Seq<u8>,
    pub width: u32,
    pub height: u32,
}

/// A decoded texture that no rendering backend holds yet.
pub struct ShallowTexture {
    pixels: Vec<u8>,
    width: u32,
    height: u32,
}

impl View for ShallowTexture {
    type V = ShallowTextureView;

    closed spec fn view(&self) -> ShallowTextureView {
        ShallowTextureView { pixels: self.pixels@, width: self.width, height: self.height }
    }
}

impl ShallowTexture {
    pub fn pixels(&self) -> (r: &[u8])
        ensures
            r@ == self@.pixels,
    {
        self.pixels.as_slice()
    }

    pub fn width(&self) -> (r: u32)
        ensures
            r == self@.width,
    {
        self.width
    }

    pub fn height(&self) -> (r: u32)
        ensures
            r == self@.height,
    {
        self.height
    }
}

impl From<TgaImage> for ShallowTexture {
    fn from(value: TgaImage) -> (r: Self)
        ensures
            r@.pixels == value.data@,
            r@.width == value.header.width as u32,
            r@.height == value.header.height as u32,
    {
        ShallowTexture {
            width: value.header.width as u32,
            height: value.header.height as u32,
            pixels: value.data,
        }
    }
}

impl vstd::std_specs::convert::FromSpecImpl<TgaImage> for ShallowTexture {
    open spec fn obeys_from_spec() -> bool {
        true
    }

    closed spec fn from_spec(v: TgaImage) -> ShallowTexture {
        ShallowTexture {
            pixels: v.data,
            width: v.header.width as u32,
            height: v.header.height as u32,
        }
    }
}

#[verifier::external_type_specification]
#[verifier::external_body]
pub struct ExImageError(image::ImageError);

/// The RGBA pixels, width and height that the `image` crate decodes from PNG data,
/// or `None` where it reports an error.
pub uninterp spec fn png_rgba8(data: Seq<u8>) -> Option<(Seq<u8>, u32, u32)>;

/// Calls `image::load_from_memory_with_format` with the PNG format and converts the
/// image to 8-bit RGBA. Trusted to give the same result for the same data, and an RGBA
/// buffer of four bytes for each of its `width * height` pixels; nothing is claimed about
/// the pixel values beyond that.
#[verifier::external_body]
fn load_png_rgba8(data: &[u8]) -> (res: Result<(Vec<u8>, u32, u32), image::ImageError>)
    ensures
        res is Ok <==> png_rgba8(data@) is Some,
        res matches Ok((p, w, h)) ==> png_rgba8(data@) == Some((p@, w, h)),
        res matches Ok((p, w, h)) ==> p@.len() == 4 * w * h,
{
    let img = image::load_from_memory_with_format(data, image::ImageFormat::Png)?.into_rgba8();
    let (width, height) = (img.width(), img.height());
    Ok((img.to_vec(), width, height))
}

/// Why a model texture could not be decoded.
#[derive(Debug)]
pub enum DecodeTextureError {
    TgaDecode(TgaDecodeError),
    ImageDecode(image::ImageError),
}

/// Decodes a model texture to RGBA: TGA with this crate's decoder, PNG with the `image` crate.
pub fn decode_texture(mtex: ModelTexture) -> (res: Result<ShallowTexture, DecodeTextureError>)
    ensures
        mtex.format == ImageFormat::Tga ==> match spec_read_tga(mtex.data@) {
            Ok((h, _, d)) => res matches Ok(t) && t@ == (ShallowTextureView {
                pixels: d,
                width: h.width as u32,
                height: h.height as u32,
            }),
            Err(e) => res matches Err(DecodeTextureError::TgaDecode(e2)) && e2 == e,
        },
        mtex.format == ImageFormat::Png ==> match png_rgba8(mtex.data@) {
            Some((p, w, h)) => res matches Ok(t) && t@ == (ShallowTextureView {
                pixels: p,
                width: w,
                height: h,
            }),
            None => res matches Err(DecodeTextureError::ImageDecode(_)),
        },
        mtex.format == ImageFormat::Png ==> (res matches Ok(t) ==> t@.pixels.len() == 4 * t@.width * t@.height),
{
    if mtex.format == ImageFormat::Tga {
        match read_tga(mtex.data.as_slice()) {
            Ok(tga_texture) => Ok(ShallowTexture::from(tga_texture)),
            Err(e) => Err(DecodeTextureError::TgaDecode(e)),
        }
    } else {
        match load_png_rgba8(mtex.data.as_slice()) {
            Ok((pixels, width, height)) => Ok(ShallowTexture { pixels, width, height }),
            Err(e) => Err(DecodeTextureError::ImageDecode(e)),
        }
    }
}

/// `s` with the colour bytes of each whole RGBA pixel multiplied by the pixel's alpha / 255.
pub open spec fn premultiplied(s: Seq<u8>) -> Seq<u8> {
    Seq::new(
        s.len(),
        |k: int|
            if k < s.len() / 4 * 4 && k % 4 < 3 {
                (s[k] as int * s[k - k % 4 + 3] as int / 255) as u8
            } else {
                s[k]
            },
    )
}

/// `s` with the colour bytes of each whole RGBA pixel of nonzero alpha multiplied by
/// 255 / alpha, the result truncated to 8 bits.
pub open spec fn unpremultiplied(s: Seq<u8>) -> Seq<u8> {
    Seq::new(
        s.len(),
        |k: int|
            if k < s.len() / 4 * 4 && k % 4 < 3 && s[k - k % 4 + 3] != 0 {
                (#[verifier::truncate] ((s[k] as int * 255 / s[k - k % 4 + 3] as int) as u8))
            } else {
                s[k]
            },
    )
}

proof fn lemma_scaled_fits(c: u8, a: u8)
    ensures
        c as int * a as int / 255 <= 255,
{
    assert(c as int * a as int <= 255 * 255) by (nonlinear_arith)
        requires
            c <= 255,
            a <= 255,
    ;
}

/// Multiplies the colour of each RGBA pixel by its alpha.
#[allow(clippy::identity_op)]
pub fn in_tex_premultiply(buf: &mut [u8])
    ensures
        final(buf)@ == premultiplied(old(buf)@),
{
    let len = buf.len();
    let n = len / 4;
    let ghost s = buf@;
    let mut i: usize = 0;
    while i < n
        invariant
            len == s.len(),
            n == s.len() / 4,
            buf@.len() == s.len(),
            s == old(buf)@,
            i <= n,
            forall|k: int| 0 <= k < i * 4 ==> buf@[k] == #[trigger] premultiplied(s)[k],
            forall|k: int| i * 4 <= k < s.len() ==> buf@[k] == s[k],
        decreases n - i,
    {
        let a = buf[i * 4 + 3];
        proof {
            lemma_scaled_fits(buf@[i * 4 + 0], a);
            lemma_scaled_fits(buf@[i * 4 + 1], a);
            lemma_scaled_fits(buf@[i * 4 + 2], a);
        }
        buf[i * 4 + 0] = (buf[i * 4 + 0] as u32 * buf[i * 4 + 3] as u32 / 255) as u8;
        buf[i * 4 + 1] = (buf[i * 4 + 1] as u32 * buf[i * 4 + 3] as u32 / 255) as u8;
        buf[i * 4 + 2] = (buf[i * 4 + 2] as u32 * buf[i * 4 + 3] as u32 / 255) as u8;
        i = i + 1;
    }
    assert(buf@ =~= premultiplied(s));
}

/// Divides the colour of each RGBA pixel of nonzero alpha by its alpha.
#[allow(clippy::identity_op)]
pub fn in_tex_unpremultiply(buf: &mut [u8])
    ensures
        final(buf)@ == unpremultiplied(old(buf)@),
{
    let len = buf.len();
    let n = len / 4;
    let ghost s = buf@;
    let mut i: usize = 0;
    while i < n
        invariant
            len == s.len(),
            n == s.len() / 4,
            buf@.len() == s.len(),
            s == old(buf)@,
            i <= n,
            forall|k: int| 0 <= k < i * 4 ==> buf@[k] == #[trigger] unpremultiplied(s)[k],
            forall|k: int| i * 4 <= k < s.len() ==> buf@[k] == s[k],
        decreases n - i,
    {
        if buf[i * 4 + 3] == 0 {
            i = i + 1;
            continue;
        }
        buf[i * 4 + 0] = (#[verifier::truncate] ((buf[i * 4 + 0] as u32 * 255 / buf[i * 4 + 3] as u32) as u8));
        buf[i * 4 + 1] = (#[verifier::truncate] ((buf[i * 4 + 1] as u32 * 255 / buf[i * 4 + 3] as u32) as u8));
        buf[i * 4 + 2] = (#[verifier::truncate] ((buf[i * 4 + 2] as u32 * 255 / buf[i * 4 + 3] as u32) as u8));
        i = i + 1;
    }
    assert(buf@ =~= unpremultiplied(s));
}

/// Premultiplying and unpremultiplying keep every byte's alpha and every byte that is
/// not part of a whole pixel, and leave fully opaque pixels unchanged; so unpremultiplying
/// a premultiplied opaque image gives it back.
pub proof fn lemma_premultiply_opaque(s: Seq<u8>)
    ensures
        premultiplied(s).len() == s.len(),
        unpremultiplied(s).len() == s.len(),
        forall|k: int|
            0 <= k < s.len() && (k % 4 == 3 || k >= s.len() / 4 * 4) ==> #[trigger] premultiplied(s)[k] == s[k]
                && unpremultiplied(s)[k] == s[k],
        forall|k: int|
            0 <= k < s.len() / 4 * 4 && s[k - k % 4 + 3] == 255 ==> #[trigger] premultiplied(s)[k] == s[k]
                && unpremultiplied(s)[k] == s[k],
        (forall|p: int| 0 <= p < s.len() / 4 ==> #[trigger] s[4 * p + 3] == 255) ==> unpremultiplied(
            premultiplied(s),
        ) == s,
{
    assert forall|k: int| 0 <= k < s.len() / 4 * 4 && s[k - k % 4 + 3] == 255 implies #[trigger] premultiplied(s)[k]
        == s[k] && unpremultiplied(s)[k] == s[k] by {
        if k % 4 < 3 {
            assert(s[k] as int * 255 / 255 == s[k] as int) by (nonlinear_arith);
            assert((s[k] as int * 255 / 255) as u8 == s[k]);
        }
    }
    if forall|p: int| 0 <= p < s.len() / 4 ==> #[trigger] s[4 * p + 3] == 255 {
        let t = premultiplied(s);
        assert forall|k: int| 0 <= k < s.len() / 4 * 4 implies #[trigger] s[k - k % 4 + 3] == 255 by {
            let p = k / 4;
            assert(k - k % 4 == 4 * p);
            assert(s[4 * p + 3] == 255);
        }
        assert forall|k: int| 0 <= k < t.len() implies unpremultiplied(t)[k] == s[k] by {
            if k < s.len() / 4 * 4 {
                assert(t[k - k % 4 + 3] == s[k - k % 4 + 3]) by {
                    assert((k - k % 4 + 3) % 4 == 3);
                }
                if k % 4 < 3 {
                    assert(t[k] == s[k]);
                    assert(s[k] as int * 255 / 255 == s[k] as int) by (nonlinear_arith);
                }
            }
        }
        assert(unpremultiplied(t) =~= s);
    }
}

/// A colour byte `c` that is premultiplied by alpha `a > 0` and then divided by it again
/// comes back no larger, and at most `255 / a + 1` smaller.
proof fn lemma_round_trip_byte(c: int, a: int)
    requires
        0 <= c <= 255,
        0 < a <= 255,
    ensures
        c * a / 255 * 255 / a <= c,
        c - c * a / 255 * 255 / a <= 255int / a + 1,
{
    let p = c * a / 255;
    let u = p * 255 / a;
    let q = 255int / a;
    lemma_fundamental_div_mod(c * a, 255);
    lemma_mod_pos_bound(c * a, 255);
    lemma_fundamental_div_mod(p * 255, a);
    lemma_mod_pos_bound(p * 255, a);
    lemma_fundamental_div_mod(255, a);
    lemma_mod_pos_bound(255, a);
    let r1 = (c * a) % 255;
    let r2 = (p * 255) % a;
    let r3 = 255int % a;
    assert(u <= c) by (nonlinear_arith)
        requires
            c * a == 255 * p + r1,
            r1 >= 0,
            p * 255 == a * u + r2,
            r2 >= 0,
            a > 0,
    ;
    assert(a * (c - u - 1) < a * (q + 1)) by (nonlinear_arith)
        requires
            c * a == 255 * p + r1,
            r1 < 255,
            p * 255 == a * u + r2,
            r2 < a,
            255 == a * q + r3,
            r3 < a,
    ;
    assert(c - u - 1 < q + 1) by (nonlinear_arith)
        requires
            a * (c - u - 1) < a * (q + 1),
            a > 0,
    ;
}

/// Premultiplying and then unpremultiplying an image keeps its length, its alpha bytes
/// and the bytes after the last whole pixel; it clears the colour of a fully transparent
/// pixel, and takes from each colour byte of a pixel of alpha `a > 0` at most
/// `255 / a + 1`, never raising it.
pub proof fn lemma_premultiply_round_trip(s: Seq<u8>)
    ensures
        unpremultiplied(premultiplied(s)).len() == s.len(),
        forall|k: int|
            0 <= k < s.len() && (k % 4 == 3 || k >= s.len() / 4 * 4) ==> #[trigger] unpremultiplied(
                premultiplied(s),
            )[k] == s[k],
        forall|k: int|
            0 <= k < s.len() / 4 * 4 && k % 4 < 3 ==> {
                let a = s[k - k % 4 + 3];
                let u = #[trigger] unpremultiplied(premultiplied(s))[k];
                &&& a == 0 ==> u == 0
                &&& a > 0 ==> u <= s[k] && s[k] as int - u as int <= 255int / (a as int) + 1
            },
{
    let t = premultiplied(s);
    assert forall|k: int| 0 <= k < s.len() && (k % 4 == 3 || k >= s.len() / 4 * 4) implies #[trigger] unpremultiplied(
        t,
    )[k] == s[k] by {
        if k < s.len() / 4 * 4 {
            assert(k - k % 4 + 3 == k);
        }
    }
    assert forall|k: int| 0 <= k < s.len() / 4 * 4 && k % 4 < 3 implies {
        let a = s[k - k % 4 + 3];
        let u = #[trigger] unpremultiplied(t)[k];
        &&& a == 0 ==> u == 0
        &&& a > 0 ==> u <= s[k] && s[k] as int - u as int <= 255int / (a as int) + 1
    } by {
        let j = k - k % 4 + 3;
        assert(j % 4 == 3 && j < s.len() / 4 * 4);
        assert(t[j] == s[j]);
        let a = s[j] as int;
        let c = s[k] as int;
        lemma_scaled_fits(s[k], s[j]);
        assert(t[k] as int == c * a / 255);
        if a == 0 {
            assert(c * a == 0) by (nonlinear_arith)
                requires
                    a == 0,
            ;
        } else {
            lemma_round_trip_byte(c, a);
        }
    }
}

} // verus!
