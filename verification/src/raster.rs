//! The binarize stage of the conversion pipeline: a decoded raster image is
//! turned into a flat black-and-white silhouette — black wherever the source
//! pixel has any opacity, white where it is fully transparent — and encoded
//! as a binary P6 pixmap stream for the vector tracer.

use vstd::prelude::*;

verus! {

/// A decoded raster image: dimensions and an RGBA buffer of four bytes per
/// pixel, row-major.
pub struct RasterImage {
    pub width: u32,
    pub height: u32,
    pub rgba: Vec<u8>,
}

impl RasterImage {
    /// The buffer holds exactly four bytes for each of the width * height
    /// pixels.
    pub open spec fn wf(&self) -> bool {
        self.rgba@.len() == 4 * (self.width as nat) * (self.height as nat)
    }
}

/// A stage of the conversion pipeline that can fail.
#[derive(PartialEq, Eq, Structural, Clone, Copy, Debug)]
pub enum ConversionError {
    /// The input bytes are not a valid raster image.
    DecodeError,
    /// The vector tracer exited with failure.
    TraceError,
    /// The drawable transcoder exited with failure.
    RecodeError,
}

/// What decoding an in-memory image gives: dimensions and the RGBA pixel
/// buffer, or nothing when the bytes are not a valid raster image. The
/// result depends on the input bytes alone.
pub uninterp spec fn decoded_image(bytes: Seq<u8>) -> Option<(u32, u32, Seq<u8>)>;

/// Relies on `image::load_from_memory` and `DynamicImage::to_rgba8`: decoding
/// is a function of the input bytes alone, and the RGBA buffer holds exactly
/// width * height pixels of four bytes each.
#[verifier::external_body]
fn decode_rgba(bytes: &Vec<u8>) -> (r: Option<RasterImage>)
    ensures
        match r {
            Option::Some(img) => img.wf() && decoded_image(bytes@) == Option::Some(
                (img.width, img.height, img.rgba@),
            ),
            Option::None => decoded_image(bytes@) is None,
        },
{
    match image::load_from_memory(bytes) {
        Ok(img) => {
            let buf = img.to_rgba8();
            let width = buf.width();
            let height = buf.height();
            Some(RasterImage { width, height, rgba: buf.into_raw() })
        },
        Err(_) => None,
    }
}

/// The black-and-white RGB bytes for `n` pixels: all three channel bytes of
/// pixel `p` are 0 (black) when the source alpha byte is positive, 255
/// (white) when it is zero.
pub open spec fn bw_pixels(rgba: Seq<u8>, n: int) -> Seq<u8> {
    Seq::new((3 * n) as nat, |k: int| if rgba[4 * (k / 3) + 3] > 0 {
        0u8
    } else {
        255u8
    })
}

/// The decimal digits of `n`, most significant first, as ASCII bytes.
pub open spec fn dec_bytes(n: nat) -> Seq<u8>
    decreases n,
{
    if n < 10 {
        seq![(48 + n) as u8]
    } else {
        dec_bytes(n / 10).push((48 + n % 10) as u8)
    }
}

/// A binary P6 pixmap stream: magic, dimensions, maximum sample value, then
/// the raw RGB bytes.
pub open spec fn pnm_p6(width: u32, height: u32, rgb: Seq<u8>) -> Seq<u8> {
    seq![80u8, 54u8, 10u8] + dec_bytes(width as nat) + seq![32u8] + dec_bytes(height as nat)
        + seq![10u8, 50u8, 53u8, 53u8, 10u8] + rgb
}

/// What the binarize stage produces for the given input bytes.
pub open spec fn binarize_spec(bytes: Seq<u8>) -> Option<Seq<u8>> {
    match decoded_image(bytes) {
        Option::Some((w, h, rgba)) => Option::Some(
            pnm_p6(w, h, bw_pixels(rgba, (w as int) * (h as int))),
        ),
        Option::None => Option::None,
    }
}

/// Turns a decoded image into its black-and-white RGB bytes.
pub fn binarize_pixels(img: &RasterImage) -> (out: Vec<u8>)
    requires
        img.wf(),
    ensures
        out@ == bw_pixels(img.rgba@, (img.width as int) * (img.height as int)),
{
    let ghost n = (img.width as int) * (img.height as int);
    let pixels = img.rgba.len() / 4;
    proof {
        assert(img.rgba@.len() == 4 * n) by (nonlinear_arith)
            requires
                img.rgba@.len() == 4 * (img.width as nat) * (img.height as nat),
                n == (img.width as int) * (img.height as int),
        ;
        assert(pixels == n);
    }
    let mut out: Vec<u8> = Vec::new();
    let mut p: usize = 0;
    while p < pixels
        invariant
            0 <= p <= pixels,
            pixels == n,
            img.wf(),
            img.rgba@.len() == 4 * n,
            img.rgba@.len() <= usize::MAX,
            out@.len() == 3 * p,
            forall|k: int|
                0 <= k < 3 * p ==> out@[k] == (if img.rgba@[4 * (k / 3) + 3] > 0 {
                    0u8
                } else {
                    255u8
                }),
        decreases pixels - p,
    {
        proof {
            assert(4 * p + 3 < img.rgba@.len());
        }
        let a = img.rgba[4 * p + 3];
        let v: u8 = if a > 0 {
            0
        } else {
            255
        };
        out.push(v);
        out.push(v);
        out.push(v);
        proof {
            assert forall|k: int|
                0 <= k < 3 * (p + 1) implies out@[k] == (if img.rgba@[4 * (k / 3) + 3] > 0 {
                0u8
            } else {
                255u8
            }) by {
                if k >= 3 * p {
                    assert(k / 3 == p as int);
                }
            }
        }
        p = p + 1;
    }
    proof {
        assert(out@ =~= bw_pixels(img.rgba@, n));
    }
    out
}

fn u32_dec(n: u32) -> (r: Vec<u8>)
    ensures
        r@ == dec_bytes(n as nat),
    decreases n,
{
    if n < 10 {
        let mut v: Vec<u8> = Vec::new();
        v.push((48 + n) as u8);
        proof {
            assert(v@ =~= dec_bytes(n as nat));
        }
        v
    } else {
        let mut v = u32_dec(n / 10);
        v.push((48 + n % 10) as u8);
        proof {
            assert(v@ =~= dec_bytes(n as nat));
        }
        v
    }
}

/// Encodes dimensions and RGB bytes as a binary P6 pixmap stream.
pub fn encode_pnm(width: u32, height: u32, rgb: Vec<u8>) -> (out: Vec<u8>)
    ensures
        out@ == pnm_p6(width, height, rgb@),
{
    let ghost rgbv = rgb@;
    let mut out: Vec<u8> = Vec::new();
    out.push(80);
    out.push(54);
    out.push(10);
    let mut wd = u32_dec(width);
    out.append(&mut wd);
    out.push(32);
    let mut hd = u32_dec(height);
    out.append(&mut hd);
    out.push(10);
    out.push(50);
    out.push(53);
    out.push(53);
    out.push(10);
    let mut body = rgb;
    out.append(&mut body);
    proof {
        assert(out@ =~= pnm_p6(width, height, rgbv));
    }
    out
}

/// The binarize stage: decode the input bytes, map every pixel with positive
/// alpha to black and every fully transparent pixel to white, and encode the
/// result as a binary P6 pixmap. Fails exactly when the bytes do not decode.
pub fn binarize(bytes: &Vec<u8>) -> (r: Result<Vec<u8>, ConversionError>)
    ensures
        match r {
            Result::Ok(out) => binarize_spec(bytes@) == Option::Some(out@),
            Result::Err(e) => binarize_spec(bytes@) is None && e == ConversionError::DecodeError,
        },
{
    match decode_rgba(bytes) {
        Option::Some(img) => {
            let bw = binarize_pixels(&img);
            let out = encode_pnm(img.width, img.height, bw);
            Result::Ok(out)
        },
        Option::None => Result::Err(ConversionError::DecodeError),
    }
}

/// Binarization is deterministic: the same input bytes give the same output
/// stream.
pub proof fn lemma_binarize_deterministic(b1: Seq<u8>, b2: Seq<u8>)
    requires
        b1 == b2,
    ensures
        binarize_spec(b1) == binarize_spec(b2),
{
}

/// Every pixel byte in the binarized stream is exactly black or exactly
/// white: beyond the header, only the bytes 0 and 255 occur.
pub proof fn lemma_binarize_black_or_white(bytes: Seq<u8>)
    ensures
        decoded_image(bytes) matches Option::Some(d) ==> {
            let out = binarize_spec(bytes).unwrap();
            let pix = 3 * ((d.0 as int) * (d.1 as int));
            forall|k: int| out.len() - pix <= k < out.len() ==> out[k] == 0 || out[k] == 255
        },
{
    if binarize_spec(bytes) is Some {
        let d = decoded_image(bytes).unwrap();
        let (w, h, rgba) = d;
        let bw = bw_pixels(rgba, (w as int) * (h as int));
        let out = binarize_spec(bytes).unwrap();
        let header = seq![80u8, 54u8, 10u8] + dec_bytes(w as nat) + seq![32u8] + dec_bytes(
            h as nat,
        ) + seq![10u8, 50u8, 53u8, 53u8, 10u8];
        assert(out =~= header + bw);
        assert forall|k: int| header.len() <= k < out.len() implies out[k] == 0 || out[k]
            == 255 by {
            assert((header + bw)[k] == bw[k - header.len()]);
        }
    }
}

/// The pixel rule of the binarize stage: a pixel with any opacity comes out
/// black, a fully transparent pixel comes out white; alpha 1, the least
/// opacity, already counts as opaque.
pub proof fn lemma_binarize_pixel_rule(rgba: Seq<u8>, n: int, p: int)
    requires
        0 <= p < n,
    ensures
        rgba[4 * p + 3] > 0 ==> bw_pixels(rgba, n)[3 * p] == 0 && bw_pixels(rgba, n)[3 * p + 1]
            == 0 && bw_pixels(rgba, n)[3 * p + 2] == 0,
        rgba[4 * p + 3] == 0 ==> bw_pixels(rgba, n)[3 * p] == 255 && bw_pixels(rgba, n)[3 * p + 1]
            == 255 && bw_pixels(rgba, n)[3 * p + 2] == 255,
{
    assert((3 * p) / 3 == p);
    assert((3 * p + 1) / 3 == p);
    assert((3 * p + 2) / 3 == p);
}

} // verus!
