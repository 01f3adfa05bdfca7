use vstd::prelude::*;
use crate::raster::Raster;

verus! {

/// Opacity is held in thousandths: `OPAQUE` is a factor of 1.
pub const OPAQUE: u16 = 1000;

pub open spec fn clamp_channel(v: int) -> u8 {
    if v < 0 {
        0
    } else if v > 255 {
        255
    } else {
        v as u8
    }
}

/// A colour channel shifted by `amount`, saturated to `0..=255`.
pub open spec fn brightened_channel(c: u8, amount: int) -> u8 {
    clamp_channel(c + amount)
}

/// The contrast curve: `127.5 + (c - 127.5) * ((100 + amount) / 100)^2`,
/// rounded half up and saturated. Over the common denominator 20000 this is
/// `((2c - 255) * (100 + amount)^2 + 2550000 + 10000) / 20000`, floored.
pub open spec fn contrasted_channel(c: u8, amount: int) -> u8 {
    let q = (100 + amount) * (100 + amount);
    let n = (2 * c - 255) * q + 2560000;
    if n < 0 {
        0
    } else {
        clamp_channel(n / 20000)
    }
}

/// An alpha value scaled by `permille / 1000`, rounded half up, saturated.
pub open spec fn faded_alpha(a: u8, permille: int) -> u8 {
    clamp_channel((a * permille + 500) / 1000)
}

pub open spec fn is_alpha(i: int) -> bool {
    i % 4 == 3
}

pub open spec fn brightened(s: Seq<u8>, amount: int) -> Seq<u8> {
    Seq::new(s.len(), |i: int| if is_alpha(i) { s[i] } else { brightened_channel(s[i], amount) })
}

pub open spec fn contrasted(s: Seq<u8>, amount: int) -> Seq<u8> {
    Seq::new(s.len(), |i: int| if is_alpha(i) { s[i] } else { contrasted_channel(s[i], amount) })
}

pub open spec fn faded(s: Seq<u8>, permille: int) -> Seq<u8> {
    Seq::new(s.len(), |i: int| if is_alpha(i) { faded_alpha(s[i], permille) } else { s[i] })
}

/// The fixed adjustment pipeline: brightness, then contrast, then opacity.
pub open spec fn adjusted(s: Seq<u8>, brightness: int, contrast: int, permille: int) -> Seq<u8> {
    faded(contrasted(brightened(s, brightness), contrast), permille)
}

fn brighten_channel(c: u8, amount: i32) -> (r: u8)
    ensures
        r == brightened_channel(c, amount as int),
{
    let v: i64 = c as i64 + amount as i64;
    if v < 0 {
        0
    } else if v > 255 {
        255
    } else {
        v as u8
    }
}

fn contrast_channel(c: u8, amount: i32) -> (r: u8)
    ensures
        r == contrasted_channel(c, amount as int),
{
    let f: i128 = 100 + amount as i128;
    assert(0 <= f * f <= 0x1_0000_0000_0000_0000) by (nonlinear_arith)
        requires -0x1_0000_0000 <= f <= 0x1_0000_0000;
    let q: i128 = f * f;
    let d: i128 = 2 * (c as i128) - 255;
    assert(-255 <= d <= 255);
    assert(-255 * 0x1_0000_0000_0000_0000 <= d * q <= 255 * 0x1_0000_0000_0000_0000)
        by (nonlinear_arith)
        requires -255 <= d <= 255, 0 <= q <= 0x1_0000_0000_0000_0000;
    let n: i128 = d * q + 2560000;
    if n < 0 {
        0
    } else {
        let v: i128 = n / 20000;
        if v > 255 {
            255
        } else {
            v as u8
        }
    }
}

fn fade_alpha(a: u8, permille: u16) -> (r: u8)
    ensures
        r == faded_alpha(a, permille as int),
{
    assert(a as u32 * permille as u32 <= 255 * 65535) by (nonlinear_arith)
        requires a <= 255, permille <= 65535;
    let v: u32 = (a as u32 * permille as u32 + 500) / 1000;
    if v > 255 {
        255
    } else {
        v as u8
    }
}

/// Adds `amount` to every colour channel, saturating to `0..=255`; alpha is kept.
pub fn apply_brightness(img: &Raster, amount: i32) -> (r: Raster)
    requires
        img.wf(),
    ensures
        r.wf(),
        r.width == img.width,
        r.height == img.height,
        r.data@ == brightened(img.data@, amount as int),
{
    let mut data: Vec<u8> = Vec::new();
    let mut i: usize = 0;
    while i < img.data.len()
        invariant
            i <= img.data@.len(),
            data@ == brightened(img.data@, amount as int).subrange(0, i as int),
        decreases img.data@.len() - i,
    {
        let c = img.data[i];
        let b = if i % 4 == 3 { c } else { brighten_channel(c, amount) };
        data.push(b);
        assert(data@ =~= brightened(img.data@, amount as int).subrange(0, i + 1));
        i += 1;
    }
    assert(data@ =~= brightened(img.data@, amount as int));
    Raster { width: img.width, height: img.height, data }
}

/// Applies the contrast curve of `amount` percent to every colour channel,
/// saturating to `0..=255`; alpha is kept.
pub fn apply_contrast(img: &Raster, amount: i32) -> (r: Raster)
    requires
        img.wf(),
    ensures
        r.wf(),
        r.width == img.width,
        r.height == img.height,
        r.data@ == contrasted(img.data@, amount as int),
{
    let mut data: Vec<u8> = Vec::new();
    let mut i: usize = 0;
    while i < img.data.len()
        invariant
            i <= img.data@.len(),
            data@ == contrasted(img.data@, amount as int).subrange(0, i as int),
        decreases img.data@.len() - i,
    {
        let c = img.data[i];
        let b = if i % 4 == 3 { c } else { contrast_channel(c, amount) };
        data.push(b);
        assert(data@ =~= contrasted(img.data@, amount as int).subrange(0, i + 1));
        i += 1;
    }
    assert(data@ =~= contrasted(img.data@, amount as int));
    Raster { width: img.width, height: img.height, data }
}

/// Scales every alpha by `permille / 1000`, rounding half up and saturating;
/// colour channels are kept.
pub fn apply_opacity(img: &Raster, permille: u16) -> (r: Raster)
    requires
        img.wf(),
    ensures
        r.wf(),
        r.width == img.width,
        r.height == img.height,
        r.data@ == faded(img.data@, permille as int),
{
    let mut data: Vec<u8> = Vec::new();
    let mut i: usize = 0;
    while i < img.data.len()
        invariant
            i <= img.data@.len(),
            data@ == faded(img.data@, permille as int).subrange(0, i as int),
        decreases img.data@.len() - i,
    {
        let c = img.data[i];
        let b = if i % 4 == 3 { fade_alpha(c, permille) } else { c };
        data.push(b);
        assert(data@ =~= faded(img.data@, permille as int).subrange(0, i + 1));
        i += 1;
    }
    assert(data@ =~= faded(img.data@, permille as int));
    Raster { width: img.width, height: img.height, data }
}

/// Runs the whole pipeline on `img`: brightness, then contrast, then opacity.
pub fn adjust_pixels(img: &Raster, brightness: i32, contrast: i32, permille: u16) -> (r: Raster)
    requires
        img.wf(),
    ensures
        r.wf(),
        r.width == img.width,
        r.height == img.height,
        r.data@ == adjusted(img.data@, brightness as int, contrast as int, permille as int),
{
    let b = apply_brightness(img, brightness);
    let c = apply_contrast(&b, contrast);
    apply_opacity(&c, permille)
}

/// With the default settings (no brightness shift, no contrast change, fully
/// opaque) the pipeline hands every byte back unchanged.
pub proof fn lemma_default_adjustment_is_identity(s: Seq<u8>)
    ensures
        adjusted(s, 0, 0, OPAQUE as int) == s,
{
    assert forall|i: int| 0 <= i < s.len() implies #[trigger] adjusted(s, 0, 0, 1000)[i] == s[i] by {
        let c = s[i];
        assert(brightened(s, 0)[i] == c);
        assert((2 * c - 255) * 10000 + 2560000 == 20000 * c + 10000);
        assert(contrasted(brightened(s, 0), 0)[i] == c);
        assert((c * 1000 + 500) / 1000 == c);
    }
    assert(adjusted(s, 0, 0, 1000) =~= s);
}

} // verus!
