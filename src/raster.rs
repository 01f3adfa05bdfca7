use vstd::prelude::*;

verus! {

/// An RGBA8 raster: `data` holds `width * height` pixels in row-major order,
/// four unmultiplied bytes (red, green, blue, alpha) each.
#[derive(Debug)]
pub struct Raster {
    pub width: u32,
    pub height: u32,
    pub data: Vec<u8>,
}

/// Byte count of a raster with the given dimensions.
pub open spec fn byte_len(width: int, height: int) -> int {
    4 * width * height
}

/// Index of channel `k` of pixel `(x, y)` in a row-major raster of the given width.
pub open spec fn byte_index(width: int, x: int, y: int, k: int) -> int {
    4 * (y * width + x) + k
}

fn wide_byte_count(width: u32, height: u32) -> (n: u128)
    ensures
        n == byte_len(width as int, height as int),
{
    let w = width as u128;
    let h = height as u128;
    assert(w * h <= 0xFFFF_FFFF * 0xFFFF_FFFF) by (nonlinear_arith)
        requires w <= 0xFFFF_FFFF, h <= 0xFFFF_FFFF;
    assert(4 * w * h == 4 * (w * h)) by (nonlinear_arith);
    4 * (w * h)
}

pub(crate) fn byte_count(width: u32, height: u32) -> (n: usize)
    requires
        byte_len(width as int, height as int) <= usize::MAX,
    ensures
        n == byte_len(width as int, height as int),
{
    wide_byte_count(width, height) as usize
}

impl Raster {
    pub open spec fn wf(&self) -> bool {
        self.data@.len() == byte_len(self.width as int, self.height as int)
    }

    /// Channel `k` of pixel `(x, y)`.
    pub open spec fn at(&self, x: int, y: int, k: int) -> u8 {
        self.data@[byte_index(self.width as int, x, y, k)]
    }

    /// The same dimensions and bytes as `other`.
    pub open spec fn same_as(&self, other: &Raster) -> bool {
        self.width == other.width && self.height == other.height && self.data@ == other.data@
    }

    /// A copy of this raster.
    pub fn duplicate(&self) -> (r: Raster)
        ensures
            r.same_as(self),
    {
        let mut data: Vec<u8> = Vec::new();
        let mut i: usize = 0;
        while i < self.data.len()
            invariant
                i <= self.data@.len(),
                data@ == self.data@.subrange(0, i as int),
            decreases self.data@.len() - i,
        {
            data.push(self.data[i]);
            assert(data@ =~= self.data@.subrange(0, i + 1));
            i += 1;
        }
        assert(data@ =~= self.data@);
        Raster { width: self.width, height: self.height, data }
    }

    /// A raster of the given size whose pixels are all transparent black.
    pub fn transparent(width: u32, height: u32) -> (r: Raster)
        requires
            byte_len(width as int, height as int) <= usize::MAX,
        ensures
            r.wf(),
            r.width == width,
            r.height == height,
            forall|i: int| 0 <= i < r.data@.len() ==> r.data@[i] == 0,
    {
        let n: usize = byte_count(width, height);
        let mut data: Vec<u8> = Vec::new();
        let mut i: usize = 0;
        while i < n
            invariant
                i <= n,
                data@.len() == i,
                forall|j: int| 0 <= j < i ==> data@[j] == 0,
            decreases n - i,
        {
            data.push(0);
            i += 1;
        }
        Raster { width, height, data }
    }

    /// Takes rows of unmultiplied RGBA bytes; `None` where their count does not
    /// match the dimensions.
    pub fn from_rgba(width: u32, height: u32, data: Vec<u8>) -> (r: Option<Raster>)
        ensures
            r.is_some() <==> data@.len() == byte_len(width as int, height as int),
            r.is_some() ==> r.unwrap().wf() && r.unwrap().width == width
                && r.unwrap().height == height && r.unwrap().data@ == data@,
    {
        let n: u128 = wide_byte_count(width, height);
        if n == data.len() as u128 {
            Some(Raster { width, height, data })
        } else {
            None
        }
    }
}

/// Side of the square frame of a `w` by `h` raster.
pub open spec fn square_side(w: int, h: int) -> int {
    if w >= h { w } else { h }
}

/// Byte `i` of the square frame of `src`: the source pixels sit at offset
/// `((side - w) / 2, (side - h) / 2)`, everything else is transparent black.
pub open spec fn framed_byte(src: Seq<u8>, w: int, h: int, side: int, i: int) -> u8 {
    let p = i / 4;
    let k = i % 4;
    let x = p % side - (side - w) / 2;
    let y = p / side - (side - h) / 2;
    if 0 <= x < w && 0 <= y < h {
        src[byte_index(w, x, y, k)]
    } else {
        0
    }
}

pub open spec fn framed(src: Seq<u8>, w: int, h: int) -> Seq<u8> {
    let side = square_side(w, h);
    Seq::new((4 * side * side) as nat, |i: int| framed_byte(src, w, h, side, i))
}

pub(crate) proof fn lemma_pixel_in_bounds(width: int, height: int, x: int, y: int, k: int)
    requires
        0 <= x < width,
        0 <= y < height,
        0 <= k < 4,
    ensures
        0 <= y * width,
        0 <= byte_index(width, x, y, k) < byte_len(width, height),
{
    assert(0 <= y * width && y * width + x < width * height) by (nonlinear_arith)
        requires 0 <= x < width, 0 <= y < height;
    assert(4 * width * height == 4 * (width * height)) by (nonlinear_arith);
}

proof fn lemma_index_decompose(width: int, x: int, y: int, k: int)
    requires
        0 <= x < width,
        0 <= y,
        0 <= k < 4,
    ensures
        byte_index(width, x, y, k) / 4 == y * width + x,
        byte_index(width, x, y, k) % 4 == k,
        (y * width + x) / width == y,
        (y * width + x) % width == x,
{
    let p = y * width + x;
    assert(p >= 0) by (nonlinear_arith)
        requires p == y * width + x, 0 <= x < width, 0 <= y;
    vstd::arithmetic::div_mod::lemma_fundamental_div_mod_converse(4 * p + k, 4, p, k);
    vstd::arithmetic::div_mod::lemma_fundamental_div_mod_converse(p, width, y, x);
}

/// Frames `img` in a transparent square of side `max(width, height)`, the
/// source centred with floor-divided offsets and copied unchanged.
pub fn pad_to_square(img: &Raster) -> (r: Raster)
    requires
        img.wf(),
        byte_len(
            square_side(img.width as int, img.height as int),
            square_side(img.width as int, img.height as int),
        ) <= usize::MAX,
    ensures
        r.wf(),
        r.width == square_side(img.width as int, img.height as int),
        r.height == r.width,
        r.data@ == framed(img.data@, img.width as int, img.height as int),
        forall|x: int, y: int, k: int|
            0 <= x < img.width && 0 <= y < img.height && 0 <= k < 4 ==> r.at(
                x + (r.width - img.width) / 2,
                y + (r.height - img.height) / 2,
                k,
            ) == img.at(x, y, k),
{
    let w = img.width;
    let h = img.height;
    let side: u32 = if w >= h { w } else { h };
    let off_x: usize = ((side - w) / 2) as usize;
    let off_y: usize = ((side - h) / 2) as usize;
    let n: usize = byte_count(side, side);
    let ghost target = framed(img.data@, w as int, h as int);
    let mut data: Vec<u8> = Vec::new();
    let mut i: usize = 0;
    while i < n
        invariant
            i <= n,
            n == 4 * side * side,
            side == square_side(w as int, h as int),
            img.wf(),
            w == img.width,
            h == img.height,
            off_x == (side - w) / 2,
            off_y == (side - h) / 2,
            target == framed(img.data@, w as int, h as int),
            data@ == target.subrange(0, i as int),
        decreases n - i,
    {
        assert(side > 0) by {
            if side == 0 {
                assert(4 * side * side == 0);
            }
        }
        let p: usize = i / 4;
        let k: usize = i % 4;
        let px: usize = p % (side as usize);
        let py: usize = p / (side as usize);
        let mut b: u8 = 0;
        if px >= off_x && px - off_x < w as usize && py >= off_y && py - off_y < h as usize {
            let x: usize = px - off_x;
            let y: usize = py - off_y;
            let len: usize = img.data.len();
            proof {
                lemma_pixel_in_bounds(w as int, h as int, x as int, y as int, k as int);
            }
            b = img.data[4 * (y * (w as usize) + x) + k];
        }
        proof {
            assert(b == framed_byte(img.data@, w as int, h as int, side as int, i as int));
        }
        data.push(b);
        proof {
            assert(data@ =~= target.subrange(0, i + 1));
        }
        i += 1;
    }
    assert(data@ =~= target);
    let r = Raster { width: side, height: side, data };
    assert forall|x: int, y: int, k: int|
        0 <= x < w && 0 <= y < h && 0 <= k < 4 implies r.at(
            x + (side - w) / 2,
            y + (side - h) / 2,
            k,
        ) == img.at(x, y, k) by {
        let fx = x + (side - w) / 2;
        let fy = y + (side - h) / 2;
        lemma_index_decompose(side as int, fx, fy, k);
        lemma_pixel_in_bounds(side as int, side as int, fx, fy, k);
    }
    r
}

} // verus!
