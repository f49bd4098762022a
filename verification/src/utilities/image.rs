use vstd::prelude::*;

verus! {

/// The first `n` rows of `pixels` (an image `height` rows of `row_len` bytes,
/// stored top row first) taken bottom row first: row `r` of the result is
/// row `height - 1 - r` of `pixels`.
pub open spec fn rows_bottom_up(pixels: Seq<u8>, row_len: nat, height: nat, n: nat) -> Seq<u8>
    decreases n,
{
    if n == 0 {
        Seq::empty()
    } else {
        let src = (height - n) as nat;
        rows_bottom_up(pixels, row_len, height, (n - 1) as nat) + pixels.subrange(
            (row_len * src) as int,
            (row_len * src + row_len) as int,
        )
    }
}

/// The texel that sampling column `i`, row `j` reads from an image of the
/// given size and data: `None` for an image that did not load, otherwise
/// the RGB bytes at the column and row clamped to the image.
pub open spec fn spec_texel(
    width: nat,
    height: nat,
    data: Option<Seq<u8>>,
    i: nat,
    j: nat,
) -> Option<(u8, u8, u8)> {
    match data {
        None => None,
        Some(d) => {
            let ci = if i < width {
                i
            } else {
                (width - 1) as nat
            };
            let cj = if j < height {
                j
            } else {
                (height - 1) as nat
            };
            let idx = (3 * (ci + width * cj)) as int;
            Some((d[idx], d[idx + 1], d[idx + 2]))
        },
    }
}

/// A decoded RGB image, stored bottom row first, three bytes per pixel.
///
/// An image that failed to load holds no data and samples as `None`.
pub struct Image {
    width: u32,
    height: u32,
    bdata: Option<Vec<u8>>,
}

impl View for Image {
    type V = (nat, nat, Option<Seq<u8>>);

    closed spec fn view(&self) -> (nat, nat, Option<Seq<u8>>) {
        (
            self.width as nat,
            self.height as nat,
            match self.bdata {
                Some(d) => Some(d@),
                None => None,
            },
        )
    }
}

proof fn lemma_row_bounds(row_len: nat, r: nat, height: nat)
    requires
        r < height,
    ensures
        row_len * r + row_len <= row_len * height,
{
    assert(row_len * r + row_len <= row_len * height) by (nonlinear_arith)
        requires
            r < height,
    ;
}

/// Row `r` of `rows_bottom_up` is row `height - 1 - r` of the source.
proof fn lemma_rows_bottom_up_index(pixels: Seq<u8>, row_len: nat, height: nat, n: nat, r: nat, b: nat)
    requires
        n <= height,
        pixels.len() == row_len * height,
        r < n,
        b < row_len,
    ensures
        rows_bottom_up(pixels, row_len, height, n).len() == row_len * n,
        row_len * r + b < row_len * n,
        row_len * (height - 1 - r) + b < row_len * height,
        rows_bottom_up(pixels, row_len, height, n)[(row_len * r + b) as int] == pixels[row_len * (
            height - 1 - r) + b],
    decreases n,
{
    lemma_rows_bottom_up_len(pixels, row_len, height, n);
    lemma_row_bounds(row_len, r, n);
    lemma_row_bounds(row_len, (height - 1 - r) as nat, height);
    let src = (height - n) as nat;
    lemma_row_bounds(row_len, src, height);
    if r < n - 1 {
        lemma_rows_bottom_up_index(pixels, row_len, height, (n - 1) as nat, r, b);
    } else {
        lemma_rows_bottom_up_len(pixels, row_len, height, (n - 1) as nat);
        assert(row_len * r == row_len * (n - 1));
    }
}

proof fn lemma_rows_bottom_up_len(pixels: Seq<u8>, row_len: nat, height: nat, n: nat)
    requires
        n <= height,
        pixels.len() == row_len * height,
    ensures
        rows_bottom_up(pixels, row_len, height, n).len() == row_len * n,
    decreases n,
{
    if n > 0 {
        let src = (height - n) as nat;
        lemma_rows_bottom_up_len(pixels, row_len, height, (n - 1) as nat);
        lemma_row_bounds(row_len, src, height);
        assert(0 <= row_len * src) by (nonlinear_arith);
        assert(pixels.subrange((row_len * src) as int, (row_len * src + row_len) as int).len()
            == row_len);
        assert(row_len * (n - 1) + row_len == row_len * n) by (nonlinear_arith);
    } else {
        assert(row_len * n == 0) by (nonlinear_arith)
            requires
                n == 0,
        ;
    }
}

impl Image {
    /// The data of a loaded image holds three bytes for each pixel.
    pub open spec fn wf(&self) -> bool {
        self@.2 matches Some(d) ==> d.len() == 3 * self@.0 * self@.1
    }

    /// An image that did not load: it has no size and samples as `None`.
    pub fn empty() -> (img: Image)
        ensures
            img@ == (0nat, 0nat, None::<Seq<u8>>),
            img.wf(),
    {
        Image { width: 0, height: 0, bdata: None }
    }

    /// An image of the given size from its RGB bytes, stored top row first
    /// (as decoders hand them out). The image keeps them bottom row first,
    /// so that texture coordinate `v = 0` is the bottom of the picture.
    pub fn from_rgb(width: u32, height: u32, pixels: &Vec<u8>) -> (img: Image)
        requires
            pixels@.len() == 3 * width * height,
        ensures
            img.wf(),
            img@ == (
                width as nat,
                height as nat,
                Some(
                    rows_bottom_up(pixels@, 3 * width as nat, height as nat, height as nat),
                ),
            ),
    {
        let ghost rl = 3 * width as nat;
        let ghost h = height as nat;
        let plen: usize = pixels.len();
        let mut bdata: Vec<u8> = Vec::new();
        let mut r: u32 = 0;
        while r < height
            invariant
                r <= height,
                plen == pixels@.len(),
                rl == 3 * width as nat,
                h == height as nat,
                pixels@.len() == rl * h,
                bdata@ == rows_bottom_up(pixels@, rl, h, r as nat),
            decreases height - r,
        {
            let src_row: u32 = height - 1 - r;
            proof {
                lemma_rows_bottom_up_len(pixels@, rl, h, r as nat);
                lemma_row_bounds(rl, src_row as nat, h);
                assert(0 <= rl * src_row) by (nonlinear_arith);
                assert(rl * h == 3 * width * height) by (nonlinear_arith)
                    requires
                        rl == 3 * width,
                        h == height,
                ;
            }
            let row_len: usize = 3 * (width as usize);
            let start: usize = row_len * (src_row as usize);
            let ghost before = bdata@;
            let mut b: usize = 0;
            while b < row_len
                invariant
                    b <= row_len,
                    plen == pixels@.len(),
                    row_len == rl,
                    start == rl * src_row,
                    start + row_len <= pixels@.len(),
                    bdata@ == before + pixels@.subrange(start as int, (start + b) as int),
                decreases row_len - b,
            {
                bdata.push(pixels[start + b]);
                b = b + 1;
                assert(bdata@ =~= before + pixels@.subrange(start as int, (start + b) as int));
            }
            r = r + 1;
            proof {
                assert(src_row == (h - r) as nat);
            }
        }
        proof {
            lemma_rows_bottom_up_len(pixels@, rl, h, h);
            assert(rl * h == 3 * width * height) by (nonlinear_arith)
                requires
                    rl == 3 * width,
                    h == height,
            ;
        }
        Image { width, height, bdata: Some(bdata) }
    }

    /// The image width in pixels.
    pub fn width(&self) -> (w: u32)
        ensures
            w == self@.0,
    {
        self.width
    }

    /// The image height in pixels.
    pub fn height(&self) -> (h: u32)
        ensures
            h == self@.1,
    {
        self.height
    }

    /// Reads the texel at column `i` and row `j` (counted from the bottom),
    /// clamped to the image; `None` if the image did not load.
    pub fn pixel_data(&self, i: usize, j: usize) -> (texel: Option<(u8, u8, u8)>)
        requires
            self.wf(),
            self@.2 is Some ==> self@.0 > 0 && self@.1 > 0,
        ensures
            texel == spec_texel(self@.0, self@.1, self@.2, i as nat, j as nat),
    {
        match &self.bdata {
            None => None,
            Some(bdata) => {
                let len: usize = bdata.len();
                let w: usize = self.width as usize;
                let h: usize = self.height as usize;
                let ci: usize = if i < w {
                    i
                } else {
                    w - 1
                };
                let cj: usize = if j < h {
                    j
                } else {
                    h - 1
                };
                proof {
                    assert(0 <= w * cj && 3 * (ci + w * cj) + 2 < 3 * w * h) by (nonlinear_arith)
                        requires
                            ci < w,
                            cj < h,
                    ;
                    assert(len == 3 * w * h);
                }
                let idx: usize = 3 * (ci + w * cj);
                Some((bdata[idx], bdata[idx + 1], bdata[idx + 2]))
            },
        }
    }
}

/// Sampling a loaded image at column `x` and row `height - 1 - y` reads
/// pixel `(x, y)` of the picture as decoded, top row first: loading flips
/// the rows and sampling counts rows from the bottom, so the picture keeps
/// its orientation.
pub proof fn lemma_sample_reads_decoded_pixel(width: nat, height: nat, pixels: Seq<u8>, x: nat, y: nat)
    requires
        pixels.len() == 3 * width * height,
        x < width,
        y < height,
    ensures
        3 * (y * width + x) + 2 < pixels.len(),
        spec_texel(
            width,
            height,
            Some(rows_bottom_up(pixels, 3 * width, height, height)),
            x,
            (height - 1 - y) as nat,
        ) == Some(
            (
                pixels[(3 * (y * width + x)) as int],
                pixels[(3 * (y * width + x) + 1) as int],
                pixels[(3 * (y * width + x) + 2) as int],
            ),
        ),
{
    let rl = 3 * width;
    let r = (height - 1 - y) as nat;
    assert(pixels.len() == rl * height) by (nonlinear_arith)
        requires
            pixels.len() == 3 * width * height,
            rl == 3 * width,
    ;
    assert(3 * (x + width * r) == rl * r + 3 * x) by (nonlinear_arith)
        requires
            rl == 3 * width,
    ;
    assert(3 * (y * width + x) == rl * y + 3 * x) by (nonlinear_arith)
        requires
            rl == 3 * width,
    ;
    assert(3 * x + 2 < rl);
    lemma_rows_bottom_up_index(pixels, rl, height, height, r, 3 * x);
    lemma_rows_bottom_up_index(pixels, rl, height, height, r, 3 * x + 1);
    lemma_rows_bottom_up_index(pixels, rl, height, height, r, 3 * x + 2);
}

} // verus!
