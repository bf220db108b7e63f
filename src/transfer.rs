//! Decode-and-transfer: copying decoded bytes into buffers and texture images.

use vstd::arithmetic::div_mod::{lemma_fundamental_div_mod, lemma_fundamental_div_mod_converse};
use vstd::prelude::*;

verus! {

/// `dst` with the bytes from `at` on replaced by `src`.
pub open spec fn splice(dst: Seq<u8>, at: int, src: Seq<u8>) -> Seq<u8> {
    dst.subrange(0, at) + src + dst.subrange(at + src.len(), dst.len() as int)
}

/// Copies `len` bytes of `src` from `src_at` into `dst` at `dst_at`.
pub fn copy_range(dst: &mut Vec<u8>, dst_at: usize, src: &[u8], src_at: usize, len: usize)
    requires
        dst_at + len <= old(dst)@.len(),
        src_at + len <= src@.len(),
    ensures
        final(dst)@ == splice(old(dst)@, dst_at as int, src@.subrange(src_at as int, src_at + len)),
{
    let dlen: usize = dst.len();
    let slen: usize = src.len();
    let mut i: usize = 0;
    while i < len
        invariant
            dst@.len() == old(dst)@.len(),
            dlen == dst@.len(),
            slen == src@.len(),
            dst_at + len <= dst@.len(),
            src_at + len <= src@.len(),
            i <= len,
            dst@ == splice(old(dst)@, dst_at as int, src@.subrange(src_at as int, src_at + i)),
        decreases len - i,
    {
        let ghost prev = dst@;
        dst.set(dst_at + i, src[src_at + i]);
        i = i + 1;
        proof {
            let want = splice(old(dst)@, dst_at as int, src@.subrange(src_at as int, src_at + i));
            assert forall|p: int| 0 <= p < dst@.len() implies dst@[p] == want[p] by {
                if p < dst_at {
                } else if p < dst_at + i {
                    if p < dst_at + i - 1 {
                        assert(dst@[p] == prev[p]);
                    }
                } else {
                    assert(dst@[p] == prev[p]);
                }
            }
            assert(dst@ =~= want);
        }
    }
}

/// The bytes of a buffer after a load of `size` bytes of `content`, from
/// `source_offset`, at `offset`; `None` where either range is out of bounds.
pub open spec fn buffer_load_result(
    dst: Seq<u8>,
    offset: u64,
    size: u64,
    content: Seq<u8>,
    source_offset: u64,
) -> Option<Seq<u8>> {
    if offset + size <= dst.len() && source_offset + size <= content.len() {
        Some(splice(dst, offset as int, content.subrange(source_offset as int, source_offset + size)))
    } else {
        None
    }
}

/// Loads `size` bytes of `content` from `source_offset` into `dst` at
/// `offset`. Returns whether the ranges were in bounds; `dst` is untouched
/// where they were not.
pub fn load_into_buffer(
    dst: &mut Vec<u8>,
    offset: u64,
    size: u64,
    content: &[u8],
    source_offset: u64,
) -> (ok: bool)
    ensures
        ok == buffer_load_result(old(dst)@, offset, size, content@, source_offset) is Some,
        ok ==> Some(final(dst)@) == buffer_load_result(
            old(dst)@,
            offset,
            size,
            content@,
            source_offset,
        ),
        !ok ==> final(dst)@ == old(dst)@,
{
    let dlen = dst.len() as u64;
    let clen = content.len() as u64;
    if offset > dlen || size > dlen - offset || source_offset > clen || size > clen - source_offset {
        return false;
    }
    copy_range(dst, offset as usize, content, source_offset as usize, size as usize);
    true
}


/// An extent in pixels.
#[derive(Copy, Clone, Debug, PartialEq, Eq, Hash, Structural)]
pub struct MTLSize {
    pub width: u64,
    pub height: u64,
    pub depth: u64,
}

/// A position in pixels.
#[derive(Copy, Clone, Debug, PartialEq, Eq, Hash, Structural)]
pub struct MTLOrigin {
    pub x: u64,
    pub y: u64,
    pub z: u64,
}

/// The extent of one texture image and the bytes of each of its pixels.
///
/// The image is stored densely: pixel `(x, y, z)` starts at byte
/// `((z * height + y) * width + x) * bytes_per_pixel`.
#[derive(Copy, Clone, Debug, PartialEq, Eq, Hash, Structural)]
pub struct ImageShape {
    pub width: u64,
    pub height: u64,
    pub depth: u64,
    pub bytes_per_pixel: u64,
}

impl ImageShape {
    pub open spec fn byte_len(self) -> int {
        self.width * self.height * self.depth * self.bytes_per_pixel
    }

    /// No extent is zero and the image fits in memory.
    pub open spec fn wf(self) -> bool {
        &&& self.width >= 1
        &&& self.height >= 1
        &&& self.depth >= 1
        &&& self.bytes_per_pixel >= 1
        &&& self.byte_len() <= usize::MAX
    }
}

/// A region load: `size` pixels placed at `origin`, read from the source
/// from `source_offset` on, with `bytes_per_row` between rows and
/// `bytes_per_image` between depth planes.
#[derive(Copy, Clone, Debug, PartialEq, Eq, Hash, Structural)]
pub struct RegionCopy {
    pub size: MTLSize,
    pub origin: MTLOrigin,
    pub bytes_per_row: u64,
    pub bytes_per_image: u64,
    pub source_offset: u64,
}

pub open spec fn region_is_empty(c: RegionCopy) -> bool {
    c.size.width == 0 || c.size.height == 0 || c.size.depth == 0
}

/// The region lies inside the image and every row it reads lies inside a
/// source of `content_len` bytes.
pub open spec fn region_fits(shape: ImageShape, c: RegionCopy, content_len: int) -> bool {
    &&& c.origin.x + c.size.width <= shape.width
    &&& c.origin.y + c.size.height <= shape.height
    &&& c.origin.z + c.size.depth <= shape.depth
    &&& !region_is_empty(c) ==> c.source_offset + (c.size.depth - 1) * c.bytes_per_image + (
    c.size.height - 1) * c.bytes_per_row + c.size.width * shape.bytes_per_pixel <= content_len
}

/// Where row `r` of the region starts in the image; rows run through each
/// depth plane in turn.
pub open spec fn row_dst(shape: ImageShape, c: RegionCopy, r: int) -> int {
    ((c.origin.z + r / c.size.height as int) * shape.height + c.origin.y + r % c.size.height as int)
        * (shape.width * shape.bytes_per_pixel) + c.origin.x * shape.bytes_per_pixel
}

/// Where row `r` of the region starts in the source.
pub open spec fn row_src(c: RegionCopy, r: int) -> int {
    c.source_offset + (r / c.size.height as int) * c.bytes_per_image + (r % c.size.height as int)
        * c.bytes_per_row
}

pub open spec fn row_len(shape: ImageShape, c: RegionCopy) -> int {
    c.size.width * shape.bytes_per_pixel
}

/// The image after the first `rows` rows of the region are written.
pub open spec fn rows_applied(
    img: Seq<u8>,
    shape: ImageShape,
    c: RegionCopy,
    content: Seq<u8>,
    rows: nat,
) -> Seq<u8>
    decreases rows,
{
    if rows == 0 {
        img
    } else {
        let r = rows - 1;
        splice(
            rows_applied(img, shape, c, content, r as nat),
            row_dst(shape, c, r),
            content.subrange(row_src(c, r), row_src(c, r) + row_len(shape, c)),
        )
    }
}

/// The image after a region load; `None` where the region does not fit.
pub open spec fn texture_load_result(
    img: Seq<u8>,
    shape: ImageShape,
    c: RegionCopy,
    content: Seq<u8>,
) -> Option<Seq<u8>> {
    if !region_fits(shape, c, content.len() as int) {
        None
    } else if region_is_empty(c) {
        Some(img)
    } else {
        Some(rows_applied(img, shape, c, content, (c.size.height * c.size.depth) as nat))
    }
}

proof fn lemma_row_bounds(shape: ImageShape, c: RegionCopy, content_len: int, k: int, j: int)
    requires
        shape.wf(),
        region_fits(shape, c, content_len),
        !region_is_empty(c),
        0 <= k < c.size.depth,
        0 <= j < c.size.height,
    ensures
        c.origin.z + k < shape.depth,
        (c.origin.z + k) * shape.height + c.origin.y + j < shape.depth * shape.height,
        shape.depth * shape.height <= shape.byte_len(),
        shape.width * shape.bytes_per_pixel <= shape.byte_len(),
        ((c.origin.z + k) * shape.height + c.origin.y + j) * (shape.width * shape.bytes_per_pixel)
            + c.origin.x * shape.bytes_per_pixel + c.size.width * shape.bytes_per_pixel
            <= shape.byte_len(),
        k * c.bytes_per_image <= (c.size.depth - 1) * c.bytes_per_image,
        j * c.bytes_per_row <= (c.size.height - 1) * c.bytes_per_row,
        c.source_offset + k * c.bytes_per_image + j * c.bytes_per_row + c.size.width
            * shape.bytes_per_pixel <= content_len,
{
    let (w, h, d, b) = (
        shape.width as int,
        shape.height as int,
        shape.depth as int,
        shape.bytes_per_pixel as int,
    );
    let zk = c.origin.z + k;
    let a = zk * h + c.origin.y + j;
    assert(zk * h <= (d - 1) * h) by (nonlinear_arith)
        requires
            zk <= d - 1,
            h >= 1,
    ;
    assert((d - 1) * h == d * h - h) by (nonlinear_arith);
    assert(d * h <= d * h * w * b) by (nonlinear_arith)
        requires
            d >= 1,
            h >= 1,
            w >= 1,
            b >= 1,
    ;
    assert(w * b <= w * h * d * b) by (nonlinear_arith)
        requires
            d >= 1,
            h >= 1,
            w >= 1,
            b >= 1,
    ;
    assert(w * h * d * b == d * h * w * b) by (nonlinear_arith);
    assert((a + 1) * (w * b) <= (d * h) * (w * b)) by (nonlinear_arith)
        requires
            a + 1 <= d * h,
            w * b >= 0,
    ;
    assert((d * h) * (w * b) == d * h * w * b) by (nonlinear_arith);
    assert((a + 1) * (w * b) == a * (w * b) + w * b) by (nonlinear_arith);
    assert(c.origin.x * b + c.size.width * b == (c.origin.x + c.size.width) * b) by (
    nonlinear_arith);
    assert((c.origin.x + c.size.width) * b <= w * b) by (nonlinear_arith)
        requires
            c.origin.x + c.size.width <= w,
            b >= 0,
    ;
    let ip = c.bytes_per_image as int;
    let rp = c.bytes_per_row as int;
    let dd = c.size.depth as int;
    let hh = c.size.height as int;
    assert(k * ip <= (dd - 1) * ip) by (nonlinear_arith)
        requires
            k <= dd - 1,
            ip >= 0,
    ;
    assert(j * rp <= (hh - 1) * rp) by (nonlinear_arith)
        requires
            j <= hh - 1,
            rp >= 0,
    ;
}

/// The product of two `u64` values, which always fits in `u128`.
fn mul_wide(x: u64, y: u64) -> (r: u128)
    ensures
        r == x * y,
{
    proof {
        assert(x * y <= u64::MAX * u64::MAX) by (nonlinear_arith)
            requires
                0 <= x <= u64::MAX,
                0 <= y <= u64::MAX,
        ;
    }
    x as u128 * y as u128
}

/// Whether a region load fits, computed without overflow.
pub fn region_fits_exec(shape: ImageShape, c: RegionCopy, content_len: usize) -> (r: bool)
    ensures
        r == region_fits(shape, c, content_len as int),
{
    if c.origin.x as u128 + c.size.width as u128 > shape.width as u128 || c.origin.y as u128
        + c.size.height as u128 > shape.height as u128 || c.origin.z as u128 + c.size.depth as u128
        > shape.depth as u128 {
        return false;
    }
    if c.size.width == 0 || c.size.height == 0 || c.size.depth == 0 {
        return true;
    }
    let limit = content_len as u128;
    let planes = mul_wide(c.size.depth - 1, c.bytes_per_image);
    let rows = mul_wide(c.size.height - 1, c.bytes_per_row);
    let row = mul_wide(c.size.width, shape.bytes_per_pixel);
    if planes > limit || rows > limit || row > limit {
        return false;
    }
    c.source_offset as u128 + planes + rows + row <= limit
}

/// Writes a region of `content` into a texture image. Returns whether the
/// region fits; the image is untouched where it does not.
pub fn load_into_texture_image(
    img: &mut Vec<u8>,
    shape: ImageShape,
    c: RegionCopy,
    content: &[u8],
) -> (ok: bool)
    requires
        shape.wf(),
        old(img)@.len() == shape.byte_len(),
    ensures
        final(img)@.len() == old(img)@.len(),
        ok == texture_load_result(old(img)@, shape, c, content@) is Some,
        ok ==> Some(final(img)@) == texture_load_result(old(img)@, shape, c, content@),
        !ok ==> final(img)@ == old(img)@,
{
    let clen: usize = content.len();
    if !region_fits_exec(shape, c, clen) {
        return false;
    }
    if c.size.width == 0 || c.size.height == 0 || c.size.depth == 0 {
        return true;
    }
    let h = c.size.height;
    let d = c.size.depth;
    let ghost start = img@;
    proof {
        lemma_row_bounds(shape, c, clen as int, 0, 0);
    }
    let stride: u64 = shape.width * shape.bytes_per_pixel;
    let len: usize = (c.size.width * shape.bytes_per_pixel) as usize;
    let mut k: u64 = 0;
    while k < d
        invariant
            shape.wf(),
            region_fits(shape, c, clen as int),
            !region_is_empty(c),
            clen == content@.len(),
            h == c.size.height,
            d == c.size.depth,
            stride == shape.width * shape.bytes_per_pixel,
            len == row_len(shape, c),
            k <= d,
            img@.len() == shape.byte_len(),
            img@ == rows_applied(start, shape, c, content@, (k * h) as nat),
        decreases d - k,
    {
        let mut j: u64 = 0;
        while j < h
            invariant
                shape.wf(),
                region_fits(shape, c, clen as int),
                !region_is_empty(c),
                clen == content@.len(),
                h == c.size.height,
                d == c.size.depth,
                stride == shape.width * shape.bytes_per_pixel,
                len == row_len(shape, c),
                k < d,
                j <= h,
                img@.len() == shape.byte_len(),
                img@ == rows_applied(start, shape, c, content@, (k * h + j) as nat),
            decreases h - j,
        {
            proof {
                lemma_row_bounds(shape, c, clen as int, k as int, j as int);
                lemma_fundamental_div_mod_converse((k * h + j) as int, h as int, k as int, j as int);
                assert((k * h + j) as int <= ((d - 1) * h + h - 1) as int) by (nonlinear_arith)
                    requires
                        k <= d - 1,
                        j <= h - 1,
                ;
            }
            let a: u64 = (c.origin.z + k) * shape.height + c.origin.y + j;
            let dst: u64 = a * stride + c.origin.x * shape.bytes_per_pixel;
            let src: u64 = c.source_offset + k * c.bytes_per_image + j * c.bytes_per_row;
            copy_range(img, dst as usize, content, src as usize, len);
            proof {
                let r = (k * h + j) as int;
                assert(row_dst(shape, c, r) == dst);
                assert(row_src(c, r) == src);
                assert((r + 1) as nat - 1 == r);
            }
            j = j + 1;
        }
        proof {
            assert(k * h + h == (k + 1) * h) by (nonlinear_arith);
        }
        k = k + 1;
    }
    proof {
        assert(k * h == c.size.height * c.size.depth) by (nonlinear_arith)
            requires
                k == d,
                h == c.size.height,
                d == c.size.depth,
        ;
    }
    true
}


/// Whether byte `p` of the image lies in one of the first `rows` rows of the
/// region.
pub open spec fn covered(shape: ImageShape, c: RegionCopy, p: int, rows: nat) -> bool
    decreases rows,
{
    if rows == 0 {
        false
    } else {
        let r = rows - 1;
        (row_dst(shape, c, r) <= p < row_dst(shape, c, r) + row_len(shape, c)) || covered(
            shape,
            c,
            p,
            r as nat,
        )
    }
}

proof fn lemma_row_in_bounds(shape: ImageShape, c: RegionCopy, content_len: int, r: int)
    requires
        shape.wf(),
        region_fits(shape, c, content_len),
        !region_is_empty(c),
        0 <= r < c.size.height * c.size.depth,
    ensures
        0 <= row_dst(shape, c, r),
        row_dst(shape, c, r) + row_len(shape, c) <= shape.byte_len(),
        0 <= row_src(c, r),
        row_src(c, r) + row_len(shape, c) <= content_len,
{
    let h = c.size.height as int;
    let d = c.size.depth as int;
    let k = r / h;
    let j = r % h;
    assert(0 <= k < d) by (nonlinear_arith)
        requires
            h >= 1,
            0 <= r < h * d,
            k == r / h,
    ;
    assert(0 <= j < h) by (nonlinear_arith)
        requires
            h >= 1,
            j == r % h,
    ;
    lemma_row_bounds(shape, c, content_len, k, j);
    let a = (c.origin.z + k) * shape.height + c.origin.y + j;
    assert(a * (shape.width * shape.bytes_per_pixel) >= 0) by (nonlinear_arith)
        requires
            a >= 0,
    ;
    assert(k * c.bytes_per_image >= 0 && j * c.bytes_per_row >= 0) by (nonlinear_arith)
        requires
            k >= 0,
            j >= 0,
    ;
}

/// Writing the first `rows` rows into two images of one length leaves them
/// agreeing on every covered byte, and leaves each uncovered byte as it was.
proof fn lemma_rows_frame(
    x: Seq<u8>,
    y: Seq<u8>,
    shape: ImageShape,
    c: RegionCopy,
    content: Seq<u8>,
    rows: nat,
    p: int,
)
    requires
        shape.wf(),
        region_fits(shape, c, content.len() as int),
        !region_is_empty(c),
        rows <= c.size.height * c.size.depth,
        x.len() == shape.byte_len(),
        y.len() == shape.byte_len(),
        0 <= p < shape.byte_len(),
    ensures
        rows_applied(x, shape, c, content, rows).len() == shape.byte_len(),
        covered(shape, c, p, rows) ==> rows_applied(x, shape, c, content, rows)[p] == rows_applied(
            y,
            shape,
            c,
            content,
            rows,
        )[p],
        !covered(shape, c, p, rows) ==> rows_applied(x, shape, c, content, rows)[p] == x[p],
    decreases rows,
{
    if rows > 0 {
        let r = rows - 1;
        lemma_rows_frame(x, y, shape, c, content, r as nat, p);
        lemma_rows_frame(y, x, shape, c, content, r as nat, p);
        lemma_row_in_bounds(shape, c, content.len() as int, r);
    }
}

/// Loading a region twice leaves the image as loading it once.
pub proof fn lemma_texture_load_idempotent(
    img: Seq<u8>,
    shape: ImageShape,
    c: RegionCopy,
    content: Seq<u8>,
)
    requires
        shape.wf(),
        img.len() == shape.byte_len(),
    ensures
        texture_load_result(img, shape, c, content) matches Some(once) ==> texture_load_result(
            once,
            shape,
            c,
            content,
        ) == Some(once),
{
    if region_fits(shape, c, content.len() as int) && !region_is_empty(c) {
        let n = (c.size.height * c.size.depth) as nat;
        let once = rows_applied(img, shape, c, content, n);
        assert(shape.byte_len() >= 1) by (nonlinear_arith)
            requires
                shape.width >= 1,
                shape.height >= 1,
                shape.depth >= 1,
                shape.bytes_per_pixel >= 1,
        ;
        assert(n == c.size.height * c.size.depth);
        lemma_rows_frame(img, img, shape, c, content, n, 0);
        let twice = rows_applied(once, shape, c, content, n);
        assert forall|p: int| 0 <= p < shape.byte_len() implies twice[p] == once[p] by {
            lemma_rows_frame(once, img, shape, c, content, n, p);
            lemma_rows_frame(img, img, shape, c, content, n, p);
        }
        lemma_rows_frame(once, img, shape, c, content, n, 0);
        assert(twice =~= once);
    }
}

/// Loading a buffer range twice leaves the buffer as loading it once.
pub proof fn lemma_buffer_load_idempotent(
    dst: Seq<u8>,
    offset: u64,
    size: u64,
    content: Seq<u8>,
    source_offset: u64,
)
    ensures
        buffer_load_result(dst, offset, size, content, source_offset) matches Some(once)
            ==> buffer_load_result(once, offset, size, content, source_offset) == Some(once),
{
    if let Some(once) = buffer_load_result(dst, offset, size, content, source_offset) {
        let s = content.subrange(source_offset as int, source_offset + size);
        assert(once.len() == dst.len());
        assert(splice(once, offset as int, s) =~= once);
    }
}


/// A region load keeps the length of the image.
pub proof fn lemma_texture_load_keeps_length(
    img: Seq<u8>,
    shape: ImageShape,
    c: RegionCopy,
    content: Seq<u8>,
)
    requires
        shape.wf(),
        img.len() == shape.byte_len(),
    ensures
        texture_load_result(img, shape, c, content) matches Some(r) ==> r.len() == img.len(),
{
    if region_fits(shape, c, content.len() as int) && !region_is_empty(c) {
        assert(shape.byte_len() >= 1) by (nonlinear_arith)
            requires
                shape.width >= 1,
                shape.height >= 1,
                shape.depth >= 1,
                shape.bytes_per_pixel >= 1,
        ;
        lemma_rows_frame(img, img, shape, c, content, (c.size.height * c.size.depth) as nat, 0);
    }
}


/// The load of a whole image from a densely packed source: every pixel, rows
/// `width * bytes_per_pixel` bytes apart and planes a whole plane apart.
pub open spec fn full_region(shape: ImageShape) -> RegionCopy {
    RegionCopy {
        size: MTLSize { width: shape.width, height: shape.height, depth: shape.depth },
        origin: MTLOrigin { x: 0, y: 0, z: 0 },
        bytes_per_row: (shape.width * shape.bytes_per_pixel) as u64,
        bytes_per_image: (shape.height * shape.width * shape.bytes_per_pixel) as u64,
        source_offset: 0,
    }
}

proof fn lemma_full_rows(img: Seq<u8>, shape: ImageShape, content: Seq<u8>, m: nat)
    requires
        shape.wf(),
        img.len() == shape.byte_len(),
        content.len() == shape.byte_len(),
        m <= shape.height * shape.depth,
    ensures
        ({
            let l = shape.width * shape.bytes_per_pixel;
            rows_applied(img, shape, full_region(shape), content, m) == content.subrange(0, m * l)
                + img.subrange(m * l, img.len() as int)
        }),
    decreases m,
{
    let l = shape.width * shape.bytes_per_pixel;
    let h = shape.height as int;
    let n = shape.height * shape.depth;
    assert(shape.byte_len() == n * l) by (nonlinear_arith)
        requires
            n == shape.height * shape.depth,
            l == shape.width * shape.bytes_per_pixel,
            shape.byte_len() == shape.width * shape.height * shape.depth * shape.bytes_per_pixel,
    ;
    assert(l >= 1 && l <= shape.byte_len() && h * l <= shape.byte_len()) by (nonlinear_arith)
        requires
            shape.width >= 1,
            shape.height >= 1,
            shape.depth >= 1,
            shape.bytes_per_pixel >= 1,
            l == shape.width * shape.bytes_per_pixel,
            h == shape.height,
            shape.byte_len() == shape.width * shape.height * shape.depth * shape.bytes_per_pixel,
    ;
    let c = full_region(shape);
    assert(c.bytes_per_row == l);
    assert(c.bytes_per_image == h * l) by (nonlinear_arith)
        requires
            c.bytes_per_image == (shape.height * shape.width * shape.bytes_per_pixel) as u64,
            h * l <= u64::MAX,
            h == shape.height,
            l == shape.width * shape.bytes_per_pixel,
    ;
    if m == 0 {
        assert(content.subrange(0, 0) + img.subrange(0, img.len() as int) =~= img);
    } else {
        let r = m - 1;
        lemma_full_rows(img, shape, content, r as nat);
        lemma_fundamental_div_mod(r, h);
        let q = r / h;
        let k = r % h;
        assert(0 <= k < h) by {
            vstd::arithmetic::div_mod::lemma_mod_bound(r, h);
        }
        assert(row_dst(shape, c, r) == r * l && row_src(c, r) == r * l) by (nonlinear_arith)
            requires
                r == h * q + k,
                row_dst(shape, c, r) == (q * h + k) * l,
                row_src(c, r) == q * (h * l) + k * l,
        ;
        assert(m * l <= n * l && r * l + l == m * l && 0 <= r * l) by (nonlinear_arith)
            requires
                m <= n,
                r == m - 1,
                r >= 0,
                l >= 1,
        ;
        let prev = content.subrange(0, r * l) + img.subrange(r * l, img.len() as int);
        assert(splice(prev, r * l, content.subrange(r * l, r * l + l)) =~= content.subrange(
            0,
            m * l,
        ) + img.subrange(m * l, img.len() as int));
    }
}

/// Loading a whole image from a densely packed source of the image's size
/// makes the image exactly that source.
pub proof fn lemma_full_region_load(img: Seq<u8>, shape: ImageShape, content: Seq<u8>)
    requires
        shape.wf(),
        img.len() == shape.byte_len(),
        content.len() == shape.byte_len(),
    ensures
        texture_load_result(img, shape, full_region(shape), content) == Some(content),
{
    let c = full_region(shape);
    let l = shape.width * shape.bytes_per_pixel;
    let (w, h, d, b) = (
        shape.width as int,
        shape.height as int,
        shape.depth as int,
        shape.bytes_per_pixel as int,
    );
    assert(l <= shape.byte_len() && h * l <= shape.byte_len() && (d - 1) * (h * l) + (h - 1) * l
        + l == shape.byte_len()) by (nonlinear_arith)
        requires
            w >= 1,
            h >= 1,
            d >= 1,
            b >= 1,
            l == w * b,
            shape.byte_len() == w * h * d * b,
    ;
    assert(c.bytes_per_row == l);
    assert(c.bytes_per_image == h * l) by (nonlinear_arith)
        requires
            c.bytes_per_image == (shape.height * shape.width * shape.bytes_per_pixel) as u64,
            h * l <= u64::MAX,
            h == shape.height,
            l == shape.width * shape.bytes_per_pixel,
    ;
    assert(region_fits(shape, c, content.len() as int));
    let n = (c.size.height * c.size.depth) as nat;
    lemma_full_rows(img, shape, content, n);
    assert(n * l == shape.byte_len()) by (nonlinear_arith)
        requires
            n == h * d,
            l == w * b,
            shape.byte_len() == w * h * d * b,
    ;
    assert(content.subrange(0, n * l) + img.subrange(n * l, img.len() as int) =~= content);
}

} // verus!
