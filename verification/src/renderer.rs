//! The tiled renderer: the image is split into vertical column chunks,
//! each rendered independently from per-pixel hit records, and the
//! chunks are assembled into one row-major RGB byte image.
//!
//! Casting rays against scene geometry is the intersection backend's
//! job; everything here is a function of the per-pixel hit records it
//! returned, so one worker and many workers produce byte-identical
//! images.

use vstd::prelude::*;

use crate::camera::DIM_LIMIT;
use crate::fixed::COORD_LIMIT;
use crate::fixed::FP_ONE;
use crate::fixed::lemma_trunc_div_bounds;
use crate::fixed::spec_abs;
use crate::fixed::trunc_div;
use crate::venom_core::Scalar;
use crate::venom_core::point_bounded;

verus! {

/// What a successful ray cast reports: the geometric surface normal at
/// the hit, in fixed point.
#[derive(Debug, Clone, Copy, PartialEq)]
pub struct HitRecord {
    pub normal: (Scalar, Scalar, Scalar),
}

/// Map one normal component to a color channel: scaled by 255 and
/// clamped to the byte range, since components can be negative.
pub open spec fn spec_channel(n: Scalar) -> u8 {
    let v = trunc_div(255 * n, FP_ONE as int);
    if v < 0 {
        0u8
    } else if v > 255 {
        255u8
    } else {
        v as u8
    }
}

/// The color of one pixel: a miss shows the magenta background, a hit
/// shows the hit's normal, one channel per component.
pub open spec fn spec_color(h: Option<HitRecord>) -> (u8, u8, u8) {
    match h {
        Option::None => (255u8, 0u8, 255u8),
        Option::Some(hit) => (
            spec_channel(hit.normal.0),
            spec_channel(hit.normal.1),
            spec_channel(hit.normal.2),
        ),
    }
}

/// Channel `j` of a color.
pub open spec fn spec_pixel_byte(c: (u8, u8, u8), j: int) -> u8 {
    if j == 0 {
        c.0
    } else if j == 1 {
        c.1
    } else {
        c.2
    }
}

/// Every hit record carries a bounded normal.
pub open spec fn hits_ok(hits: Seq<Option<HitRecord>>) -> bool {
    forall|k: int|
        0 <= k < hits.len() ==> match #[trigger] hits[k] {
            Option::Some(h) => point_bounded(h.normal),
            Option::None => true,
        }
}

/// The rendered image as bytes: three per pixel, in the order of the
/// hit records, which are indexed row-major with row 0 on top.
pub open spec fn spec_render(hits: Seq<Option<HitRecord>>) -> Seq<u8> {
    Seq::new(hits.len() * 3, |k: int| spec_pixel_byte(spec_color(hits[k / 3]), k % 3))
}

/// Map one normal component to its clamped color channel.
pub fn channel(n: Scalar) -> (b: u8)
    requires
        spec_abs(n as int) <= COORD_LIMIT as int,
    ensures
        b == spec_channel(n),
{
    proof {
        lemma_trunc_div_bounds(255 * (n as int), FP_ONE as int);
    }
    let v: i64 = crate::fixed::trunc_div_i128(255 * (n as i128), FP_ONE as i128) as i64;
    if v < 0 {
        0
    } else if v > 255 {
        255
    } else {
        v as u8
    }
}

/// The color of one pixel from its hit record.
pub fn color_of_hit(hit: &Option<HitRecord>) -> (c: (u8, u8, u8))
    requires
        match *hit {
            Option::Some(h) => point_bounded(h.normal),
            Option::None => true,
        },
    ensures
        c == spec_color(*hit),
{
    match hit {
        Option::None => (255, 0, 255),
        Option::Some(h) => (channel(h.normal.0), channel(h.normal.1), channel(h.normal.2)),
    }
}

/// The width of every chunk but the last.
pub open spec fn spec_chunk_width(image_width: u32, num_chunks: u32) -> int {
    image_width as int / num_chunks as int
}

/// The half-open column range of one chunk: equal slices of the image,
/// the last chunk taking the remainder as well, so that the union of
/// all chunks covers every column exactly once whatever the
/// divisibility.
pub open spec fn spec_chunk_bounds(image_width: u32, num_chunks: u32, i: int) -> (int, int) {
    let cw = spec_chunk_width(image_width, num_chunks);
    (
        i * cw,
        if i == num_chunks - 1 {
            image_width as int
        } else {
            (i + 1) * cw
        },
    )
}

/// The chunk that owns a column.
pub open spec fn spec_chunk_of(image_width: u32, num_chunks: u32, col: int) -> int {
    let cw = spec_chunk_width(image_width, num_chunks);
    if cw == 0 {
        num_chunks - 1
    } else if col / cw >= num_chunks - 1 {
        num_chunks - 1
    } else {
        col / cw
    }
}

/// The column range a worker owns.
pub fn chunk_bounds(imageWidth: u32, numChunks: u32, i: u32) -> (r: (u32, u32))
    requires
        numChunks >= 1,
        i < numChunks,
    ensures
        (r.0 as int, r.1 as int) == spec_chunk_bounds(imageWidth, numChunks, i as int),
        r.0 <= r.1 <= imageWidth,
{
    let cw: u32 = imageWidth / numChunks;
    proof {
        vstd::arithmetic::div_mod::lemma_fundamental_div_mod(
            imageWidth as int,
            numChunks as int,
        );
        vstd::arithmetic::div_mod::lemma_mod_bound(imageWidth as int, numChunks as int);
        assert((numChunks as int) * (cw as int) <= imageWidth as int) by (nonlinear_arith)
            requires
                imageWidth as int == (numChunks as int) * (cw as int) + (imageWidth as int) % (
                numChunks as int),
                (imageWidth as int) % (numChunks as int) >= 0,
        ;
        assert(((i as int) + 1) * (cw as int) <= (numChunks as int) * (cw as int))
            by (nonlinear_arith)
            requires
                (i as int) + 1 <= numChunks as int,
                cw as int >= 0,
        ;
        assert((i as int) * (cw as int) <= ((i as int) + 1) * (cw as int)) by (nonlinear_arith)
            requires
                cw as int >= 0,
        ;
    }
    let start: u32 = i * cw;
    let end: u32 = if i == numChunks - 1 {
        imageWidth
    } else {
        (i + 1) * cw
    };
    (start, end)
}

/// Law (coverage): every column of the image lies in exactly one chunk:
/// the one `spec_chunk_of` names, which is always in range. No column
/// is skipped or rendered twice by the chunk-boundary arithmetic.
pub proof fn lemma_chunks_cover(image_width: u32, num_chunks: u32, col: int, i: int)
    requires
        num_chunks >= 1,
        0 <= col < image_width,
        0 <= i < num_chunks,
    ensures
        0 <= spec_chunk_of(image_width, num_chunks, col) < num_chunks,
        (spec_chunk_bounds(image_width, num_chunks, i).0 <= col < spec_chunk_bounds(
            image_width,
            num_chunks,
            i,
        ).1) <==> i == spec_chunk_of(image_width, num_chunks, col),
{
    let w = image_width as int;
    let n = num_chunks as int;
    let cw = spec_chunk_width(image_width, num_chunks);
    vstd::arithmetic::div_mod::lemma_fundamental_div_mod(w, n);
    vstd::arithmetic::div_mod::lemma_mod_bound(w, n);
    assert(n * cw <= w) by (nonlinear_arith)
        requires
            w == n * cw + w % n,
            w % n >= 0,
    ;
    if cw == 0 {
        // Every chunk but the last is empty: i * 0 == (i + 1) * 0.
        assert(forall|j: int| #[trigger] (j * cw) == 0) by (nonlinear_arith)
            requires
                cw == 0,
        ;
    } else {
        vstd::arithmetic::div_mod::lemma_div_pos_is_pos(col, cw);
        vstd::arithmetic::div_mod::lemma_fundamental_div_mod(col, cw);
        vstd::arithmetic::div_mod::lemma_mod_bound(col, cw);
        let q = col / cw;
        // The column sits between q * cw and (q + 1) * cw.
        assert(q * cw <= col < (q + 1) * cw) by (nonlinear_arith)
            requires
                col == cw * q + col % cw,
                0 <= col % cw < cw,
        ;
        if q >= n - 1 {
            // The owning chunk is the last one.
            assert((n - 1) * cw <= q * cw) by (nonlinear_arith)
                requires
                    n - 1 <= q,
                    cw >= 0,
            ;
            if i < n - 1 {
                // No earlier chunk reaches this column.
                assert((i + 1) * cw <= (n - 1) * cw) by (nonlinear_arith)
                    requires
                        i + 1 <= n - 1,
                        cw >= 0,
                ;
            }
        } else {
            // The owning chunk is q itself; every other chunk misses.
            if i != q {
                if i < q {
                    assert((i + 1) * cw <= q * cw) by (nonlinear_arith)
                        requires
                            i + 1 <= q,
                            cw >= 0,
                    ;
                } else {
                    assert((q + 1) * cw <= i * cw) by (nonlinear_arith)
                        requires
                            q + 1 <= i,
                            cw >= 0,
                    ;
                    if i == n - 1 {
                        assert((q + 1) * cw <= (n - 1) * cw) by (nonlinear_arith)
                            requires
                                q + 1 <= n - 1,
                                cw >= 0,
                        ;
                    }
                }
            } else {
                assert(q * cw <= col < (q + 1) * cw);
                if q == n - 1 {
                } else {
                }
            }
        }
    }
}

/// Render the whole image in one pass: one pixel per hit record, in
/// their order.
pub fn render_image(imageWidth: u32, imageHeight: u32, hits: &Vec<Option<HitRecord>>) -> (img: Vec<
    u8,
>)
    requires
        imageWidth <= DIM_LIMIT,
        imageHeight <= DIM_LIMIT,
        hits@.len() == (imageWidth as int) * (imageHeight as int),
        hits_ok(hits@),
    ensures
        img@ == spec_render(hits@),
{
    proof {
        assert((imageWidth as int) * (imageHeight as int) <= 0x1000_0000) by (nonlinear_arith)
            requires
                imageWidth <= 16384,
                imageHeight <= 16384,
        ;
    }
    let mut img: Vec<u8> = Vec::new();
    let mut i: usize = 0;
    while i < hits.len()
        invariant
            hits_ok(hits@),
            hits@.len() <= 0x1000_0000,
            i <= hits@.len(),
            img@.len() == 3 * i,
            forall|k: int| 0 <= k < img@.len() ==> #[trigger] img@[k] == spec_render(hits@)[k],
        decreases hits@.len() - i,
    {
        let h = hits[i];
        let c = color_of_hit(&h);
        img.push(c.0);
        img.push(c.1);
        img.push(c.2);
        proof {
            assert forall|k: int|
                3 * (i as int) <= k < 3 * (i as int) + 3 implies #[trigger] img@[k] == spec_render(
                hits@,
            )[k] by {
                vstd::arithmetic::div_mod::lemma_fundamental_div_mod_converse(
                    k,
                    3,
                    i as int,
                    k - 3 * (i as int),
                );
            }
        }
        i = i + 1;
    }
    proof {
        assert(img@ =~= spec_render(hits@));
    }
    img
}

/// The bytes one worker produces for the columns `x0..x1`, row-major
/// within its range.
pub open spec fn spec_render_chunk(
    width: int,
    height: int,
    x0: int,
    x1: int,
    hits: Seq<Option<HitRecord>>,
) -> Seq<u8> {
    Seq::new(
        (3 * ((x1 - x0) * height)) as nat,
        |k: int|
            {
                let p = k / 3;
                let y = p / (x1 - x0);
                let x = x0 + p % (x1 - x0);
                spec_pixel_byte(spec_color(hits[y * width + x]), k % 3)
            },
    )
}

/// Render the columns `x0..x1` for the full image height, from the
/// full image's hit records.
pub fn render_chunk(
    imageWidth: u32,
    imageHeight: u32,
    x0: u32,
    x1: u32,
    hits: &Vec<Option<HitRecord>>,
) -> (part: Vec<u8>)
    requires
        imageWidth <= DIM_LIMIT,
        imageHeight <= DIM_LIMIT,
        x0 <= x1 <= imageWidth,
        hits@.len() == (imageWidth as int) * (imageHeight as int),
        hits_ok(hits@),
    ensures
        part@ == spec_render_chunk(
            imageWidth as int,
            imageHeight as int,
            x0 as int,
            x1 as int,
            hits@,
        ),
{
    let cw: u32 = x1 - x0;
    proof {
        assert((imageWidth as int) * (imageHeight as int) <= 0x1000_0000) by (nonlinear_arith)
            requires
                imageWidth <= 16384,
                imageHeight <= 16384,
        ;
    }
    let mut part: Vec<u8> = Vec::new();
    let mut y: u32 = 0;
    while y < imageHeight
        invariant
            imageWidth <= DIM_LIMIT,
            imageHeight <= DIM_LIMIT,
            x0 <= x1 <= imageWidth,
            cw == x1 - x0,
            hits@.len() == (imageWidth as int) * (imageHeight as int),
            hits@.len() <= 0x1000_0000,
            hits_ok(hits@),
            y <= imageHeight,
            part@.len() == 3 * ((y as int) * (cw as int)),
            forall|k: int|
                0 <= k < part@.len() ==> #[trigger] part@[k] == spec_render_chunk(
                    imageWidth as int,
                    imageHeight as int,
                    x0 as int,
                    x1 as int,
                    hits@,
                )[k],
        decreases imageHeight - y,
    {
        let mut x: u32 = x0;
        proof {
            assert((y as int) * (cw as int) <= 0x1000_0000 && (y as int) * (cw as int) >= 0)
                by (nonlinear_arith)
                requires
                    0 <= (y as int) < 16385,
                    0 <= (cw as int) <= 16384,
            ;
        }
        while x < x1
            invariant
                imageWidth <= DIM_LIMIT,
                imageHeight <= DIM_LIMIT,
                x0 <= x1 <= imageWidth,
                cw == x1 - x0,
                hits@.len() == (imageWidth as int) * (imageHeight as int),
                hits@.len() <= 0x1000_0000,
                hits_ok(hits@),
                y < imageHeight,
                x0 <= x <= x1,
                0 <= (y as int) * (cw as int) <= 0x1000_0000,
                part@.len() == 3 * ((y as int) * (cw as int) + (x as int - x0 as int)),
                forall|k: int|
                    0 <= k < part@.len() ==> #[trigger] part@[k] == spec_render_chunk(
                        imageWidth as int,
                        imageHeight as int,
                        x0 as int,
                        x1 as int,
                        hits@,
                    )[k],
            decreases x1 - x,
        {
            proof {
                assert((y as int) * (imageWidth as int) + (x as int) < (imageWidth as int) * (
                imageHeight as int)) by (nonlinear_arith)
                    requires
                        0 <= (y as int) < (imageHeight as int),
                        0 <= (x as int) < (imageWidth as int),
                ;
                assert((y as int) * (imageWidth as int) >= 0) by (nonlinear_arith)
                    requires
                        (y as int) >= 0,
                        (imageWidth as int) >= 0,
                ;
            }
            let idx: usize = (y as usize) * (imageWidth as usize) + (x as usize);
            let h = hits[idx];
            let c = color_of_hit(&h);
            part.push(c.0);
            part.push(c.1);
            part.push(c.2);
            proof {
                let spec_part = spec_render_chunk(
                    imageWidth as int,
                    imageHeight as int,
                    x0 as int,
                    x1 as int,
                    hits@,
                );
                let p = (y as int) * (cw as int) + (x as int - x0 as int);
                assert(p + 1 <= ((cw as int)) * (imageHeight as int)) by (nonlinear_arith)
                    requires
                        p == (y as int) * (cw as int) + (x as int - x0 as int),
                        0 <= (y as int) < (imageHeight as int),
                        0 <= (x as int - x0 as int) < (cw as int),
                ;
                assert(3 * ((cw as int) * (imageHeight as int)) == spec_part.len());
                vstd::arithmetic::div_mod::lemma_fundamental_div_mod_converse(
                    p,
                    cw as int,
                    y as int,
                    x as int - x0 as int,
                );
                assert forall|k: int| 3 * p <= k < 3 * p + 3 implies #[trigger] part@[k]
                    == spec_part[k] by {
                    vstd::arithmetic::div_mod::lemma_fundamental_div_mod_converse(
                        k,
                        3,
                        p,
                        k - 3 * p,
                    );
                }
            }
            x = x + 1;
        }
        proof {
            assert(3 * ((y as int) * (cw as int) + (cw as int)) == 3 * (((y as int) + 1) * (
            cw as int))) by (nonlinear_arith);
        }
        y = y + 1;
    }
    proof {
        assert((imageHeight as int) * (cw as int) == (cw as int) * (imageHeight as int))
            by (nonlinear_arith);
        assert(part@ =~= spec_render_chunk(
            imageWidth as int,
            imageHeight as int,
            x0 as int,
            x1 as int,
            hits@,
        ));
    }
    part
}

/// Byte `k` of the assembled image, read from the part that owns the
/// byte's column.
pub open spec fn spec_composed_byte(
    image_width: u32,
    num_chunks: u32,
    parts: Seq<Seq<u8>>,
    k: int,
) -> u8 {
    let p = k / 3;
    let y = p / (image_width as int);
    let x = p % (image_width as int);
    let i = spec_chunk_of(image_width, num_chunks, x);
    let x0 = spec_chunk_bounds(image_width, num_chunks, i).0;
    let x1 = spec_chunk_bounds(image_width, num_chunks, i).1;
    parts[i][3 * ((y * (x1 - x0)) + (x - x0)) + k % 3]
}

/// Assemble per-chunk byte slices into one row-major image. Each part
/// is written only into its own column range: the single-threaded
/// counterpart of handing each worker exclusive ownership of its
/// columns.
pub fn compose_chunks(
    imageWidth: u32,
    imageHeight: u32,
    numChunks: u32,
    parts: &Vec<Vec<u8>>,
) -> (img: Vec<u8>)
    requires
        imageWidth <= DIM_LIMIT,
        imageHeight <= DIM_LIMIT,
        numChunks >= 1,
        parts@.len() == numChunks,
        forall|i: int|
            0 <= i < numChunks ==> (#[trigger] parts@[i])@.len() == 3 * ((spec_chunk_bounds(
                imageWidth,
                numChunks,
                i,
            ).1 - spec_chunk_bounds(imageWidth, numChunks, i).0) * (imageHeight as int)),
    ensures
        img@.len() == 3 * ((imageWidth as int) * (imageHeight as int)),
        forall|k: int|
            0 <= k < img@.len() ==> #[trigger] img@[k] == spec_composed_byte(
                imageWidth,
                numChunks,
                parts@.map_values(|part: Vec<u8>| part@),
                k,
            ),
{
    let ghost spec_parts = parts@.map_values(|part: Vec<u8>| part@);
    proof {
        assert((imageWidth as int) * (imageHeight as int) <= 0x1000_0000) by (nonlinear_arith)
            requires
                imageWidth <= 16384,
                imageHeight <= 16384,
        ;
    }
    let mut img: Vec<u8> = Vec::new();
    let mut y: u32 = 0;
    while y < imageHeight
        invariant
            imageWidth <= DIM_LIMIT,
            imageHeight <= DIM_LIMIT,
            numChunks >= 1,
            parts@.len() == numChunks,
            spec_parts == parts@.map_values(|part: Vec<u8>| part@),
            forall|i: int|
                0 <= i < numChunks ==> (#[trigger] parts@[i])@.len() == 3 * ((spec_chunk_bounds(
                    imageWidth,
                    numChunks,
                    i,
                ).1 - spec_chunk_bounds(imageWidth, numChunks, i).0) * (imageHeight as int)),
            (imageWidth as int) * (imageHeight as int) <= 0x1000_0000,
            y <= imageHeight,
            img@.len() == 3 * ((y as int) * (imageWidth as int)),
            forall|k: int|
                0 <= k < img@.len() ==> #[trigger] img@[k] == spec_composed_byte(
                    imageWidth,
                    numChunks,
                    spec_parts,
                    k,
                ),
        decreases imageHeight - y,
    {
        proof {
            assert(0 <= (y as int) * (imageWidth as int) && ((y as int) + 1) * (imageWidth as int)
                <= (imageHeight as int) * (imageWidth as int)) by (nonlinear_arith)
                requires
                    0 <= (y as int) < (imageHeight as int),
                    0 <= (imageWidth as int),
            ;
        }
        let mut i: u32 = 0;
        let mut x: u32 = 0;
        while i < numChunks
            invariant
                imageWidth <= DIM_LIMIT,
                imageHeight <= DIM_LIMIT,
                numChunks >= 1,
                parts@.len() == numChunks,
                spec_parts == parts@.map_values(|part: Vec<u8>| part@),
                forall|j: int|
                    0 <= j < numChunks ==> (#[trigger] parts@[j])@.len() == 3 * ((
                    spec_chunk_bounds(imageWidth, numChunks, j).1 - spec_chunk_bounds(
                        imageWidth,
                        numChunks,
                        j,
                    ).0) * (imageHeight as int)),
                (imageWidth as int) * (imageHeight as int) <= 0x1000_0000,
                y < imageHeight,
                i <= numChunks,
                x <= imageWidth,
                i < numChunks ==> x as int == spec_chunk_bounds(imageWidth, numChunks, i as int).0,
                i == numChunks ==> x == imageWidth,
                img@.len() == 3 * ((y as int) * (imageWidth as int) + (x as int)),
                forall|k: int|
                    0 <= k < img@.len() ==> #[trigger] img@[k] == spec_composed_byte(
                        imageWidth,
                        numChunks,
                        spec_parts,
                        k,
                    ),
            decreases numChunks - i,
        {
            let bounds = chunk_bounds(imageWidth, numChunks, i);
            let x0 = bounds.0;
            let x1 = bounds.1;
            let cw: u32 = x1 - x0;
            while x < x1
                invariant
                    imageWidth <= DIM_LIMIT,
                    imageHeight <= DIM_LIMIT,
                    numChunks >= 1,
                    parts@.len() == numChunks,
                    spec_parts == parts@.map_values(|part: Vec<u8>| part@),
                    forall|j: int|
                        0 <= j < numChunks ==> (#[trigger] parts@[j])@.len() == 3 * ((
                        spec_chunk_bounds(imageWidth, numChunks, j).1 - spec_chunk_bounds(
                            imageWidth,
                            numChunks,
                            j,
                        ).0) * (imageHeight as int)),
                    (imageWidth as int) * (imageHeight as int) <= 0x1000_0000,
                    y < imageHeight,
                    i < numChunks,
                    (x0 as int, x1 as int) == spec_chunk_bounds(imageWidth, numChunks, i as int),
                    cw == x1 - x0,
                    x0 <= x <= x1 <= imageWidth,
                    img@.len() == 3 * ((y as int) * (imageWidth as int) + (x as int)),
                    forall|k: int|
                        0 <= k < img@.len() ==> #[trigger] img@[k] == spec_composed_byte(
                            imageWidth,
                            numChunks,
                            spec_parts,
                            k,
                        ),
                decreases x1 - x,
            {
                proof {
                    assert((y as int) * (cw as int) + (x as int - x0 as int) + 1 <= (cw as int) * (
                    imageHeight as int) && 0 <= (y as int) * (cw as int) && (cw as int) * (
                    imageHeight as int) <= 0x1000_0000) by (nonlinear_arith)
                        requires
                            0 <= (y as int) < (imageHeight as int),
                            0 <= (x as int - x0 as int) < (cw as int),
                            cw as int <= 16384,
                            imageHeight as int <= 16384,
                    ;
                }
                let base: usize = 3 * ((y as usize) * (cw as usize) + ((x - x0) as usize));
                let part = &parts[i as usize];
                let b0 = part[base];
                let b1 = part[base + 1];
                let b2 = part[base + 2];
                img.push(b0);
                img.push(b1);
                img.push(b2);
                proof {
                    let w = imageWidth as int;
                    let p = (y as int) * w + (x as int);
                    assert(0 <= (y as int) * w && p + 1 <= (imageHeight as int) * w)
                        by (nonlinear_arith)
                        requires
                            p == (y as int) * w + (x as int),
                            0 <= (y as int) < (imageHeight as int),
                            0 <= (x as int) < w,
                    ;
                    vstd::arithmetic::div_mod::lemma_fundamental_div_mod_converse(
                        p,
                        w,
                        y as int,
                        x as int,
                    );
                    lemma_chunks_cover(imageWidth, numChunks, x as int, i as int);
                    assert(i as int == spec_chunk_of(imageWidth, numChunks, x as int));
                    assert forall|k: int| 3 * p <= k < 3 * p + 3 implies #[trigger] img@[k]
                        == spec_composed_byte(imageWidth, numChunks, spec_parts, k) by {
                        vstd::arithmetic::div_mod::lemma_fundamental_div_mod_converse(
                            k,
                            3,
                            p,
                            k - 3 * p,
                        );
                        assert(spec_parts[i as int] == parts@[i as int]@);
                    }
                }
                x = x + 1;
            }
            i = i + 1;
        }
        proof {
            assert(3 * ((y as int) * (imageWidth as int) + (imageWidth as int)) == 3 * (((
            y as int) + 1) * (imageWidth as int))) by (nonlinear_arith);
        }
        y = y + 1;
    }
    proof {
        assert((imageHeight as int) * (imageWidth as int) == (imageWidth as int) * (
        imageHeight as int)) by (nonlinear_arith);
    }
    img
}

/// Render the image in `numChunks` column chunks and assemble them.
/// The result is byte-identical to `render_image` on the same hit
/// records, whatever the chunk count: dispatching the chunks to any
/// number of workers cannot change the image.
pub fn render_tiled(
    imageWidth: u32,
    imageHeight: u32,
    numChunks: u32,
    hits: &Vec<Option<HitRecord>>,
) -> (img: Vec<u8>)
    requires
        imageWidth <= DIM_LIMIT,
        imageHeight <= DIM_LIMIT,
        numChunks >= 1,
        hits@.len() == (imageWidth as int) * (imageHeight as int),
        hits_ok(hits@),
    ensures
        img@ == spec_render(hits@),
{
    let mut parts: Vec<Vec<u8>> = Vec::new();
    let mut i: u32 = 0;
    while i < numChunks
        invariant
            imageWidth <= DIM_LIMIT,
            imageHeight <= DIM_LIMIT,
            numChunks >= 1,
            hits@.len() == (imageWidth as int) * (imageHeight as int),
            hits_ok(hits@),
            i <= numChunks,
            parts@.len() == i,
            forall|j: int|
                0 <= j < i ==> (#[trigger] parts@[j])@ == spec_render_chunk(
                    imageWidth as int,
                    imageHeight as int,
                    spec_chunk_bounds(imageWidth, numChunks, j).0,
                    spec_chunk_bounds(imageWidth, numChunks, j).1,
                    hits@,
                ),
            forall|j: int|
                0 <= j < i ==> (#[trigger] parts@[j])@.len() == 3 * ((spec_chunk_bounds(
                    imageWidth,
                    numChunks,
                    j,
                ).1 - spec_chunk_bounds(imageWidth, numChunks, j).0) * (imageHeight as int)),
        decreases numChunks - i,
    {
        let bounds = chunk_bounds(imageWidth, numChunks, i);
        let part = render_chunk(imageWidth, imageHeight, bounds.0, bounds.1, hits);
        proof {
            assert((bounds.1 as int - bounds.0 as int) * (imageHeight as int) >= 0)
                by (nonlinear_arith)
                requires
                    bounds.1 as int - bounds.0 as int >= 0,
                    imageHeight as int >= 0,
            ;
        }
        parts.push(part);
        i = i + 1;
    }
    let img = compose_chunks(imageWidth, imageHeight, numChunks, &parts);
    proof {
        let w = imageWidth as int;
        let ht = imageHeight as int;
        let spec_parts = parts@.map_values(|part: Vec<u8>| part@);
        assert forall|k: int| 0 <= k < img@.len() implies #[trigger] img@[k] == spec_render(
            hits@,
        )[k] by {
            assert(w >= 1 && ht >= 1) by (nonlinear_arith)
                requires
                    0 < 3 * (w * ht),
                    w >= 0,
                    ht >= 0,
            ;
            let p = k / 3;
            let j = k % 3;
            vstd::arithmetic::div_mod::lemma_fundamental_div_mod(k, 3);
            vstd::arithmetic::div_mod::lemma_mod_bound(k, 3);
            vstd::arithmetic::div_mod::lemma_div_pos_is_pos(k, 3);
            assert(p < w * ht) by (nonlinear_arith)
                requires
                    k < 3 * (w * ht),
                    k == 3 * p + j,
                    0 <= j < 3,
            ;
            let y = p / w;
            let x = p % w;
            vstd::arithmetic::div_mod::lemma_fundamental_div_mod(p, w);
            vstd::arithmetic::div_mod::lemma_mod_bound(p, w);
            vstd::arithmetic::div_mod::lemma_div_pos_is_pos(p, w);
            vstd::arithmetic::div_mod::lemma_multiply_divide_lt(p, w, ht);
            lemma_chunks_cover(imageWidth, numChunks, x, 0);
            let ci = spec_chunk_of(imageWidth, numChunks, x);
            lemma_chunks_cover(imageWidth, numChunks, x, ci);
            let x0 = spec_chunk_bounds(imageWidth, numChunks, ci).0;
            let x1 = spec_chunk_bounds(imageWidth, numChunks, ci).1;
            assert(x0 <= x < x1);
            let cw = x1 - x0;
            let lp = y * cw + (x - x0);
            assert(0 <= y * cw && lp + 1 <= cw * ht) by (nonlinear_arith)
                requires
                    lp == y * cw + (x - x0),
                    0 <= y < ht,
                    0 <= x - x0 < cw,
            ;
            vstd::arithmetic::div_mod::lemma_fundamental_div_mod_converse(lp, cw, y, x - x0);
            vstd::arithmetic::div_mod::lemma_fundamental_div_mod_converse(
                3 * lp + j,
                3,
                lp,
                j,
            );
            assert(spec_parts[ci] == parts@[ci]@);
            assert(img@[k] == spec_parts[ci][3 * lp + j]);
            assert(parts@[ci]@[3 * lp + j] == spec_render_chunk(w, ht, x0, x1, hits@)[3 * lp
                + j]);
        }
        assert(3 * (w * ht) == hits@.len() * 3) by (nonlinear_arith)
            requires
                w * ht == hits@.len(),
        ;
        assert(img@ =~= spec_render(hits@));
    }
    img
}

} // verus!
