use venom::fixed::FP_ONE;
use venom::renderer::{
    chunk_bounds, color_of_hit, render_chunk, render_image, render_tiled, HitRecord,
};

const S: i64 = FP_ONE;

#[test]
fn chunk_arithmetic_covers_every_column_exactly_once() {
    // 643 columns over 10 chunks do not divide evenly
    let width = 643u32;
    let chunks = 10u32;
    let mut covered = vec![0u32; width as usize];
    for i in 0..chunks {
        let (start, end) = chunk_bounds(width, chunks, i);
        for col in start..end {
            covered[col as usize] += 1;
        }
    }
    for (col, n) in covered.iter().enumerate() {
        assert_eq!(*n, 1, "column {} rendered {} times", col, n);
    }
    // the last chunk takes the remainder
    assert_eq!(chunk_bounds(width, chunks, 0), (0, 64));
    assert_eq!(chunk_bounds(width, chunks, 9), (576, 643));
}

#[test]
fn chunk_arithmetic_with_more_chunks_than_columns() {
    let width = 5u32;
    let chunks = 10u32;
    let mut covered = vec![0u32; width as usize];
    for i in 0..chunks {
        let (start, end) = chunk_bounds(width, chunks, i);
        for col in start..end {
            covered[col as usize] += 1;
        }
    }
    assert!(covered.iter().all(|&n| n == 1));
}

#[test]
fn miss_is_background_and_hit_shows_the_normal() {
    assert_eq!(color_of_hit(&None), (255, 0, 255));
    // a +x facing normal saturates red; negative components clamp to zero
    assert_eq!(color_of_hit(&Some(HitRecord { normal: (S, 0, -S) })), (255, 0, 0));
    assert_eq!(color_of_hit(&Some(HitRecord { normal: (S / 2, S, 0) })), (127, 255, 0));
}

fn some_hits(width: u32, height: u32) -> Vec<Option<HitRecord>> {
    let mut hits = Vec::new();
    for i in 0..(width as i64) * (height as i64) {
        if i % 3 == 0 {
            hits.push(None);
        } else {
            hits.push(Some(HitRecord { normal: (i % 7 * 9000, -(i % 5) * 9000, S - i % 11) }));
        }
    }
    hits
}

#[test]
fn tiled_render_is_byte_identical_to_one_worker() {
    // width deliberately not divisible by the chunk count
    let (w, h) = (643u32, 3u32);
    let hits = some_hits(w, h);
    let whole = render_image(w, h, &hits);
    assert_eq!(whole.len(), (w * h * 3) as usize);
    for chunks in [1u32, 2, 7, 10, 643] {
        let tiled = render_tiled(w, h, chunks, &hits);
        assert_eq!(tiled, whole, "chunk count {} changed the image", chunks);
    }
}

#[test]
fn chunk_render_matches_its_columns() {
    let (w, h) = (8u32, 2u32);
    let hits = some_hits(w, h);
    let whole = render_image(w, h, &hits);
    let part = render_chunk(w, h, 2, 5, &hits);
    assert_eq!(part.len(), 3 * 3 * 2);
    for y in 0..h as usize {
        for dx in 0..3usize {
            for b in 0..3usize {
                let from_part = part[(y * 3 + dx) * 3 + b];
                let from_whole = whole[(y * w as usize + 2 + dx) * 3 + b];
                assert_eq!(from_part, from_whole);
            }
        }
    }
}
