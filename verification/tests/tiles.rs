use ray1week::render::{
    assemble_image, image_blocks, ray_is_followed, ray_step, sqrt_spp, Encounter, ImageBlock,
    RayStep, BLOCK_SIZE,
};

#[test]
fn whole_tiles_are_followed_by_empty_ones() {
    let blocks = image_blocks(16, 9, 0u8);
    assert_eq!(blocks.len(), 1);
    assert_eq!(
        (blocks[0].xmin, blocks[0].xmax, blocks[0].ymin, blocks[0].ymax),
        (0, 16, 0, 9)
    );
    assert_eq!(blocks[0].buffer.len(), 16 * 9);
    let blocks = image_blocks(64, 64, 0u8);
    let rects: Vec<(usize, usize, usize, usize)> = blocks
        .iter()
        .map(|b| (b.xmin, b.xmax, b.ymin, b.ymax))
        .collect();
    assert_eq!(
        rects,
        vec![(0, 64, 0, 64), (64, 64, 0, 64), (0, 64, 64, 64), (64, 64, 64, 64)]
    );
    assert_eq!(blocks[0].buffer.len(), 64 * 64);
    assert!(blocks[1].buffer.is_empty());
}

#[test]
fn tail_tiles_are_smaller() {
    let blocks = image_blocks(400, 225, 1.5f64);
    assert_eq!(blocks.len(), 7 * 4);
    let last = &blocks[27];
    assert_eq!((last.xmin, last.xmax, last.ymin, last.ymax), (384, 400, 192, 225));
    let second_row = &blocks[7];
    assert_eq!(
        (second_row.xmin, second_row.xmax, second_row.ymin, second_row.ymax),
        (0, 64, 64, 128)
    );
    for b in &blocks {
        assert!(b.xmax - b.xmin <= BLOCK_SIZE && b.ymax - b.ymin <= BLOCK_SIZE);
        assert_eq!(b.buffer.len(), (b.xmax - b.xmin) * (b.ymax - b.ymin));
        assert!(b.buffer.iter().all(|c| *c == 1.5));
    }
}

#[test]
fn every_pixel_lies_in_one_tile() {
    for (w, h) in [(1usize, 1usize), (63, 65), (64, 128), (130, 70), (0, 5), (0, 0)] {
        let blocks = image_blocks(w, h, ());
        let mut covered = vec![0u32; w * h];
        for b in &blocks {
            for y in b.ymin..b.ymax {
                for x in b.xmin..b.xmax {
                    covered[y * w + x] += 1;
                }
            }
        }
        assert!(covered.iter().all(|n| *n == 1), "{} by {}", w, h);
    }
}

#[test]
fn pixels_are_kept_row_by_row() {
    let mut block = ImageBlock::new(10, 13, 20, 22, 0u32);
    block.write(10, 20, 1);
    block.write(12, 20, 2);
    block.write(10, 21, 3);
    block.write(12, 21, 4);
    assert_eq!(block.buffer, vec![1, 0, 2, 3, 0, 4]);
    assert_eq!(block.get(12, 20), 2);
    assert_eq!(block.get(11, 21), 0);
    block.write(12, 20, 9);
    assert_eq!(block.get(12, 20), 9);
    assert_eq!(block.get(10, 21), 3);
}

#[test]
fn tiles_are_put_together() {
    let (w, h) = (70usize, 66usize);
    let mut blocks = image_blocks(w, h, 0usize);
    for b in blocks.iter_mut() {
        for y in b.ymin..b.ymax {
            for x in b.xmin..b.xmax {
                b.write(x, y, 1000 * y + x);
            }
        }
    }
    let image = assemble_image(w, h, &blocks, usize::MAX);
    assert_eq!(image.len(), w * h);
    for y in 0..h {
        for x in 0..w {
            assert_eq!(image[y * w + x], 1000 * y + x);
        }
    }
}

#[test]
fn later_tiles_lie_on_top_and_gaps_show_the_background() {
    let mut under = ImageBlock::new(0, 2, 0, 2, 'u');
    under.write(1, 1, 'x');
    let over = ImageBlock::new(1, 3, 1, 2, 'o');
    let image = assemble_image(3, 3, &vec![under, over], '.');
    let rows: Vec<String> = image.chunks(3).map(|r| r.iter().collect()).collect();
    assert_eq!(rows, vec!["uu.", "uoo", "..."]);
}

#[test]
fn sample_grid_side_is_the_whole_square_root() {
    let cases = [
        (0usize, 0usize),
        (1, 1),
        (2, 1),
        (3, 1),
        (4, 2),
        (8, 2),
        (9, 3),
        (99, 9),
        (100, 10),
        (101, 10),
        (10_000, 100),
        (4_294_967_295, 65_535),
    ];
    for (n, r) in cases {
        assert_eq!(sqrt_spp(n), r, "{}", n);
    }
    let r = sqrt_spp(usize::MAX) as u128;
    assert!(r * r <= usize::MAX as u128 && (r + 1) * (r + 1) > usize::MAX as u128);
}

#[test]
fn a_ray_without_bounces_left_is_not_followed() {
    assert!(!ray_is_followed(0));
    assert!(ray_is_followed(1));
    assert!(ray_is_followed(50));
}

#[test]
fn steps_of_a_ray() {
    assert_eq!(ray_step(10, Encounter::Miss, 3), RayStep::Background);
    assert_eq!(ray_step(10, Encounter::Absorbed, 3), RayStep::Emission);
    assert_eq!(
        ray_step(10, Encounter::Specular, 3),
        RayStep::FollowSpecular { depth: 9 }
    );
    assert_eq!(
        ray_step(10, Encounter::Diffuse, 3),
        RayStep::FollowSampled { depth: 9, toward_lights: true }
    );
    assert_eq!(
        ray_step(1, Encounter::Diffuse, 0),
        RayStep::FollowSampled { depth: 0, toward_lights: false }
    );
}
