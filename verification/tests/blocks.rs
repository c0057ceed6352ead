// Tests of the block partitioner, the spiral dispatch order, and the
// cancellation behaviour of the render session, including draining a
// real channel.

use raytrace::render::{plan_blocks, RenderBlock, RenderSession};

fn cheb(a: (u32, u32), b: (u32, u32)) -> u32 {
    let dx = if a.0 >= b.0 { a.0 - b.0 } else { b.0 - a.0 };
    let dy = if a.1 >= b.1 { a.1 - b.1 } else { b.1 - a.1 };
    dx.max(dy)
}

fn check_partition(width: u32, height: u32, block_size: u32) {
    let blocks = plan_blocks(width, height, block_size);
    // Every pixel is covered by exactly one block.
    let mut covered = vec![0u32; (width * height) as usize];
    for b in &blocks {
        assert!(b.width >= 1 && b.height >= 1);
        assert!(b.width <= block_size && b.height <= block_size);
        assert!(b.x + b.width <= width && b.y + b.height <= height);
        assert!(b.pixels.is_empty());
        for py in b.y..b.y + b.height {
            for px in b.x..b.x + b.width {
                covered[(py * width + px) as usize] += 1;
            }
        }
    }
    for (i, &c) in covered.iter().enumerate() {
        assert_eq!(c, 1, "pixel {} covered {} times", i, c);
    }
    // Blocks are ordered by Chebyshev distance from the centre cell.
    let nbx = (width + block_size - 1) / block_size;
    let nby = (height + block_size - 1) / block_size;
    let center = (nbx / 2, nby / 2);
    let mut last = 0;
    for b in &blocks {
        let cell = (b.x / block_size, b.y / block_size);
        let d = cheb(cell, center);
        assert!(d >= last, "blocks must spiral outward");
        last = d;
    }
}

#[test]
fn block_tiling_covers_every_pixel_once() {
    check_partition(101, 37, 16);
    check_partition(64, 64, 16);
    check_partition(1, 1, 32);
    check_partition(33, 1, 32);
    check_partition(5, 9, 2);
    check_partition(1280, 720, 32);
}

#[test]
fn empty_image_has_no_blocks() {
    assert!(plan_blocks(0, 10, 16).is_empty());
    assert!(plan_blocks(10, 0, 16).is_empty());
}

#[test]
fn first_block_is_the_center_cell() {
    let blocks = plan_blocks(64, 64, 16);
    assert_eq!(blocks.len(), 16);
    assert_eq!((blocks[0].x, blocks[0].y), (32, 32));
}

#[test]
fn session_hands_out_blocks_in_plan_order() {
    let blocks = plan_blocks(64, 64, 32);
    let expected: Vec<(u32, u32)> = blocks.iter().map(|b| (b.x, b.y)).collect();
    let mut session = RenderSession::new(blocks);
    let mut seen: Vec<(u32, u32)> = Vec::new();
    while let Some(b) = session.next_block() {
        seen.push((b.x, b.y));
    }
    assert_eq!(seen, expected);
    assert!(session.next_block().is_none());
}

#[test]
fn stop_mid_render_then_drain_leaves_channel_empty() {
    // Cooperative cancellation: stop after two blocks are in flight,
    // drain the channel, and nothing may be left or deadlock.
    let blocks = plan_blocks(96, 96, 32);
    let capacity = blocks.len();
    let mut session = RenderSession::new(blocks);
    let (sender, receiver) = crossbeam_channel::bounded::<RenderBlock>(capacity);
    for _ in 0..2 {
        let b = session.next_block().expect("plan has blocks");
        sender.send(b).expect("channel sized for every block");
    }
    session.stop();
    // After stop no further block is dispatched.
    assert!(session.next_block().is_none());
    assert!(session.next_block().is_none());
    // Drain everything that was buffered.
    let mut drained = 0;
    while receiver.try_recv().is_ok() {
        drained += 1;
    }
    assert_eq!(drained, 2);
    assert!(receiver.try_recv().is_err());
}

#[test]
fn stop_before_any_block_is_safe() {
    let blocks = plan_blocks(64, 64, 32);
    let mut session = RenderSession::new(blocks);
    let (sender, receiver) = crossbeam_channel::bounded::<RenderBlock>(4);
    session.stop();
    assert!(session.next_block().is_none());
    drop(sender);
    assert!(receiver.try_recv().is_err());
}
