use virtual_texture::codec::decode_container;
use virtual_texture::endian::EEndianType;
use virtual_texture::feedback::{decode_feedback, encode_feedback_pixel, FEEDBACK_SENTINEL};
use virtual_texture::image::Image;
use virtual_texture::misc::{calculate_max_mips, calculate_mipmap_level_sizes, get_mip_level_size, is_dev_mode};
use virtual_texture::page_table::{PageTableKey, PageTableManager};
use virtual_texture::scheduler::StreamingScheduler;
use virtual_texture::source::VirtualTextureSource;
use virtual_texture::texture::create_virtual_texture_cache_data;
use virtual_texture::tile::{TileIndex, VirtualTextureDescriptor};

fn solid_image(width: u32, height: u32, value: u8) -> Image {
    let data = vec![value; (width as usize) * (height as usize) * 4];
    Image::new(width, height, data).expect("well-formed image")
}

fn key(id: u64, x: u32, y: u32, level: u32) -> PageTableKey {
    PageTableKey {
        virtual_tex_id: id,
        tile: TileIndex { x, y, mip_level: level },
    }
}

#[test]
fn mip_size_basics() {
    // Every valid width keeps size at least 1, and level 0 is the width.
    assert_eq!(get_mip_level_size(4096, 0), 4096);
    assert_eq!(get_mip_level_size(4096, 4), 256);
    assert_eq!(get_mip_level_size(4096, 12), 1);
    assert_eq!(get_mip_level_size(4096, 13), 1);
    assert_eq!(get_mip_level_size(4096, 40), 1);
    assert_eq!(get_mip_level_size(5, 1), 2);
    assert_eq!(get_mip_level_size(1, 0), 1);
    let sizes = calculate_mipmap_level_sizes(4096);
    assert_eq!(sizes.len(), 13);
    assert_eq!(sizes[0], 4096);
    assert_eq!(sizes[12], 1);
}

#[test]
fn max_mips_values() {
    assert_eq!(calculate_max_mips(4096), 13);
    assert_eq!(calculate_max_mips(1), 1);
    assert_eq!(calculate_max_mips(0), 0);
    assert_eq!(calculate_max_mips(255), 8);
    assert_eq!(calculate_max_mips(256), 9);
}

#[test]
fn descriptor_validation() {
    // A tile size that is not a power of two is rejected.
    assert!(VirtualTextureDescriptor::new((4096, 4096), 3).is_err());
    assert!(VirtualTextureDescriptor::new((4096, 4096), 0).is_err());
    // A tile larger than the texture is rejected.
    assert!(VirtualTextureDescriptor::new((128, 128), 256).is_err());
    let d = VirtualTextureDescriptor::new((4096, 4096), 256).unwrap();
    assert_eq!(d.mip_count, 13);
    assert_eq!(d.max_resident_lod(), 4);
    assert!(d.is_valid_tile(&TileIndex { x: 0, y: 0, mip_level: 4 }));
    assert!(d.is_valid_tile(&TileIndex { x: 15, y: 15, mip_level: 0 }));
    assert!(!d.is_valid_tile(&TileIndex { x: 16, y: 0, mip_level: 0 }));
    assert!(!d.is_valid_tile(&TileIndex { x: 0, y: 0, mip_level: 5 }));
}

#[test]
fn encode_rejects_misaligned() {
    // 300 is not a multiple of 256.
    let img = solid_image(300, 300, 9);
    let r = create_virtual_texture_cache_data(img, EEndianType::Little, 256);
    assert!(r.is_err());
}

#[test]
fn codec_round_trip_small() {
    // A 64x64 source with a 16-pixel tile: 3 tiled levels (64, 32, 16).
    let img = solid_image(64, 64, 0x5a);
    let bytes = create_virtual_texture_cache_data(img, EEndianType::Big, 16).unwrap();
    let file = decode_container(bytes).unwrap();
    assert_eq!(file.tile_size, 16);
    assert_eq!(file.levels.len(), 7);
    assert_eq!(file.levels[0].tiles_x, 4);
    assert_eq!(file.levels[2].tiles_x, 1);
    assert_eq!(file.levels[3].tiles_x, 0);
    assert_eq!(file.size(), (64, 64));
    let tile = file
        .fetch_tile(&TileIndex { x: 3, y: 2, mip_level: 0 })
        .unwrap();
    assert_eq!(tile.len(), 16 * 16 * 4);
    assert!(tile.iter().all(|b| *b == 0x5a));
}

#[test]
fn codec_endianness_is_explicit() {
    let img_a = solid_image(32, 32, 1);
    let img_b = solid_image(32, 32, 1);
    let little = create_virtual_texture_cache_data(img_a, EEndianType::Little, 16).unwrap();
    let big = create_virtual_texture_cache_data(img_b, EEndianType::Big, 16).unwrap();
    assert_eq!(little[0], 1);
    assert_eq!(big[0], 0);
    // Both decode to the same map.
    let fl = decode_container(little).unwrap();
    let fb = decode_container(big).unwrap();
    assert_eq!(fl.tile_size, fb.tile_size);
    assert_eq!(fl.levels.len(), fb.levels.len());
    // Native writes little-endian bytes.
    let img_c = solid_image(32, 32, 1);
    let native = create_virtual_texture_cache_data(img_c, EEndianType::Native, 16).unwrap();
    assert_eq!(native[0], 1);
}

#[test]
fn virtual_texture_4096_scenario() {
    // tile_size 256 on a 4096x4096 source: 13 mips, max resident LOD 4,
    // and the single tile of level 4 decodes as a 256x256 image.
    assert_eq!(calculate_max_mips(4096), 13);
    let d = VirtualTextureDescriptor::new((4096, 4096), 256).unwrap();
    assert_eq!(d.max_resident_lod(), 13 - 8 - 1);
    let img = solid_image(4096, 4096, 0x33);
    let bytes = create_virtual_texture_cache_data(img, EEndianType::Little, 256).unwrap();
    let file = decode_container(bytes).unwrap();
    let tile = file
        .fetch_tile(&TileIndex { x: 0, y: 0, mip_level: 4 })
        .unwrap();
    assert_eq!(tile.len(), 256 * 256 * 4);
    let tile_image = Image::new(256, 256, tile).unwrap();
    assert_eq!(tile_image.width, 256);
    assert_eq!(tile_image.height, 256);
    assert_eq!(tile_image.byte_at(0, 0, 0), 0x33);
    assert_eq!(tile_image.byte_at(255, 255, 3), 0x33);
}

#[test]
fn fetch_tile_out_of_range() {
    // An out-of-range index always fails with OutOfRange, never panics.
    let img = solid_image(64, 64, 7);
    let bytes = create_virtual_texture_cache_data(img, EEndianType::Little, 16).unwrap();
    let file = decode_container(bytes).unwrap();
    let cases = [
        TileIndex { x: 4, y: 0, mip_level: 0 },
        TileIndex { x: 0, y: 4, mip_level: 0 },
        TileIndex { x: 0, y: 0, mip_level: 3 },
        TileIndex { x: 0, y: 0, mip_level: 99 },
        TileIndex { x: 1000, y: 1000, mip_level: 1000 },
    ];
    for idx in cases.iter() {
        match file.fetch_tile(idx) {
            Err(e) => assert_eq!(e.describe(), "out of range"),
            Ok(_) => panic!("out-of-range fetch must fail"),
        }
    }
}

#[test]
fn feedback_decode_dedup_and_chain() {
    // The same pixel many times gives one request per chain level.
    let p = encode_feedback_pixel(1, 3, 2, 0);
    let pixels = vec![p, p, FEEDBACK_SENTINEL, p, FEEDBACK_SENTINEL, p];
    let reqs = decode_feedback(&pixels, 2);
    // Levels 0, 1, 2 of the chain: (3,2,0) -> (1,1,1) -> (0,0,2).
    assert_eq!(reqs.len(), 3);
    assert_eq!(reqs[0].tile, TileIndex { x: 3, y: 2, mip_level: 0 });
    assert_eq!(reqs[1].tile, TileIndex { x: 1, y: 1, mip_level: 1 });
    assert_eq!(reqs[2].tile, TileIndex { x: 0, y: 0, mip_level: 2 });
    // A cleared target decodes to nothing.
    let empty = decode_feedback(&vec![FEEDBACK_SENTINEL; 8], 4);
    assert_eq!(empty.len(), 0);
}

#[test]
fn scheduler_dedup() {
    // Dispatching the same request many times makes at most one job.
    let table = PageTableManager::new(4);
    let mut s = StreamingScheduler::new(3);
    let p = encode_feedback_pixel(7, 1, 1, 0);
    let reqs = decode_feedback(&vec![p, p, p, p, p], 1);
    s.enqueue_requests(&reqs, &table);
    s.enqueue_requests(&reqs, &table);
    s.enqueue_requests(&reqs, &table);
    // One job per unique chain address, not per dispatch.
    assert_eq!(s.job_count(), 2);
}

#[test]
fn scheduler_retry_and_drop() {
    let table = PageTableManager::new(4);
    let mut s = StreamingScheduler::new(2);
    let p = encode_feedback_pixel(7, 0, 0, 0);
    let reqs = decode_feedback(&vec![p], 0);
    s.enqueue_requests(&reqs, &table);
    assert_eq!(s.job_count(), 1);
    let (i, _req) = s.dispatch_next(0).unwrap();
    // First failure: retried with backoff, not yet dropped.
    s.on_fetch_result(i, false, 0);
    assert_eq!(s.job_count(), 1);
    // The retry is not due before its backoff frame.
    assert!(s.dispatch_next(0).is_none());
    let (j, _req) = s.dispatch_next(10).unwrap();
    // Second failure reaches the attempt bound: the job is dropped.
    s.on_fetch_result(j, false, 10);
    assert_eq!(s.job_count(), 0);
}

#[test]
fn page_table_commit_and_lookup() {
    let mut t = PageTableManager::new(2);
    assert_eq!(t.slot_count(), 2);
    let k1 = key(1, 0, 0, 0);
    let pinned: Vec<PageTableKey> = Vec::new();
    assert!(t.lookup(&k1).is_none());
    let s1 = t.allocate(k1, &pinned).unwrap();
    assert!(t.complete_load(s1));
    assert_eq!(t.lookup(&k1), Some(s1));
}

#[test]
fn page_table_capacity_exhausted() {
    let mut t = PageTableManager::new(1);
    let k1 = key(1, 0, 0, 0);
    let k2 = key(1, 1, 0, 0);
    let pinned = vec![k1];
    let s1 = t.allocate(k1, &pinned).unwrap();
    assert!(t.complete_load(s1));
    // The only resident tile is pinned: no slot can be taken.
    assert!(t.allocate(k2, &pinned).is_err());
}

#[test]
fn eviction_keeps_recently_requested() {
    // Atlas with 4 slots; tiles 1..4 committed in order, tile 1 touched
    // again just before tile 5 arrives: eviction must not pick tile 1.
    let mut t = PageTableManager::new(4);
    let no_pins: Vec<PageTableKey> = Vec::new();
    let keys: Vec<PageTableKey> = (1..=5).map(|i| key(i, 0, 0, 0)).collect();
    for i in 0..4 {
        let s = t.allocate(keys[i], &no_pins).unwrap();
        assert!(t.complete_load(s));
        t.begin_frame();
    }
    // Tile 1 is requested again, so it is the most recently requested.
    t.touch(&keys[0]);
    t.begin_frame();
    let s5 = t.allocate(keys[4], &no_pins).unwrap();
    assert!(t.complete_load(s5));
    // Tile 1 survived; tile 2 (least recently requested) was evicted.
    assert!(t.lookup(&keys[0]).is_some());
    assert!(t.lookup(&keys[1]).is_none());
    assert!(t.lookup(&keys[4]).is_some());
}

#[test]
fn pinned_tile_never_evicted() {
    let mut t = PageTableManager::new(2);
    let no_pins: Vec<PageTableKey> = Vec::new();
    let k1 = key(1, 0, 0, 0);
    let k2 = key(2, 0, 0, 0);
    let k3 = key(3, 0, 0, 0);
    let s1 = t.allocate(k1, &no_pins).unwrap();
    assert!(t.complete_load(s1));
    t.begin_frame();
    let s2 = t.allocate(k2, &no_pins).unwrap();
    assert!(t.complete_load(s2));
    t.begin_frame();
    // k1 is older, but the current frame pins it: k2 must go instead.
    let pinned = vec![k1];
    let s3 = t.allocate(k3, &pinned).unwrap();
    assert!(t.complete_load(s3));
    assert!(t.lookup(&k1).is_some());
    assert!(t.lookup(&k2).is_none());
}

#[test]
fn slot_states_move_through_loading() {
    let mut t = PageTableManager::new(1);
    let k1 = key(1, 0, 0, 0);
    let no_pins: Vec<PageTableKey> = Vec::new();
    let s = t.allocate(k1, &no_pins).unwrap();
    // While loading, the tile is not resident yet.
    assert!(t.lookup(&k1).is_none());
    assert!(t.fail_load(s));
    // After a failed load the slot is free again.
    let s2 = t.allocate(k1, &no_pins).unwrap();
    assert!(t.complete_load(s2));
    assert!(t.lookup(&k1).is_some());
}

#[test]
fn commit_respects_budget() {
    let mut t = PageTableManager::new(8);
    let mut s = StreamingScheduler::new(3);
    let pixels = vec![
        encode_feedback_pixel(1, 0, 0, 0),
        encode_feedback_pixel(2, 0, 0, 0),
        encode_feedback_pixel(3, 0, 0, 0),
    ];
    let reqs = decode_feedback(&pixels, 0);
    s.enqueue_requests(&reqs, &t);
    assert_eq!(s.job_count(), 3);
    while let Some((i, _)) = s.dispatch_next(0) {
        s.on_fetch_result(i, true, 0);
    }
    let no_pins: Vec<PageTableKey> = Vec::new();
    let n = virtual_texture::scheduler::commit_ready_jobs(&mut s, &mut t, &no_pins, 2);
    assert_eq!(n, 2);
    assert_eq!(s.job_count(), 1);
}

#[test]
fn handle_ids_count_per_family() {
    let mut m = virtual_texture::handle::HandleManager::new();
    let t1 = m.next_texture();
    let t2 = m.next_texture();
    let v1 = m.next_virtual_texture();
    let b1 = m.next_buffer();
    assert_eq!(t1.id(), 1);
    assert_eq!(t2.id(), 2);
    assert_eq!(v1.id(), 1);
    assert_eq!(b1.id(), 1);
    assert!(b1.only_self());
    let b2 = b1.clone();
    assert_eq!(b1.strong_cout(), 2);
    assert!(!b2.only_self());
}

#[test]
fn dispatch_prefers_coarser_levels() {
    // The finest pixel's chain arrives finest-first, but dispatch hands
    // the coarsest due job out first, so a fallback streams before the
    // fine tile.
    let table = PageTableManager::new(4);
    let mut s = StreamingScheduler::new(3);
    let p = encode_feedback_pixel(7, 3, 3, 0);
    let reqs = decode_feedback(&vec![p], 2);
    s.enqueue_requests(&reqs, &table);
    assert_eq!(s.job_count(), 3);
    let (_, first) = s.dispatch_next(0).unwrap();
    let (_, second) = s.dispatch_next(0).unwrap();
    let (_, third) = s.dispatch_next(0).unwrap();
    assert_eq!(first.tile.mip_level, 2);
    assert_eq!(second.tile.mip_level, 1);
    assert_eq!(third.tile.mip_level, 0);
}

#[test]
fn commit_drops_and_goes_on() {
    // One slot, held by a pinned tile. Of the three ready jobs, the
    // uncommittable one and the redundant one are dropped without
    // consuming budget, and committing goes on past them.
    let mut t = PageTableManager::new(2);
    let pinned = vec![key(1, 0, 0, 0), key(2, 0, 0, 0)];
    let s0 = t.allocate(pinned[0], &Vec::new()).unwrap();
    assert!(t.complete_load(s0));
    let mut s = StreamingScheduler::new(3);
    let pixels = vec![
        encode_feedback_pixel(1, 0, 0, 0), // already bound: redundant
        encode_feedback_pixel(2, 0, 0, 0), // takes the one free slot
        encode_feedback_pixel(3, 0, 0, 0), // everything pinned: dropped
    ];
    let reqs = decode_feedback(&pixels, 0);
    let empty_table = PageTableManager::new(0);
    s.enqueue_requests(&reqs, &empty_table);
    assert_eq!(s.job_count(), 3);
    while let Some((i, _)) = s.dispatch_next(0) {
        s.on_fetch_result(i, true, 0);
    }
    let n = virtual_texture::scheduler::commit_ready_jobs(&mut s, &mut t, &pinned, 5);
    // Exactly one upload was counted; every job was consumed, so neither
    // the redundant job nor the uncommittable one blocked the rest.
    assert_eq!(n, 1);
    assert_eq!(s.job_count(), 0);
    // The pinned tiles were never evicted.
    assert!(t.lookup(&pinned[0]).is_some());
    assert!(t.lookup(&pinned[1]).is_some());
    assert!(t.lookup(&key(3, 0, 0, 0)).is_none());
}

#[test]
fn dev_mode_flags() {
    assert!(!is_dev_mode(false, false, false, false));
    assert!(is_dev_mode(true, false, false, false));
    assert!(is_dev_mode(false, true, false, false));
    assert!(is_dev_mode(false, false, true, false));
    assert!(is_dev_mode(false, false, false, true));
}
