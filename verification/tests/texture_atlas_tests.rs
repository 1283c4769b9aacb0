use hearth_engine::preallocated_texture_atlas::{AtlasUV, PreallocatedTextureAtlas, MAX_MATERIALS};

fn solid(width: u32, height: u32, value: u8) -> Vec<u8> {
    vec![value; (width * height * 4) as usize]
}

#[test]
fn atlas_size_is_clamped_to_device_limit() {
    let atlas = PreallocatedTextureAtlas::new(32, 64, 16);
    let stats = atlas.stats();
    assert_eq!(stats.atlas_size, 32);
    assert_eq!(stats.materials_count, 0);
    assert_eq!(stats.used_area, 0);
    assert_eq!(stats.total_area, 32 * 32);
    assert_eq!(atlas.pixels().len(), 32 * 32 * 4);
    assert!(atlas.pixels().iter().all(|b| *b == 0));
}

#[test]
fn materials_are_packed_first_fit_with_padding() {
    let mut atlas = PreallocatedTextureAtlas::new(4096, 64, 16);
    let a = atlas.add_material("stone", 4, 4, &solid(4, 4, 1));
    assert_eq!(a, Some(0));
    assert_eq!(atlas.get_uv(0), Some(AtlasUV { min_x: 2, min_y: 2, max_x: 6, max_y: 6 }));
    let b = atlas.add_material("dirt", 4, 4, &solid(4, 4, 2));
    assert_eq!(b, Some(1));
    // The padded candidate at x = 10 is the first that clears the first tile.
    assert_eq!(atlas.get_uv(1), Some(AtlasUV { min_x: 12, min_y: 2, max_x: 16, max_y: 6 }));
    assert_eq!(atlas.get_uv(2), None);
    assert_eq!(atlas.get_uv(MAX_MATERIALS as u32 + 5), None);
    let stats = atlas.stats();
    assert_eq!(stats.materials_count, 2);
    assert_eq!(stats.used_area, 32);
}

#[test]
fn material_lookup_by_name() {
    let mut atlas = PreallocatedTextureAtlas::new(4096, 64, 16);
    atlas.add_material("grass", 2, 2, &solid(2, 2, 9));
    atlas.add_material("sand", 2, 2, &solid(2, 2, 8));
    atlas.add_material("grass", 2, 2, &solid(2, 2, 7));
    assert_eq!(atlas.get_material_by_name("grass"), Some(0));
    assert_eq!(atlas.get_material_by_name("sand"), Some(1));
    assert_eq!(atlas.get_material_by_name("water"), None);
}

#[test]
fn tile_without_room_is_refused() {
    let mut atlas = PreallocatedTextureAtlas::new(4096, 10, 16);
    assert_eq!(atlas.add_material("big", 6, 6, &solid(6, 6, 3)), None);
    assert_eq!(atlas.stats().materials_count, 0);
    assert!(!atlas.take_dirty());
    // A 5 by 5 tile leaves one candidate row and column.
    assert_eq!(atlas.add_material("fits", 5, 5, &solid(5, 5, 3)), Some(0));
    assert_eq!(atlas.get_uv(0), Some(AtlasUV { min_x: 2, min_y: 2, max_x: 7, max_y: 7 }));
    let mut roomy = PreallocatedTextureAtlas::new(4096, 10, 16);
    assert_eq!(roomy.add_material("fits", 4, 4, &solid(4, 4, 3)), Some(0));
    assert_eq!(roomy.add_material("second", 1, 1, &solid(1, 1, 3)), None);
}

#[test]
fn pixels_are_copied_into_the_tile() {
    let mut atlas = PreallocatedTextureAtlas::new(4096, 16, 16);
    let image: Vec<u8> = (0u8..16).collect();
    assert_eq!(atlas.add_material("checker", 2, 2, &image), Some(0));
    let size = 16usize;
    let pixels = atlas.pixels();
    for y in 0..2usize {
        for x in 0..2usize {
            for c in 0..4usize {
                let dst = ((2 + y) * size + 2 + x) * 4 + c;
                assert_eq!(pixels[dst], image[(y * 2 + x) * 4 + c]);
            }
        }
    }
    let written: usize = pixels.iter().filter(|b| **b != 0).count();
    assert_eq!(written, 15);
    assert!(atlas.take_dirty());
    assert!(!atlas.take_dirty());
}

#[test]
fn clear_removes_materials_and_pixels() {
    let mut atlas = PreallocatedTextureAtlas::new(4096, 32, 16);
    atlas.add_material("a", 3, 3, &solid(3, 3, 200));
    atlas.take_dirty();
    atlas.clear();
    assert_eq!(atlas.get_uv(0), None);
    assert_eq!(atlas.get_material_by_name("a"), None);
    assert_eq!(atlas.stats().materials_count, 0);
    assert!(atlas.pixels().iter().all(|b| *b == 0));
    assert!(atlas.take_dirty());
    assert_eq!(atlas.add_material("b", 3, 3, &solid(3, 3, 1)), Some(0));
    assert_eq!(atlas.get_uv(0), Some(AtlasUV { min_x: 2, min_y: 2, max_x: 5, max_y: 5 }));
}
