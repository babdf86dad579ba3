use tileworld::cell::Cell;
use tileworld::cell::DataError;
use tileworld::image::COPPER;
use tileworld::image::DIRT;
use tileworld::image::GOLD;
use tileworld::image::GRASS;
use tileworld::image::IRON;
use tileworld::image::MultiImage;
use tileworld::image::OAK_1_1;
use tileworld::image::OAK_1_1_RED;
use tileworld::image::OAK_1_1_SMALL;
use tileworld::image::PINE_1_1;
use tileworld::image::STONE;
use tileworld::image::WATER;
use tileworld::map::World;
use tileworld::noise::ChunkNoise;
use tileworld::tile::Tile;

fn tile(bg: Option<u16>, fg: Option<u16>) -> Tile {
    Tile { bg, fg }
}

fn uniform_noise(th: i16, soil: i16, veg: i16, iron: i16, copper: i16, gold: i16) -> ChunkNoise {
    ChunkNoise::new(
        vec![th; 1024],
        vec![soil; 1024],
        vec![veg; 1024],
        vec![iron; 32768],
        vec![copper; 32768],
        vec![gold; 32768],
    )
    .unwrap()
}

#[test]
fn world_set_then_get_cached() {
    let mut w = World::new();
    assert_eq!(w.get_cached(-100, 50, -3), None);
    w.set(-100, 50, -3, tile(Some(1), Some(2)));
    w.set(0, 0, 0, tile(None, None));
    w.set(-100, 50, -3, tile(Some(9), None));
    assert_eq!(w.get_cached(-100, 50, -3), Some(tile(Some(9), None)));
    assert_eq!(w.get_cached(0, 0, 0), Some(tile(None, None)));
    assert_eq!(w.get_cached(-100, 50, -2), None);
}

#[test]
fn terrain_layers_above_and_below_surface() {
    let noise = uniform_noise(10, 1, 30, 1, 1, 1);
    let mut w = World::new();
    // above the surface of dry land: air
    assert_eq!(w.get(0, 0, 11, &noise), tile(None, None));
    // the surface itself: grass, vegetation bucket 30 leaves no foliage
    assert_eq!(w.get(0, 0, 10, &noise), tile(Some(GRASS), None));
    // the soil layer just below: dirt
    assert_eq!(w.get(0, 0, 9, &noise), tile(Some(DIRT), None));
    // deeper: plain stone when no ore noise is negative
    assert_eq!(w.get(0, 0, 8, &noise), tile(Some(STONE), None));
    assert_eq!(w.get(0, 0, 0, &noise), tile(Some(STONE), None));
}

#[test]
fn water_covers_columns_below_sea_level() {
    let noise = uniform_noise(-5, 1, 30, 1, 1, 1);
    let mut w = World::new();
    assert_eq!(w.get(0, 0, 0, &noise), tile(Some(WATER), None));
    assert_eq!(w.get(3, 4, -2, &noise), tile(Some(WATER), None));
    // the submerged surface is dirt, not grass
    assert_eq!(w.get(0, 0, -5, &noise), tile(Some(DIRT), None));
}

#[test]
fn vegetation_buckets_select_foliage() {
    for (veg, fg) in [
        (0i16, Some(PINE_1_1)),
        (10, Some(PINE_1_1)),
        (24, Some(PINE_1_1)),
        (25, Some(OAK_1_1)),
        (26, Some(OAK_1_1_RED)),
        (27, Some(OAK_1_1_SMALL)),
        (28, None),
        (-1, None),
    ] {
        let noise = uniform_noise(0, 1, veg, 1, 1, 1);
        let mut w = World::new();
        assert_eq!(w.get(0, 0, 0, &noise), tile(Some(GRASS), fg));
    }
}

#[test]
fn ore_precedence_gold_over_copper_over_iron() {
    // all three ore noises negative at a rock cell: gold wins
    let mut w = World::new();
    assert_eq!(
        w.get(0, 0, 0, &uniform_noise(10, 1, 30, -1, -1, -1)),
        tile(Some(GOLD), None)
    );
    // only iron negative: iron
    let mut w2 = World::new();
    assert_eq!(
        w2.get(0, 0, 0, &uniform_noise(10, 1, 30, -1, 1, 1)),
        tile(Some(IRON), None)
    );
    // iron and copper negative: copper beats iron
    let mut w3 = World::new();
    assert_eq!(
        w3.get(0, 0, 0, &uniform_noise(10, 1, 30, -1, -1, 1)),
        tile(Some(COPPER), None)
    );
    // copper and gold negative: gold beats copper
    let mut w4 = World::new();
    assert_eq!(
        w4.get(0, 0, 0, &uniform_noise(10, 1, 30, 1, -1, -1)),
        tile(Some(GOLD), None)
    );
}

#[test]
fn ore_tallies_count_rock_cells() {
    // surface at 10, soil 1: in the chunk spanning world z 0..32 the rock
    // cells are those with z below 9, nine full layers
    let noise = uniform_noise(10, 1, 30, 1, 1, -1);
    let mut w = World::new();
    w.get(0, 0, 0, &noise);
    assert_eq!(w.gold_ore_count, 9 * 1024);
    assert_eq!(w.iron_ore_count, 0);
    assert_eq!(w.copper_ore_count, 0);
    // the chunk is memoized: another lookup discovers nothing new
    w.get(1, 2, 3, &noise);
    assert_eq!(w.gold_ore_count, 9 * 1024);
}

#[test]
fn edit_precedence_over_generated_terrain() {
    let noise = uniform_noise(10, 1, 30, 1, 1, 1);
    let mut w = World::new();
    // generate first, then edit: the edit wins
    assert_eq!(w.get(0, 0, 10, &noise), tile(Some(GRASS), None));
    w.set(0, 0, 10, tile(Some(WATER), Some(7)));
    assert_eq!(w.get(0, 0, 10, &noise), tile(Some(WATER), Some(7)));
    assert_eq!(w.get_cached(0, 0, 10), Some(tile(Some(WATER), Some(7))));
    // edit first, then generate around it: the edit still wins
    let mut w2 = World::new();
    w2.set(5, 5, 10, tile(None, None));
    assert_eq!(w2.get(5, 5, 10, &noise), tile(None, None));
    // the neighbour is generated normally
    assert_eq!(w2.get(6, 5, 10, &noise), tile(Some(GRASS), None));
}

#[test]
fn generation_is_memoized_per_chunk() {
    let noise = uniform_noise(10, 1, 30, 1, 1, 1);
    let other = uniform_noise(-5, 1, 30, 1, 1, 1);
    let mut w = World::new();
    assert_eq!(w.get(0, 0, 10, &noise), tile(Some(GRASS), None));
    // the chunk is cached, so different noise for the same chunk is ignored
    assert_eq!(w.get(1, 1, 10, &other), tile(Some(GRASS), None));
}

#[test]
fn generation_deterministic_across_restart() {
    // the same seeds produce the same buffers, and equal buffers produce
    // equal tiles, as for a fresh process reading the same world
    let sample = || {
        let (h, _, _) = simdnoise::NoiseBuilder::fbm_2d_offset(0.0, 32, 0.0, 32)
            .with_freq(0.04)
            .with_octaves(5)
            .with_lacunarity(0.4)
            .with_seed(1)
            .generate();
        let (ore, _, _) = simdnoise::NoiseBuilder::fbm_3d_offset(0.0, 32, 0.0, 32, 0.0, 32)
            .with_freq(0.06)
            .with_octaves(2)
            .with_lacunarity(0.4)
            .with_seed(3)
            .generate();
        let th: Vec<i16> = h
            .iter()
            .map(|v| ((v + 0.66) / 1.32 * 24.0 - 8.0) as i16)
            .collect();
        let ores: Vec<i16> = ore
            .iter()
            .map(|v| ((v + 0.0911) / 0.1822 * 26.0 - 6.0) as i16)
            .collect();
        ChunkNoise::new(
            th,
            vec![2; 1024],
            vec![30; 1024],
            ores.clone(),
            ores.clone(),
            ores,
        )
        .unwrap()
    };
    let n1 = sample();
    let n2 = sample();
    let mut w1 = World::new();
    let mut w2 = World::new();
    for (x, y, z) in [(0, 0, 0), (5, 7, -3), (31, 31, 31), (12, 0, 8)] {
        let t1 = w1.get(x, y, z, &n1);
        let t2 = w2.get(x, y, z, &n2);
        assert_eq!(t1, t2);
        // and a repeated lookup in the same world returns the same tile
        assert_eq!(w1.get(x, y, z, &n1), t1);
    }
}

#[test]
fn persistence_round_trip_reproduces_edits() {
    let mut w = World::new();
    let edits = [
        (0, 0, 0, tile(Some(1), None)),
        (-1, -1, -1, tile(Some(2), Some(3))),
        (100, -50, 3, tile(None, Some(4))),
        (31, 31, 31, tile(None, None)),
        (32, 0, 0, tile(Some(65535), Some(0))),
    ];
    for (x, y, z, t) in edits {
        w.set(x, y, z, t);
    }
    // generated terrain must not be persisted
    let noise = uniform_noise(10, 1, 30, 1, 1, 1);
    w.get(500, 500, 10, &noise);
    let rows = w.store();
    let mut fresh = World::new();
    assert_eq!(fresh.parse_table(&rows), Ok(()));
    for (x, y, z, t) in edits {
        assert_eq!(fresh.get_cached(x, y, z), Some(t));
    }
    assert_eq!(fresh.get_cached(1, 0, 0), None);
    assert_eq!(fresh.get_cached(500, 500, 10), None);
}

#[test]
fn parse_table_is_all_or_nothing() {
    let mut w = World::new();
    w.set(7, 8, 9, tile(Some(1), None));
    let mut rows = w.store();
    assert_eq!(rows.len(), 1);
    let mut bad = rows[0].clone();
    bad[0] = Cell::Str("seven".to_string());
    rows.push(bad);
    let mut fresh = World::new();
    assert_eq!(fresh.parse_table(&rows), Err(DataError::MalformedRow));
    // the valid first row was not applied either
    assert_eq!(fresh.get_cached(7, 8, 9), None);
}

#[test]
fn parse_table_merges_rows_later_rows_win() {
    let mut w1 = World::new();
    w1.set(1, 2, 3, tile(Some(5), None));
    let mut rows = w1.store();
    let mut w2 = World::new();
    w2.set(1, 2, 3, tile(Some(6), None));
    w2.set(1, 3, 3, tile(Some(7), None));
    let mut more = w2.store();
    rows.append(&mut more);
    let mut fresh = World::new();
    assert_eq!(fresh.parse_table(&rows), Ok(()));
    assert_eq!(fresh.get_cached(1, 2, 3), Some(tile(Some(6), None)));
    assert_eq!(fresh.get_cached(1, 3, 3), Some(tile(Some(7), None)));
}

#[test]
fn set_multi_fg_places_constituent_sprites() {
    // two cells stacked vertically in the atlas: ids 16 and 32
    let multi = MultiImage::new(vec![(0, 1), (0, 2)]);
    assert_eq!(multi.image_ids, vec![16, 32]);
    assert_eq!(multi.size_x, 1);
    assert_eq!(multi.size_y, 3);
    let mut w = World::new();
    w.set_multi_fg(10, 10, 0, multi);
    assert_eq!(w.get_cached(10, 10, 0), Some(tile(Some(GRASS), Some(16))));
    assert_eq!(w.get_cached(10, 11, 0), Some(tile(Some(GRASS), Some(32))));
    assert_eq!(w.get_cached(10, 9, 0), None);
    assert_eq!(w.get_cached(11, 10, 0), None);
}

#[test]
fn multi_id_lookup_finds_first_containing_composite() {
    let multis = vec![
        MultiImage::new(vec![(0, 1), (0, 2)]),
        MultiImage::new(vec![(1, 2), (1, 3)]),
        MultiImage::new(vec![(0, 2)]),
    ];
    assert_eq!(MultiImage::multi_id_from_image_id(16, &multis), Some(0));
    assert_eq!(MultiImage::multi_id_from_image_id(32, &multis), Some(0));
    assert_eq!(MultiImage::multi_id_from_image_id(17 + 16, &multis), Some(1));
    assert_eq!(MultiImage::multi_id_from_image_id(200, &multis), None);
}

#[test]
fn reverse_map_later_composite_wins() {
    let multis = vec![
        MultiImage::new(vec![(0, 1), (0, 2)]),
        MultiImage::new(vec![(0, 2), (1, 2)]),
    ];
    let rev = MultiImage::generate_multi_reverse_map(&multis);
    assert_eq!(rev.len(), 256);
    let p16 = rev[16].unwrap();
    assert_eq!(p16.image_id, 0);
    assert_eq!((p16.dx, p16.dy), (0, 0));
    // atlas cell (0, 2) belongs to both composites; the later one wins
    let p32 = rev[32].unwrap();
    assert_eq!(p32.image_id, 1);
    assert_eq!((p32.dx, p32.dy), (0, 0));
    let p33 = rev[33].unwrap();
    assert_eq!(p33.image_id, 1);
    assert_eq!((p33.dx, p33.dy), (1, 0));
    assert!(rev[0].is_none());
    assert!(rev[255].is_none());
}
