use hexworld::chunk::Chunk;
use hexworld::coords::{AxialPoint, ChunkIndex, PillarIndex, CHUNK_SIZE};
use hexworld::gen::{ChunkProvider, WorldGenerator};
use hexworld::pillar::{GroundMaterial, PropType};
use hexworld::trig::column_height;
use hexworld::world::World;

fn chunk_at(seed: u64, q: i32, r: i32) -> Chunk {
    let gen = WorldGenerator::with_seed(seed);
    gen.load_chunk(ChunkIndex(AxialPoint { q, r }))
        .expect("generator provides every chunk")
}

#[test]
fn seed_accessors() {
    let gen = WorldGenerator::with_seed(7);
    assert_eq!(gen.seed(), 7);
}

#[test]
fn every_chunk_is_loadable() {
    let gen = WorldGenerator::with_seed(3);
    assert!(gen.is_chunk_loadable(ChunkIndex(AxialPoint { q: 0, r: 0 })));
    assert!(gen.is_chunk_loadable(ChunkIndex(AxialPoint { q: -1000, r: 1000 })));
}

#[test]
fn generation_is_deterministic() {
    // Same seed and index: bit-identical chunks, twice from one generator
    // and from two independently built generators.
    let a = chunk_at(42, 2, -3);
    let b = chunk_at(42, 2, -3);
    assert!(a == b);
    let gen2 = WorldGenerator::with_seed(42);
    let c = gen2
        .load_chunk(ChunkIndex(AxialPoint { q: 2, r: -3 }))
        .unwrap();
    assert!(a == c);
}

#[test]
fn different_seeds_differ_at_tree_columns() {
    // The height field ignores the seed, but plant draws do not.
    let a = chunk_at(1, 0, 0);
    let b = chunk_at(2, 0, 0);
    let pa = &a.pillars()[0].props()[0];
    let pb = &b.pillars()[0].props()[0];
    let (PropType::Plant(plant_a), PropType::Plant(plant_b)) = (&pa.prop, &pb.prop);
    assert!(
        plant_a.trunk_height != plant_b.trunk_height
            || plant_a.branch_count != plant_b.branch_count
            || plant_a.leaf_spread != plant_b.leaf_spread
    );
}

#[test]
fn tiling_continuity_across_chunk_boundary() {
    // Columns on both sides of the x-boundary between chunks (0,0) and
    // (1,0) carry exactly the heights of the global height field.
    let left = chunk_at(42, 0, 0);
    let right = chunk_at(42, 1, 0);
    for r in 0..CHUNK_SIZE {
        let last_left = &left.pillars()[15 * CHUNK_SIZE + r];
        let first_right = &right.pillars()[r];
        assert_eq!(last_left.sections()[0].top.0, column_height(15, r as i64));
        assert_eq!(first_right.sections()[0].top.0, column_height(16, r as i64));
    }
}

#[test]
fn origin_column_scenario() {
    // Seed 42, chunk (0,0): column (0,0) has height
    // round(sin(0)*10 + sin(0)*10 + 100) = 100, one solid Dirt section
    // [0,100), and exactly one plant prop with baseline 100.
    let c = chunk_at(42, 0, 0);
    let pillar = &c.pillars()[0];
    assert_eq!(pillar.sections().len(), 1);
    let s = &pillar.sections()[0];
    assert_eq!(s.bottom.0, 0);
    assert_eq!(s.top.0, 100);
    assert!(s.ground == GroundMaterial::Dirt);
    assert_eq!(pillar.props().len(), 1);
    let prop = &pillar.props()[0];
    assert_eq!(prop.baseline.0, 100);
    let PropType::Plant(_) = prop.prop;
}

#[test]
fn trees_only_on_spaced_columns() {
    let c = chunk_at(42, 0, 0);
    for q in 0..CHUNK_SIZE {
        for r in 0..CHUNK_SIZE {
            let pillar = &c.pillars()[q * CHUNK_SIZE + r];
            let expected = q % 8 == 0 && r % 8 == 0;
            assert_eq!(pillar.props().len(), if expected { 1 } else { 0 });
        }
    }
}

#[test]
fn plant_parameters_in_range() {
    let c = chunk_at(9001, 0, 0);
    for pillar in c.pillars() {
        for prop in pillar.props() {
            let PropType::Plant(p) = prop.prop;
            assert!(p.trunk_height >= 2 && p.trunk_height < 8);
            assert!(p.branch_count >= 2 && p.branch_count < 7);
            assert!(p.leaf_spread >= 4 && p.leaf_spread < 11);
        }
    }
}

#[test]
fn heights_bounded_on_negative_chunks() {
    let c = chunk_at(5, -1, -1);
    for pillar in c.pillars() {
        let top = pillar.sections()[0].top.0;
        assert!((80..=120).contains(&top));
    }
}

#[test]
fn world_loads_lazily() {
    let mut world = World::new(WorldGenerator::with_seed(42));
    let pos = PillarIndex(AxialPoint { q: 0, r: 0 });
    assert!(world.pillar_at(pos).is_none());
    assert!(world.load(ChunkIndex(AxialPoint { q: 0, r: 0 })));
    let pillar = world.pillar_at(pos).expect("chunk is loaded now");
    assert_eq!(pillar.sections()[0].top.0, 100);
    // Loading again is a no-op and still reports presence.
    assert!(world.load(ChunkIndex(AxialPoint { q: 0, r: 0 })));
}

#[test]
fn world_lookup_spans_chunks() {
    let mut world = World::new(WorldGenerator::with_seed(42));
    world.load(ChunkIndex(AxialPoint { q: -1, r: 0 }));
    let pillar = world
        .pillar_at(PillarIndex(AxialPoint { q: -3, r: 5 }))
        .expect("coordinate (-3, 5) lies in chunk (-1, 0)");
    assert_eq!(pillar.sections()[0].top.0, column_height(-3, 5));
}
