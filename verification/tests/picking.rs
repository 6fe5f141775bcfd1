use hexworld::chunk::Chunk;
use hexworld::coords::{AxialPoint, ChunkIndex, HeightType, Position3, CHUNK_SIZE, FIX_ONE};
use hexworld::gen::WorldGenerator;
use hexworld::pillar::{GroundMaterial, HexPillar, PillarSection};
use hexworld::world::World;

/// A world whose chunk (0,0) holds the given sections in column (0,0)
/// and air everywhere else.
fn staged_world(sections: Vec<PillarSection>) -> World<WorldGenerator> {
    let mut pillars = Vec::new();
    pillars.push(HexPillar::new(sections, vec![]));
    for _ in 1..CHUNK_SIZE * CHUNK_SIZE {
        pillars.push(HexPillar::new(vec![], vec![]));
    }
    let chunk = Chunk::from_pillars(pillars);
    let mut world = World::new(WorldGenerator::with_seed(1));
    assert!(world.insert_chunk(ChunkIndex(AxialPoint { q: 0, r: 0 }), chunk));
    world
}

fn two_runs() -> Vec<PillarSection> {
    vec![
        PillarSection::new(GroundMaterial::Dirt, HeightType(0), HeightType(50)),
        PillarSection::new(GroundMaterial::Dirt, HeightType(60), HeightType(80)),
    ]
}

fn at_origin(height_units: i64) -> Position3 {
    Position3 { x: 0, y: 0, z: height_units * FIX_ONE }
}

#[test]
fn pick_nearest_hit_wins() {
    // A ray crossing both [0,50) and [60,80): the sample inside [0,50)
    // comes first in ray order, so the pick lands there, never in
    // [60,80).
    let world = staged_world(two_runs());
    let samples = vec![at_origin(40), at_origin(70)];
    let (hex, height) = world.pick(&samples).expect("the ray crosses material");
    assert!(hex == AxialPoint { q: 0, r: 0 });
    assert!(height.0 > 0 && height.0 < 50);
    assert_eq!(height.0, 40);
}

#[test]
fn pick_scans_in_ray_order_past_misses() {
    let world = staged_world(two_runs());
    let samples = vec![at_origin(55), at_origin(90), at_origin(70)];
    let (_, height) = world.pick(&samples).expect("the third sample hits");
    assert_eq!(height.0, 70);
}

#[test]
fn pick_without_hit_is_none() {
    let world = staged_world(two_runs());
    let samples = vec![at_origin(55), at_origin(90), at_origin(200)];
    assert!(world.pick(&samples).is_none());
    assert!(world.pick(&vec![]).is_none());
}

#[test]
fn pick_boundaries_are_exclusive() {
    // Containment is strict on both ends: the snapped heights 0 and 50
    // of [0,50) do not count as inside.
    let world = staged_world(two_runs());
    assert!(world.pick(&vec![at_origin(0)]).is_none());
    assert!(world.pick(&vec![at_origin(50)]).is_none());
    assert!(world.pick(&vec![at_origin(49)]).is_some());
    assert!(world.pick(&vec![at_origin(1)]).is_some());
}

#[test]
fn pick_snaps_height_down_to_step() {
    let world = staged_world(two_runs());
    // A sample at 40.75 units lies in step 40.
    let sample = Position3 { x: 0, y: 0, z: 40 * FIX_ONE + (FIX_ONE * 3) / 4 };
    let (_, height) = world.pick(&vec![sample]).unwrap();
    assert_eq!(height.0, 40);
}

#[test]
fn pick_treats_unloaded_chunk_as_miss() {
    let world = staged_world(two_runs());
    // The first sample lies far away in a chunk never loaded: no error,
    // the march continues and the second sample hits.
    let far = Position3 { x: 4000 * FIX_ONE, y: 4000 * FIX_ONE, z: 10 * FIX_ONE };
    let (hex, height) = world.pick(&vec![far, at_origin(40)]).unwrap();
    assert!(hex == AxialPoint { q: 0, r: 0 });
    assert_eq!(height.0, 40);
}

#[test]
fn pick_on_generated_terrain() {
    let mut world = World::new(WorldGenerator::with_seed(42));
    world.load(ChunkIndex(AxialPoint { q: 0, r: 0 }));
    // Column (0,0) is solid Dirt up to 100: a sample inside hits it.
    let (hex, height) = world.pick(&vec![at_origin(97)]).unwrap();
    assert!(hex == AxialPoint { q: 0, r: 0 });
    assert_eq!(height.0, 97);
}
