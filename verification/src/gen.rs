//! Procedurally generating the game world.
//!
//! Generation is pure and deterministic: the same `(seed, chunk index)`
//! always yields the same chunk, independent of call order, because the
//! height field depends on global coordinates alone and all randomness is
//! derived per column from `(seed, tag, coordinates)`.

use crate::chunk::Chunk;
use crate::coords::{floor_mod_i64, ChunkIndex, HeightType, CHUNK_SIZE};
use crate::pillar::{GroundMaterial, HexPillar, PillarModel, PillarSection, Plant, Prop, PropType};
use crate::rng::{spec_mix64, spec_rng_next_state, spec_rng_output, spec_seeded_state, GenRng, TREE_TAG};
use crate::trig::{column_height, spec_column_height};
use vstd::prelude::*;

verus! {

/// Spacing of generated trees: a plant stands on every column whose
/// global coordinates are both multiples of this constant.
pub const TREE_SPACING: i64 = 8;

/// Whether a tree stands at global column `(i, j)`.
pub open spec fn spec_tree_at(i: int, j: int) -> bool {
    i % (TREE_SPACING as int) == 0 && j % (TREE_SPACING as int) == 0
}

/// The plant descriptor drawn from a freshly seeded generator: three
/// draws pick the shape parameters, each within its fixed range.
pub open spec fn spec_plant_from(state: u64) -> Plant {
    let d0 = spec_rng_output(state);
    let s1 = spec_rng_next_state(state);
    let d1 = spec_rng_output(s1);
    let s2 = spec_rng_next_state(s1);
    let d2 = spec_rng_output(s2);
    Plant {
        trunk_height: (2 + d0 % 6) as u16,
        branch_count: (2 + d1 % 5) as u8,
        leaf_spread: (4 + d2 % 7) as u8,
    }
}

/// The model of the column at global coordinates `(i, j)` for a world
/// seed: one solid Dirt section from the ground up to the height field,
/// plus a plant prop on tree-spaced columns.
pub open spec fn spec_column(seed: u64, i: int, j: int) -> PillarModel {
    let h = spec_column_height(i, j);
    PillarModel {
        sections: seq![
            PillarSection {
                ground: GroundMaterial::Dirt,
                bottom: HeightType(0u16),
                top: HeightType(h as u16),
            },
        ],
        props: if spec_tree_at(i, j) {
            seq![
                Prop {
                    baseline: HeightType(h as u16),
                    prop: PropType::Plant(
                        spec_plant_from(spec_seeded_state(seed, TREE_TAG, i, j)),
                    ),
                },
            ]
        } else {
            Seq::empty()
        },
    }
}

/// The model of the whole chunk at a chunk index: row-major over local
/// offsets, `q` outer and `r` inner.
pub open spec fn spec_chunk(seed: u64, index: ChunkIndex) -> Seq<PillarModel> {
    Seq::new(
        (CHUNK_SIZE * CHUNK_SIZE) as nat,
        |k: int|
            spec_column(
                seed,
                index.0.q * (CHUNK_SIZE as int) + k / (CHUNK_SIZE as int),
                index.0.r * (CHUNK_SIZE as int) + k % (CHUNK_SIZE as int),
            ),
    )
}

/// The chunk-loading capability: produce or fetch a chunk on demand.
/// `chunk_spec` is the provider's content as a mathematical function;
/// `None` signals permanent unavailability of that chunk.
pub trait ChunkProvider: Sized {
    spec fn chunk_spec(&self, index: ChunkIndex) -> Option<Seq<PillarModel>>;

    /// Produce or fetch the chunk at `index`.
    fn load_chunk(&self, index: ChunkIndex) -> (r: Option<Chunk>)
        ensures
            match r {
                Some(c) => self.chunk_spec(index) == Some(c@) && c.wf(),
                None => self.chunk_spec(index).is_none(),
            },
    ;

    /// Cheap, side-effect-free pre-check of `load_chunk`'s success.
    fn is_chunk_loadable(&self, index: ChunkIndex) -> (r: bool)
        ensures
            r == self.chunk_spec(index).is_some(),
    ;
}

/// Main type to generate the game world; implements [`ChunkProvider`].
pub struct WorldGenerator {
    seed: u64,
}

impl WorldGenerator {
    /// The seed as a spec value.
    pub closed spec fn spec_seed(&self) -> u64 {
        self.seed
    }

    /// Creates the generator with the given seed.
    pub fn with_seed(seed: u64) -> (g: WorldGenerator)
        ensures
            g.spec_seed() == seed,
    {
        WorldGenerator { seed }
    }

    /// Returns the seed of this world generator.
    pub fn seed(&self) -> (s: u64)
        ensures
            s == self.spec_seed(),
    {
        self.seed
    }
}

/// Draws the three shape parameters of one plant; see [`spec_plant_from`].
fn gen_plant(rng: &mut GenRng) -> (p: Plant)
    ensures
        p == spec_plant_from(old(rng).state()),
{
    let d0 = rng.next_u64();
    let d1 = rng.next_u64();
    let d2 = rng.next_u64();
    Plant {
        trunk_height: (2 + d0 % 6) as u16,
        branch_count: (2 + d1 % 5) as u8,
        leaf_spread: (4 + d2 % 7) as u8,
    }
}

impl ChunkProvider for WorldGenerator {
    /// This generator can produce every chunk: the spec is total.
    open spec fn chunk_spec(&self, index: ChunkIndex) -> Option<Seq<PillarModel>> {
        Some(spec_chunk(self.spec_seed(), index))
    }

    #[verifier::rlimit(100)]
    fn load_chunk(&self, index: ChunkIndex) -> (r: Option<Chunk>) {
        let ghost model = spec_chunk(self.spec_seed(), index);
        let q0 = (index.0.q as i64) * (CHUNK_SIZE as i64);
        let r0 = (index.0.r as i64) * (CHUNK_SIZE as i64);
        let mut pillars: Vec<HexPillar> = Vec::new();
        let mut qi: usize = 0;
        while qi < CHUNK_SIZE
            invariant
                qi <= CHUNK_SIZE,
                q0 == index.0.q * (CHUNK_SIZE as int),
                r0 == index.0.r * (CHUNK_SIZE as int),
                model == spec_chunk(self.spec_seed(), index),
                pillars@.len() == qi * CHUNK_SIZE,
                forall|k: int|
                    0 <= k < pillars@.len() ==> (#[trigger] pillars@[k])@ == model[k]
                        && pillars@[k].wf(),
            decreases CHUNK_SIZE - qi,
        {
            let mut ri: usize = 0;
            while ri < CHUNK_SIZE
                invariant
                    qi < CHUNK_SIZE,
                    ri <= CHUNK_SIZE,
                    q0 == index.0.q * (CHUNK_SIZE as int),
                    r0 == index.0.r * (CHUNK_SIZE as int),
                    model == spec_chunk(self.spec_seed(), index),
                    pillars@.len() == qi * CHUNK_SIZE + ri,
                    forall|k: int|
                        0 <= k < pillars@.len() ==> (#[trigger] pillars@[k])@ == model[k]
                            && pillars@[k].wf(),
                decreases CHUNK_SIZE - ri,
            {
                let i = q0 + qi as i64;
                let j = r0 + ri as i64;
                let h = column_height(i, j);
                let mut sections: Vec<PillarSection> = Vec::new();
                sections.push(
                    PillarSection::new(
                        GroundMaterial::Dirt,
                        HeightType::from_units(0),
                        HeightType::from_units(h),
                    ),
                );
                let mut props: Vec<Prop> = Vec::new();
                if floor_mod_i64(i, TREE_SPACING) == 0 && floor_mod_i64(j, TREE_SPACING) == 0 {
                    let mut rng = GenRng::from_parts(self.seed, TREE_TAG, i, j);
                    let plant = gen_plant(&mut rng);
                    props.push(
                        Prop { baseline: HeightType::from_units(h), prop: PropType::Plant(plant) },
                    );
                }
                let pillar = HexPillar::new(sections, props);
                proof {
                    let k = qi * CHUNK_SIZE + ri;
                    assert(k / (CHUNK_SIZE as int) == qi && k % (CHUNK_SIZE as int) == ri)
                        by (nonlinear_arith)
                        requires
                            k == qi * CHUNK_SIZE + ri,
                            0 <= ri < CHUNK_SIZE,
                            0 <= qi,
                            CHUNK_SIZE == 16,
                    ;
                    assert(pillar@ == model[k as int]);
                }
                pillars.push(pillar);
                ri += 1;
            }
            qi += 1;
            proof {
                assert(qi * CHUNK_SIZE == (qi - 1) * CHUNK_SIZE + CHUNK_SIZE) by (nonlinear_arith);
            }
        }
        let c = Chunk::from_pillars(pillars);
        proof {
            assert(c@ =~= model);
        }
        Some(c)
    }

    fn is_chunk_loadable(&self, _index: ChunkIndex) -> (r: bool) {
        true
    }
}

/// Determinism of generation: two generators with the same seed describe
/// exactly the same world, chunk for chunk; together with `load_chunk`'s
/// contract, two calls on the same seed and index yield identical chunks.
pub proof fn lemma_generation_deterministic(
    a: WorldGenerator,
    b: WorldGenerator,
    index: ChunkIndex,
)
    requires
        a.spec_seed() == b.spec_seed(),
    ensures
        a.chunk_spec(index) == b.chunk_spec(index),
{
}

/// Tiling continuity: the column a chunk holds at some local offset is
/// exactly the column of the global, chunk-independent height field at
/// the corresponding global coordinates; two chunks that touch a shared
/// coordinate therefore agree with a single larger generation pass.
pub proof fn lemma_tiling_continuity(
    seed: u64,
    a: ChunkIndex,
    b: ChunkIndex,
    ka: int,
    kb: int,
)
    requires
        0 <= ka < CHUNK_SIZE * CHUNK_SIZE,
        0 <= kb < CHUNK_SIZE * CHUNK_SIZE,
        a.0.q * (CHUNK_SIZE as int) + ka / (CHUNK_SIZE as int) == b.0.q * (CHUNK_SIZE as int)
            + kb / (CHUNK_SIZE as int),
        a.0.r * (CHUNK_SIZE as int) + ka % (CHUNK_SIZE as int) == b.0.r * (CHUNK_SIZE as int)
            + kb % (CHUNK_SIZE as int),
    ensures
        spec_chunk(seed, a)[ka] == spec_chunk(seed, b)[kb],
{
}

} // verus!
