//! The world aggregate: chunks addressable by chunk index and materialized
//! lazily through a [`ChunkProvider`], pillar lookup by absolute hex
//! coordinate, excavation at a column, and the ray-pick query over a
//! marched sample sequence.

use crate::chunk::Chunk;
use crate::coords::{
    fixed_to_axial, floor_div_i64, floor_mod_i64, spec_fixed_to_axial, AxialPoint, ChunkIndex,
    HeightType, PillarIndex, Position2, Position3, CHUNK_SIZE, MAX_REAL_COORD, PILLAR_STEP_HEIGHT,
};
use crate::gen::ChunkProvider;
use crate::pillar::{excavate_splice, is_first_covering, HexPillar, NotFound, PillarModel};
use vstd::prelude::*;

verus! {

/// The chunk index containing an absolute hex coordinate: floor division
/// by the chunk edge length on both axes.
pub open spec fn spec_chunk_index_of(a: AxialPoint) -> ChunkIndex {
    ChunkIndex(
        AxialPoint {
            q: (a.q as int / (CHUNK_SIZE as int)) as i32,
            r: (a.r as int / (CHUNK_SIZE as int)) as i32,
        },
    )
}

/// The row-major index of an absolute hex coordinate inside its chunk.
pub open spec fn spec_local_index_of(a: AxialPoint) -> int {
    (a.q as int % (CHUNK_SIZE as int)) * (CHUNK_SIZE as int) + a.r as int % (CHUNK_SIZE as int)
}

/// Executable chunk index of an absolute coordinate.
pub fn chunk_index_of(a: AxialPoint) -> (ci: ChunkIndex)
    ensures
        ci == spec_chunk_index_of(a),
{
    let q = floor_div_i64(a.q as i64, CHUNK_SIZE as i64);
    let r = floor_div_i64(a.r as i64, CHUNK_SIZE as i64);
    ChunkIndex(AxialPoint { q: q as i32, r: r as i32 })
}

/// Executable local pillar index of an absolute coordinate.
pub fn local_index_of(a: AxialPoint) -> (k: usize)
    ensures
        k == spec_local_index_of(a),
        k < CHUNK_SIZE * CHUNK_SIZE,
{
    let lq = floor_mod_i64(a.q as i64, CHUNK_SIZE as i64);
    let lr = floor_mod_i64(a.r as i64, CHUNK_SIZE as i64);
    (lq * CHUNK_SIZE as i64 + lr) as usize
}

/// The first chunk stored under the given index, scanning the entry list
/// front to back.
pub open spec fn find_chunk(s: Seq<(ChunkIndex, Chunk)>, ci: ChunkIndex) -> Option<Chunk>
    decreases s.len(),
{
    if s.len() == 0 {
        None
    } else if s[0].0 == ci {
        Some(s[0].1)
    } else {
        find_chunk(s.drop_first(), ci)
    }
}

/// Appending an entry leaves every present index alone and adds the new
/// one when it was absent.
pub proof fn lemma_find_chunk_push(s: Seq<(ChunkIndex, Chunk)>, e: (ChunkIndex, Chunk), x: ChunkIndex)
    ensures
        find_chunk(s.push(e), x) == match find_chunk(s, x) {
            Some(c) => Some(c),
            None => if e.0 == x {
                Some(e.1)
            } else {
                None
            },
        },
    decreases s.len(),
{
    if s.len() == 0 {
        assert(s.push(e).drop_first() =~= s);
    } else {
        assert(s.push(e).drop_first() =~= s.drop_first().push(e));
        lemma_find_chunk_push(s.drop_first(), e, x);
    }
}

/// Replacing the chunk of the first entry holding a key changes lookups
/// of that key alone.
pub proof fn lemma_find_chunk_update(s: Seq<(ChunkIndex, Chunk)>, k: int, c2: Chunk, x: ChunkIndex)
    requires
        0 <= k < s.len(),
        forall|m: int| 0 <= m < k ==> (#[trigger] s[m]).0 != s[k].0,
    ensures
        find_chunk(s.update(k, (s[k].0, c2)), x) == if x == s[k].0 {
            Some(c2)
        } else {
            find_chunk(s, x)
        },
    decreases s.len(),
{
    let s2 = s.update(k, (s[k].0, c2));
    if k == 0 {
        assert(s2.drop_first() =~= s.drop_first());
    } else {
        assert(s2[0] == s[0]);
        assert(s2.drop_first() =~= s.drop_first().update(k - 1, (s[k].0, c2)));
        assert(s.drop_first()[k - 1] == s[k]);
        lemma_find_chunk_update(s.drop_first(), k - 1, c2, x);
    }
}

/// The world: every loaded chunk, keyed by chunk index, plus the provider
/// that materializes missing chunks on demand.
pub struct World<P: ChunkProvider> {
    provider: P,
    chunks: Vec<(ChunkIndex, Chunk)>,
}

impl<P: ChunkProvider> World<P> {
    /// The loaded entries, in insertion order.
    pub closed spec fn chunks_seq(self) -> Seq<(ChunkIndex, Chunk)> {
        self.chunks@
    }

    /// The provider.
    pub closed spec fn provider(self) -> P {
        self.provider
    }

    /// Structural invariant: chunk indices are unique and every loaded
    /// chunk is well formed.
    pub open spec fn wf(self) -> bool {
        &&& forall|k: int|
            0 <= k < self.chunks_seq().len() ==> (#[trigger] self.chunks_seq()[k]).1.wf()
        &&& forall|k1: int, k2: int|
            0 <= k1 < k2 < self.chunks_seq().len() ==> (#[trigger] self.chunks_seq()[k1]).0 != (
            #[trigger] self.chunks_seq()[k2]).0
    }

    /// The model of the pillar at an absolute hex coordinate: `None` when
    /// its chunk is not loaded, which every query treats as an empty
    /// column rather than an error.
    pub open spec fn spec_pillar_at(self, a: AxialPoint) -> Option<PillarModel> {
        match find_chunk(self.chunks_seq(), spec_chunk_index_of(a)) {
            Some(c) => Some(c@[spec_local_index_of(a)]),
            None => None,
        }
    }

    /// A world with no chunk loaded yet.
    pub fn new(provider: P) -> (w: World<P>)
        ensures
            w.wf(),
            w.chunks_seq().len() == 0,
            w.provider() == provider,
    {
        World { provider, chunks: Vec::new() }
    }

    /// The position of the entry for `ci`, scanning front to back.
    fn chunk_position(&self, ci: ChunkIndex) -> (r: Option<usize>)
        ensures
            match r {
                Some(k) => k < self.chunks_seq().len() && self.chunks_seq()[k as int].0 == ci
                    && find_chunk(self.chunks_seq(), ci) == Some(self.chunks_seq()[k as int].1)
                    && forall|m: int| 0 <= m < k ==> (#[trigger] self.chunks_seq()[m]).0 != ci,
                None => find_chunk(self.chunks_seq(), ci).is_none() && forall|m: int|
                    0 <= m < self.chunks_seq().len() ==> (#[trigger] self.chunks_seq()[m]).0 != ci,
            },
    {
        let n = self.chunks.len();
        let mut k: usize = 0;
        while k < n
            invariant
                n == self.chunks_seq().len(),
                0 <= k <= n,
                forall|m: int| 0 <= m < k ==> (#[trigger] self.chunks_seq()[m]).0 != ci,
            decreases n - k,
        {
            if self.chunks[k].0 == ci {
                proof {
                    lemma_find_chunk_first(self.chunks_seq(), ci, k as int);
                }
                return Some(k);
            }
            k += 1;
        }
        proof {
            lemma_find_chunk_absent(self.chunks_seq(), ci);
        }
        None
    }

    /// Materializes the chunk at `index` if the provider can produce it;
    /// returns whether it is present afterwards. Chunks already loaded
    /// are never replaced, and no other entry is touched.
    pub fn load(&mut self, index: ChunkIndex) -> (loaded: bool)
        requires
            old(self).wf(),
        ensures
            final(self).wf(),
            final(self).provider() == old(self).provider(),
            loaded == find_chunk(final(self).chunks_seq(), index).is_some(),
            forall|x: ChunkIndex|
                x != index ==> #[trigger] find_chunk(final(self).chunks_seq(), x) == find_chunk(
                    old(self).chunks_seq(),
                    x,
                ),
            match find_chunk(final(self).chunks_seq(), index) {
                Some(c) => match find_chunk(old(self).chunks_seq(), index) {
                    Some(co) => c == co,
                    None => old(self).provider().chunk_spec(index) == Some(c@) && c.wf(),
                },
                None => find_chunk(old(self).chunks_seq(), index).is_none() && old(
                    self,
                ).provider().chunk_spec(index).is_none(),
            },
    {
        match self.chunk_position(index) {
            Some(_) => true,
            None => {
                match self.provider.load_chunk(index) {
                    Some(c) => {
                        let ghost oldseq = self.chunks_seq();
                        self.chunks.push((index, c));
                        proof {
                            assert forall|x: ChunkIndex| true implies #[trigger] find_chunk(
                                self.chunks_seq(),
                                x,
                            ) == if x == index {
                                Some(c)
                            } else {
                                find_chunk(oldseq, x)
                            } by {
                                lemma_find_chunk_push(oldseq, (index, c), x);
                            }
                        }
                        true
                    },
                    None => false,
                }
            },
        }
    }

    /// Whether the provider can currently produce the chunk at `index`:
    /// the cheap pre-check a caller runs before requesting a load.
    pub fn is_loadable(&self, index: ChunkIndex) -> (r: bool)
        ensures
            r == self.provider().chunk_spec(index).is_some(),
    {
        self.provider.is_chunk_loadable(index)
    }

    /// Stores a chunk obtained elsewhere (a storage-backed source) under
    /// `index`, unless that index is already occupied; returns whether the
    /// chunk was added. No other entry is touched.
    pub fn insert_chunk(&mut self, index: ChunkIndex, c: Chunk) -> (added: bool)
        requires
            old(self).wf(),
            c.wf(),
        ensures
            final(self).wf(),
            final(self).provider() == old(self).provider(),
            added == find_chunk(old(self).chunks_seq(), index).is_none(),
            forall|x: ChunkIndex|
                x != index ==> #[trigger] find_chunk(final(self).chunks_seq(), x) == find_chunk(
                    old(self).chunks_seq(),
                    x,
                ),
            added ==> find_chunk(final(self).chunks_seq(), index) == Some(c),
            !added ==> final(self).chunks_seq() == old(self).chunks_seq(),
    {
        match self.chunk_position(index) {
            Some(_) => false,
            None => {
                let ghost oldseq = self.chunks_seq();
                self.chunks.push((index, c));
                proof {
                    assert forall|x: ChunkIndex| true implies #[trigger] find_chunk(
                        self.chunks_seq(),
                        x,
                    ) == if x == index {
                        Some(c)
                    } else {
                        find_chunk(oldseq, x)
                    } by {
                        lemma_find_chunk_push(oldseq, (index, c), x);
                    }
                }
                true
            },
        }
    }

    /// The pillar at an absolute hex coordinate; `None` when its chunk is
    /// not loaded.
    pub fn pillar_at(&self, pos: PillarIndex) -> (r: Option<&HexPillar>)
        requires
            self.wf(),
        ensures
            match r {
                Some(p) => self.spec_pillar_at(pos.0) == Some(p@) && p.wf(),
                None => self.spec_pillar_at(pos.0).is_none(),
            },
    {
        let ci = chunk_index_of(pos.0);
        match self.chunk_position(ci) {
            Some(k) => {
                let lq = floor_mod_i64(pos.0.q as i64, CHUNK_SIZE as i64) as usize;
                let lr = floor_mod_i64(pos.0.r as i64, CHUNK_SIZE as i64) as usize;
                let p = self.chunks[k].1.pillar_at(lq, lr);
                proof {
                    assert(lq * CHUNK_SIZE + lr == spec_local_index_of(pos.0));
                }
                Some(p)
            },
            None => None,
        }
    }

    /// Excavates one discrete unit of the column at `pos`; on success the
    /// index of the chunk whose cached presentation must be rebuilt is
    /// returned. A missing chunk or a unit with no material is `NotFound`
    /// and leaves the world unchanged.
    #[verifier::rlimit(100)]
    #[verifier::spinoff_prover]
    pub fn excavate(&mut self, pos: PillarIndex, h: HeightType) -> (res: Result<
        ChunkIndex,
        NotFound,
    >)
        requires
            old(self).wf(),
        ensures
            final(self).wf(),
            final(self).provider() == old(self).provider(),
            forall|x: ChunkIndex|
                x != spec_chunk_index_of(pos.0) ==> #[trigger] find_chunk(
                    final(self).chunks_seq(),
                    x,
                ) == find_chunk(old(self).chunks_seq(), x),
            match res {
                Ok(ci) => ci == spec_chunk_index_of(pos.0) && match (
                    find_chunk(old(self).chunks_seq(), ci),
                    find_chunk(final(self).chunks_seq(), ci),
                ) {
                    (Some(co), Some(cn)) => {
                        let k = spec_local_index_of(pos.0);
                        &&& cn@.len() == co@.len()
                        &&& forall|m: int| 0 <= m < co@.len() && m != k ==> cn@[m] == co@[m]
                        &&& cn@[k].props == co@[k].props
                        &&& exists|i: int|
                            #[trigger] is_first_covering(co@[k].sections, i, h.0 as int)
                                && cn@[k].sections =~= excavate_splice(
                                co@[k].sections,
                                i,
                                h.0 as int,
                            )
                    },
                    _ => false,
                },
                Err(NotFound) => match (
                    find_chunk(old(self).chunks_seq(), spec_chunk_index_of(pos.0)),
                    find_chunk(final(self).chunks_seq(), spec_chunk_index_of(pos.0)),
                ) {
                    (Some(co), Some(cn)) => {
                        let k = spec_local_index_of(pos.0);
                        &&& cn@ == co@
                        &&& forall|i: int|
                            0 <= i < co@[k].sections.len() ==> !(#[trigger] co@[k].sections[i]).covers(
                                h.0 as int,
                            )
                    },
                    (None, None) => true,
                    _ => false,
                },
            },
    {
        let ci = chunk_index_of(pos.0);
        match self.chunk_position(ci) {
            None => Err(NotFound),
            Some(kidx) => {
                let lq = floor_mod_i64(pos.0.q as i64, CHUNK_SIZE as i64) as usize;
                let lr = floor_mod_i64(pos.0.r as i64, CHUNK_SIZE as i64) as usize;
                proof {
                    assert(lq * CHUNK_SIZE + lr == spec_local_index_of(pos.0));
                }
                let ghost oldseq = self.chunks_seq();
                let (key, mut c) = self.chunks.remove(kidx);
                let res = c.excavate(lq, lr, h);
                self.chunks.insert(kidx, (key, c));
                proof {
                    assert(self.chunks_seq() =~= oldseq.update(kidx as int, (key, c)));
                    lemma_find_chunk_update(oldseq, kidx as int, c, ci);
                    assert forall|x: ChunkIndex| x != ci implies #[trigger] find_chunk(
                        self.chunks_seq(),
                        x,
                    ) == find_chunk(oldseq, x) by {
                        lemma_find_chunk_update(oldseq, kidx as int, c, x);
                    }
                    if res is Err {
                        assert(c@ =~= oldseq[kidx as int].1@);
                    }
                }
                match res {
                    Ok(()) => Ok(key),
                    Err(e) => Err(e),
                }
            },
        }
    }

    /// Marches a pre-sampled ray: returns, for the first sample whose
    /// column holds a section strictly containing the sample's height
    /// step, the hexagon and that step; `None` when no sample hits within
    /// the sequence. Scan order is ray order, so the nearest hit along
    /// the ray wins; samples in unloaded chunks miss rather than fail.
    #[verifier::rlimit(100)]
    #[verifier::spinoff_prover]
    pub fn pick(&self, samples: &Vec<Position3>) -> (r: Option<(AxialPoint, HeightType)>)
        requires
            self.wf(),
            forall|k: int|
                0 <= k < samples@.len() ==> -MAX_REAL_COORD <= (#[trigger] samples@[k]).x
                    <= MAX_REAL_COORD && -MAX_REAL_COORD <= samples@[k].y <= MAX_REAL_COORD,
        ensures
            match r {
                Some(hit) => exists|k: int|
                    0 <= k < samples@.len() && #[trigger] self.spec_sample_hits(samples@[k]) && (
                    forall|m: int| 0 <= m < k ==> !self.spec_sample_hits(samples@[m]))
                        && hit.0 == spec_fixed_to_axial(
                        Position2 { x: samples@[k].x, y: samples@[k].y },
                    ) && hit.1.0 as int == samples@[k].z as int / (PILLAR_STEP_HEIGHT as int),
                None => forall|k: int|
                    0 <= k < samples@.len() ==> !#[trigger] self.spec_sample_hits(samples@[k]),
            },
    {
        let n = samples.len();
        let mut k: usize = 0;
        while k < n
            invariant
                self.wf(),
                n == samples@.len(),
                0 <= k <= n,
                forall|m: int|
                    0 <= m < samples@.len() ==> -MAX_REAL_COORD <= (#[trigger] samples@[m]).x
                        <= MAX_REAL_COORD && -MAX_REAL_COORD <= samples@[m].y <= MAX_REAL_COORD,
                forall|m: int| 0 <= m < k ==> !#[trigger] self.spec_sample_hits(samples@[m]),
            decreases n - k,
        {
            let s = samples[k];
            let axial = fixed_to_axial(Position2 { x: s.x, y: s.y });
            let step = floor_div_i64(s.z, PILLAR_STEP_HEIGHT);
            match self.pillar_at(PillarIndex(axial)) {
                Some(p) => {
                    match p.section_at_height(step) {
                        Some(si) => {
                            proof {
                                let sample = samples@[k as int];
                                let opt = self.spec_pillar_at(
                                    spec_fixed_to_axial(Position2 { x: sample.x, y: sample.y }),
                                );
                                assert(sample == s);
                                assert(opt == Some(p@));
                                assert(opt->Some_0.sections[si as int].strictly_contains(
                                    sample.z as int / (PILLAR_STEP_HEIGHT as int),
                                ));
                                assert(self.spec_sample_hits(sample));
                                assert(0 < step < u16::MAX);
                            }
                            return Some((axial, HeightType(step as u16)));
                        },
                        None => {
                            proof {
                                assert(!self.spec_sample_hits(samples@[k as int]));
                            }
                        },
                    }
                },
                None => {
                    proof {
                        assert(!self.spec_sample_hits(samples@[k as int]));
                    }
                },
            }
            k += 1;
        }
        None
    }

    /// Whether the pillar under a sample holds a section strictly
    /// containing the sample's height step.
    pub open spec fn spec_sample_hits(self, p: Position3) -> bool {
        match self.spec_pillar_at(spec_fixed_to_axial(Position2 { x: p.x, y: p.y })) {
            Some(pm) => exists|i: int|
                0 <= i < pm.sections.len() && (#[trigger] pm.sections[i]).strictly_contains(
                    p.z as int / (PILLAR_STEP_HEIGHT as int),
                ),
            None => false,
        }
    }
}

/// A key present at `k` and at no earlier entry is found exactly there.
pub proof fn lemma_find_chunk_first(s: Seq<(ChunkIndex, Chunk)>, ci: ChunkIndex, k: int)
    requires
        0 <= k < s.len(),
        s[k].0 == ci,
        forall|m: int| 0 <= m < k ==> (#[trigger] s[m]).0 != ci,
    ensures
        find_chunk(s, ci) == Some(s[k].1),
    decreases k,
{
    if k > 0 {
        lemma_find_chunk_first(s.drop_first(), ci, k - 1);
    }
}

/// A key held by no entry is not found.
pub proof fn lemma_find_chunk_absent(s: Seq<(ChunkIndex, Chunk)>, ci: ChunkIndex)
    requires
        forall|m: int| 0 <= m < s.len() ==> (#[trigger] s[m]).0 != ci,
    ensures
        find_chunk(s, ci).is_none(),
    decreases s.len(),
{
    if s.len() > 0 {
        lemma_find_chunk_absent(s.drop_first(), ci);
    }
}

} // verus!
