//! The chunks of a world, keyed by chunk coordinate, and the steps that fill
//! them: assembly from columns and overlay painting.
use crate::chunk::{column_index, opt_overlay_view, ChunkHeights};
use crate::coords::{chunk_coord, chunk_of, local_coord, local_of};
use crate::overlay::{arbitrate, ColumnOverlay};
use crate::slope::SlopeProfile;
use crate::world::{column_key, lemma_column_key_injective};
use std::collections::HashMap;
use vstd::prelude::*;
use vstd::std_specs::hash::axiom_u64_obeys_hash_table_key_model;

verus! {

/// A column ready to be placed in its chunk.
#[derive(Debug)]
pub struct ColumnRecord {
    pub x: i32,
    pub z: i32,
    pub height: i32,
    pub profile: SlopeProfile,
}

/// Chunks by chunk coordinate.
pub struct ChunkMap {
    pub keys: Vec<(i32, i32)>,
    pub chunks: Vec<ChunkHeights>,
    pub index: HashMap<u64, usize>,
}

impl ChunkMap {
    pub open spec fn wf(&self) -> bool {
        &&& self.keys@.len() == self.chunks@.len()
        &&& forall|i: int| 0 <= i < self.chunks@.len() ==> (#[trigger] self.chunks@[i]).wf()
        &&& forall|i: int| 0 <= i < self.keys@.len() ==> {
            let k = #[trigger] self.keys@[i];
            &&& self.index@.contains_key(column_key(k.0, k.1))
            &&& self.index@[column_key(k.0, k.1)] == i
        }
        &&& forall|k: u64| #[trigger] self.index@.contains_key(k) ==> {
            &&& (self.index@[k] as int) < self.keys@.len()
            &&& column_key(self.keys@[self.index@[k] as int].0, self.keys@[self.index@[k] as int].1) == k
        }
    }

    /// Position of chunk `(cx, cz)`, if present.
    pub open spec fn slot(&self, cx: i32, cz: i32) -> Option<int> {
        if self.index@.contains_key(column_key(cx, cz)) {
            Some(self.index@[column_key(cx, cz)] as int)
        } else {
            None
        }
    }

    pub fn new() -> (r: Self)
        ensures
            r.wf(),
            r.keys@.len() == 0,
    {
        ChunkMap { keys: Vec::new(), chunks: Vec::new(), index: HashMap::new() }
    }

    pub fn len(&self) -> (r: usize)
        ensures
            r == self.keys@.len(),
    {
        self.keys.len()
    }

    /// Position of chunk `(cx, cz)`, if present.
    pub fn find(&self, cx: i32, cz: i32) -> (r: Option<usize>)
        requires
            self.wf(),
        ensures
            match r {
                Some(i) => self.slot(cx, cz) == Some(i as int) && i < self.keys@.len() && self.keys@[i as int] == (cx, cz),
                None => self.slot(cx, cz).is_none(),
            },
    {
        proof {
            broadcast use axiom_u64_obeys_hash_table_key_model;
        }
        let key = crate::world::column_key_exec(cx, cz);
        match self.index.get(&key) {
            Some(i) => {
                proof {
                    let k = self.keys@[*i as int];
                    lemma_column_key_injective(k.0, k.1, cx, cz);
                }
                Some(*i)
            },
            None => None,
        }
    }

    /// Position of chunk `(cx, cz)`, adding an empty chunk when absent.
    fn find_or_add(&mut self, cx: i32, cz: i32, max_smoothing_radius: usize) -> (r: usize)
        requires
            old(self).wf(),
        ensures
            final(self).wf(),
            r < final(self).keys@.len(),
            final(self).keys@[r as int] == (cx, cz),
            final(self).slot(cx, cz) == Some(r as int),
            forall|c: i32, d: i32| #[trigger] old(self).slot(c, d).is_some() ==> final(self).slot(c, d) == old(self).slot(c, d),
            forall|i: int| 0 <= i < old(self).chunks@.len() ==> #[trigger] final(self).chunks@[i] == old(self).chunks@[i],
            old(self).keys@.len() <= final(self).keys@.len(),
            forall|i: int| 0 <= i < old(self).keys@.len() ==> #[trigger] final(self).keys@[i] == old(self).keys@[i],
            old(self).slot(cx, cz).is_none() ==> final(self).chunks@[r as int].heights@ == Seq::new(256, |j: int| None::<i32>),
            forall|c: i32, d: i32| #[trigger] final(self).slot(c, d).is_some() && (c, d) != (cx, cz) ==> final(self).slot(c, d) == old(self).slot(c, d),
    {
        proof {
            broadcast use axiom_u64_obeys_hash_table_key_model;
        }
        match self.find(cx, cz) {
            Some(i) => i,
            None => {
                let key = crate::world::column_key_exec(cx, cz);
                let n = self.keys.len();
                let ghost before = *self;
                self.keys.push((cx, cz));
                let fresh = ChunkHeights::new(max_smoothing_radius);
                assert(fresh.heights@ =~= Seq::new(256, |j: int| None::<i32>));
                self.chunks.push(fresh);
                self.index.insert(key, n);
                proof {
                    assert forall|i: int| 0 <= i < self.keys@.len() implies {
                        let k = #[trigger] self.keys@[i];
                        &&& self.index@.contains_key(column_key(k.0, k.1))
                        &&& self.index@[column_key(k.0, k.1)] == i
                    } by {
                        if i < n {
                            let k = self.keys@[i];
                            if column_key(k.0, k.1) == key {
                                assert(before.index@.contains_key(column_key(k.0, k.1)));
                            }
                        }
                    }
                    assert forall|i: int| 0 <= i < self.chunks@.len() implies (#[trigger] self.chunks@[i]).wf() by {
                        if i < n {
                            assert(self.chunks@[i] == before.chunks@[i]);
                        }
                    }
                    assert forall|c: i32, d: i32| #[trigger] self.slot(c, d).is_some() && (c, d) != (cx, cz) implies self.slot(c, d) == before.slot(c, d) by {
                        if column_key(c, d) == key {
                            lemma_column_key_injective(c, d, cx, cz);
                        }
                    }
                }
                n
            },
        }
    }

    /// Paints `overlay` onto world column `(x, z)` when its chunk exists;
    /// tells whether it did. A missing chunk is not created.
    pub fn apply_overlay_column(&mut self, x: i32, z: i32, overlay: &ColumnOverlay) -> (r: bool)
        requires
            old(self).wf(),
        ensures
            final(self).wf(),
            final(self).keys@ == old(self).keys@,
            final(self).index@ == old(self).index@,
            final(self).chunks@.len() == old(self).chunks@.len(),
            r == old(self).slot(chunk_of(x as int) as i32, chunk_of(z as int) as i32).is_some(),
            !r ==> final(self).chunks@ == old(self).chunks@,
            r ==> {
                let i = old(self).slot(chunk_of(x as int) as i32, chunk_of(z as int) as i32).unwrap();
                let c = column_index(local_of(x as int), local_of(z as int));
                &&& final(self).chunks@ == old(self).chunks@.update(i, final(self).chunks@[i])
                &&& final(self).chunks@[i].heights@ == old(self).chunks@[i].heights@
                &&& final(self).chunks@[i].overlays@[c].is_some()
                &&& final(self).chunks@[i].overlays@[c].unwrap()@ == arbitrate(opt_overlay_view(old(self).chunks@[i].overlays@[c]), overlay@)
                &&& forall|j: int| 0 <= j < 256 && j != c ==> #[trigger] final(self).chunks@[i].overlays@[j] == old(self).chunks@[i].overlays@[j]
            },
    {
        let cx = chunk_coord(x);
        let cz = chunk_coord(z);
        match self.find(cx, cz) {
            Some(i) => {
                let lx = local_coord(x);
                let lz = local_coord(z);
                let mut chunk = ChunkHeights { heights: Vec::new(), slopes: Vec::new(), overlays: Vec::new() };
                std::mem::swap(&mut chunk, &mut self.chunks[i]);
                chunk.apply_overlay(lx, lz, overlay.duplicate());
                self.chunks.set(i, chunk);
                proof {
                    assert forall|j: int| 0 <= j < self.chunks@.len() implies (#[trigger] self.chunks@[j]).wf() by {}
                }
                true
            },
            None => false,
        }
    }

    /// Chunk `(cx, cz)`, if present.
    pub fn get(&self, cx: i32, cz: i32) -> (r: Option<&ChunkHeights>)
        requires
            self.wf(),
        ensures
            match r {
                Some(c) => self.slot(cx, cz).is_some() && *c == self.chunks@[self.slot(cx, cz).unwrap()],
                None => self.slot(cx, cz).is_none(),
            },
    {
        match self.find(cx, cz) {
            Some(i) => Some(&self.chunks[i]),
            None => None,
        }
    }
}

/// Whether the records name each column at most once.
pub open spec fn distinct_columns(rs: Seq<ColumnRecord>) -> bool {
    forall|i: int, j: int| 0 <= i < j < rs.len() ==> (#[trigger] rs[i].x != #[trigger] rs[j].x || rs[i].z != rs[j].z)
}

/// Where record `r` stands in `m`: its chunk exists and holds its height.
pub open spec fn placed(m: ChunkMap, r: ColumnRecord) -> bool {
    let s = m.slot(chunk_of(r.x as int) as i32, chunk_of(r.z as int) as i32);
    &&& s.is_some()
    &&& m.chunks@[s.unwrap()].heights@[column_index(local_of(r.x as int), local_of(r.z as int))] == Some(r.height)
}

/// Places every column in its chunk, creating the chunks as needed, each
/// with flat profiles of `max_smoothing_radius` radii before its columns are set.
pub fn assemble_chunks(records: Vec<ColumnRecord>, max_smoothing_radius: usize) -> (m: ChunkMap)
    requires
        distinct_columns(records@),
    ensures
        m.wf(),
        forall|i: int| 0 <= i < records@.len() ==> placed(m, #[trigger] records@[i]),
{
    let mut m = ChunkMap::new();
    let mut records = records;
    let ghost all = records@;
    while records.len() > 0
        invariant
            m.wf(),
            distinct_columns(all),
            records@.len() <= all.len(),
            records@ == all.subrange(0, records@.len() as int),
            forall|i: int| records@.len() <= i < all.len() ==> placed(m, #[trigger] all[i]),
        decreases records@.len(),
    {
        let rec = records.pop().unwrap();
        let n = records.len();
        assert(rec == all[n as int]);
        let cx = chunk_coord(rec.x);
        let cz = chunk_coord(rec.z);
        let lx = local_coord(rec.x);
        let lz = local_coord(rec.z);
        let ghost before = m;
        let i = m.find_or_add(cx, cz, max_smoothing_radius);
        let ghost mid = m;
        let mut chunk = ChunkHeights { heights: Vec::new(), slopes: Vec::new(), overlays: Vec::new() };
        std::mem::swap(&mut chunk, &mut m.chunks[i]);
        chunk.set(lx, lz, rec.height, rec.profile);
        m.chunks.set(i, chunk);
        proof {
            assert forall|j: int| 0 <= j < m.chunks@.len() implies (#[trigger] m.chunks@[j]).wf() by {
                if j != i as int {
                    assert(m.chunks@[j] == mid.chunks@[j]);
                }
            }
            assert(m.slot(cx, cz) == Some(i as int));
            assert forall|t: int| n <= t < all.len() implies placed(m, #[trigger] all[t]) by {
                if t > n {
                    let r = all[t];
                    assert(placed(before, r));
                    let rcx = chunk_of(r.x as int) as i32;
                    let rcz = chunk_of(r.z as int) as i32;
                    let s = before.slot(rcx, rcz).unwrap();
                    assert(mid.slot(rcx, rcz) == Some(s));
                    if s == i as int {
                        assert(mid.keys@[s] == before.keys@[s]);
                        let k = before.keys@[s];
                        lemma_column_key_injective(k.0, k.1, rcx, rcz);
                        assert(all[t].x != all[n as int].x || all[t].z != all[n as int].z);
                        lemma_local_distinct(r.x, r.z, rec.x, rec.z);
                    }
                }
            }
        }
    }
    m
}

/// Two distinct columns of one chunk have distinct local positions.
pub proof fn lemma_local_distinct(x1: i32, z1: i32, x2: i32, z2: i32)
    requires
        chunk_of(x1 as int) == chunk_of(x2 as int),
        chunk_of(z1 as int) == chunk_of(z2 as int),
        x1 != x2 || z1 != z2,
    ensures
        column_index(local_of(x1 as int), local_of(z1 as int)) != column_index(local_of(x2 as int), local_of(z2 as int)),
{
    vstd::arithmetic::div_mod::lemma_fundamental_div_mod(x1 as int, 16);
    vstd::arithmetic::div_mod::lemma_fundamental_div_mod(x2 as int, 16);
    vstd::arithmetic::div_mod::lemma_fundamental_div_mod(z1 as int, 16);
    vstd::arithmetic::div_mod::lemma_fundamental_div_mod(z2 as int, 16);
}

} // verus!
