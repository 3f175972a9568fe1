//! Section encoding: the block and biome of every position of a 16x16x16
//! section, gathered into palettes and index arrays.
use crate::coords::BEDROCK_Y;
use crate::packing::{is_bits_for_range, is_packing, pack_palette_indices};
use crate::terrain::{CliffSettings, CliffView};
use vstd::arithmetic::div_mod::{lemma_div_denominator, lemma_fundamental_div_mod};
use vstd::prelude::*;

verus! {

/// A block as the encoder sees it.
#[derive(Debug)]
pub enum BlockId {
    Air,
    Bedrock,
    Named(String),
}

pub enum BlockView {
    Air,
    Bedrock,
    Named(Seq<char>),
}

impl View for BlockId {
    type V = BlockView;

    open spec fn view(&self) -> BlockView {
        match self {
            BlockId::Air => BlockView::Air,
            BlockId::Bedrock => BlockView::Bedrock,
            BlockId::Named(s) => BlockView::Named(s@),
        }
    }
}

/// The block name written into the palette.
pub open spec fn block_name(b: BlockView) -> Seq<char> {
    match b {
        BlockView::Air => "minecraft:air"@,
        BlockView::Bedrock => "minecraft:bedrock"@,
        BlockView::Named(n) => n,
    }
}

impl BlockId {
    pub fn is_air(&self) -> (r: bool)
        ensures
            r == (self@ == BlockView::Air),
    {
        match self {
            BlockId::Air => true,
            _ => false,
        }
    }

    /// Whether two blocks are the same palette entry.
    pub fn same(&self, other: &BlockId) -> (r: bool)
        ensures
            r == (self@ == other@),
    {
        match (self, other) {
            (BlockId::Air, BlockId::Air) => true,
            (BlockId::Bedrock, BlockId::Bedrock) => true,
            (BlockId::Named(a), BlockId::Named(b)) => a.eq(b),
            _ => false,
        }
    }

    pub fn duplicate(&self) -> (r: BlockId)
        ensures
            r@ == self@,
    {
        match self {
            BlockId::Air => BlockId::Air,
            BlockId::Bedrock => BlockId::Bedrock,
            BlockId::Named(s) => BlockId::Named(s.clone()),
        }
    }

    /// The name written into the palette.
    pub fn name(&self) -> (r: String)
        ensures
            r@ == block_name(self@),
    {
        match self {
            BlockId::Air => String::from_str("minecraft:air"),
            BlockId::Bedrock => String::from_str("minecraft:bedrock"),
            BlockId::Named(s) => s.clone(),
        }
    }
}

/// What the encoder needs to know about one column.
#[derive(Debug)]
pub struct ColumnSettings {
    pub height: Option<i32>,
    pub biome: String,
    pub top_block: String,
    pub slope_mdeg: u32,
    pub cliff: Option<CliffSettings>,
    pub top_thickness: u32,
    pub bottom_block_override: Option<String>,
    pub biome_min_y: Option<i32>,
    pub extrusion_block: Option<String>,
    pub extrusion_height: u32,
}

pub struct ColumnView {
    pub height: Option<i32>,
    pub biome: Seq<char>,
    pub top_block: Seq<char>,
    pub slope_mdeg: u32,
    pub cliff: Option<CliffView>,
    pub top_thickness: u32,
    pub bottom_block_override: Option<Seq<char>>,
    pub biome_min_y: Option<i32>,
    pub extrusion_block: Option<Seq<char>>,
    pub extrusion_height: u32,
}

impl View for ColumnSettings {
    type V = ColumnView;

    open spec fn view(&self) -> ColumnView {
        ColumnView {
            height: self.height,
            biome: self.biome@,
            top_block: self.top_block@,
            slope_mdeg: self.slope_mdeg,
            cliff: match self.cliff {
                Some(c) => Some(c@),
                None => None,
            },
            top_thickness: self.top_thickness,
            bottom_block_override: match self.bottom_block_override {
                Some(b) => Some(b@),
                None => None,
            },
            biome_min_y: self.biome_min_y,
            extrusion_block: match self.extrusion_block {
                Some(b) => Some(b@),
                None => None,
            },
            extrusion_height: self.extrusion_height,
        }
    }
}

/// The block at height `y` of a column: bedrock at or below `BEDROCK_Y`, air
/// above the surface (or the extrusion block up to `surface + height`), the
/// top block (or the cliff block on a steep column) in the top band of
/// `max(1, thickness)` blocks, and the subsurface block below it.
pub open spec fn block_spec(y: int, c: ColumnView, bottom: Seq<char>) -> BlockView {
    if y <= BEDROCK_Y {
        BlockView::Bedrock
    } else {
        match c.height {
            None => BlockView::Air,
            Some(s) => if y > s {
                match c.extrusion_block {
                    Some(b) => if y <= s + c.extrusion_height {
                        BlockView::Named(b)
                    } else {
                        BlockView::Air
                    },
                    None => BlockView::Air,
                }
            } else if s - y < (if c.top_thickness == 0 { 1 } else { c.top_thickness as int }) {
                match c.cliff {
                    Some(cl) => if c.slope_mdeg >= cl.angle_threshold_mdeg {
                        BlockView::Named(cl.block)
                    } else {
                        BlockView::Named(c.top_block)
                    },
                    None => BlockView::Named(c.top_block),
                }
            } else {
                match c.bottom_block_override {
                    Some(b) => BlockView::Named(b),
                    None => BlockView::Named(bottom),
                }
            },
        }
    }
}

/// The biome at height `y` of a column: its own biome from `biome_min_y`
/// upwards, the base biome elsewhere.
pub open spec fn biome_spec(y: int, c: ColumnView, base: Seq<char>) -> Seq<char> {
    match c.biome_min_y {
        Some(m) => if y >= m {
            c.biome
        } else {
            base
        },
        None => base,
    }
}

/// The block of the chunk at height `y` and column `x + 16 * z`.
pub fn block_for(world_y: i32, column: &ColumnSettings, default_bottom_block: &String) -> (r:
    BlockId)
    ensures
        r@ == block_spec(world_y as int, column@, default_bottom_block@),
{
    if world_y <= BEDROCK_Y {
        return BlockId::Bedrock;
    }
    let surface = match column.height {
        None => {
            return BlockId::Air;
        },
        Some(s) => s,
    };
    if world_y > surface {
        return match &column.extrusion_block {
            Some(b) => if (world_y as i64) <= surface as i64 + column.extrusion_height as i64 {
                BlockId::Named(b.clone())
            } else {
                BlockId::Air
            },
            None => BlockId::Air,
        };
    }
    let thickness: i64 = if column.top_thickness == 0 { 1 } else { column.top_thickness as i64 };
    let depth: i64 = surface as i64 - world_y as i64;
    if depth < thickness {
        match &column.cliff {
            Some(cl) => {
                if column.slope_mdeg >= cl.angle_threshold_mdeg {
                    return BlockId::Named(cl.block.clone());
                }
            },
            None => {},
        }
        BlockId::Named(column.top_block.clone())
    } else {
        match &column.bottom_block_override {
            Some(b) => BlockId::Named(b.clone()),
            None => BlockId::Named(default_bottom_block.clone()),
        }
    }
}

/// The biome at height `world_y` of a column.
pub fn biome_for_y<'a>(column: &'a ColumnSettings, world_y: i32, base_biome: &'a String) -> (r:
    &'a String)
    ensures
        r@ == biome_spec(world_y as int, column@, base_biome@),
{
    match column.biome_min_y {
        Some(min_y) => if world_y >= min_y {
            &column.biome
        } else {
            base_biome
        },
        None => base_biome,
    }
}

/// Index into the 4x4x4 biome lattice of block position `(x, y, z)`.
pub open spec fn biome_cell(x: int, y: int, z: int) -> int {
    (y / 4) * 16 + (z / 4) * 4 + x / 4
}

pub open spec fn pos_x(p: int) -> int {
    p % 16
}

pub open spec fn pos_z(p: int) -> int {
    (p / 16) % 16
}

pub open spec fn pos_y(p: int) -> int {
    p / 256
}

/// Cell of the biome lattice that position `p = y*256 + z*16 + x` falls in.
pub open spec fn cell_of(p: int) -> int {
    biome_cell(pos_x(p), pos_y(p), pos_z(p))
}

/// The last position, in encoding order, of biome cell `c`.
pub open spec fn cell_last(c: int) -> int {
    (4 * (c / 16) + 3) * 256 + (4 * ((c / 4) % 4) + 3) * 16 + 4 * (c % 4) + 3
}

pub fn biome_index(x: usize, y: usize, z: usize) -> (r: usize)
    requires
        x < 16,
        y < 16,
        z < 16,
    ensures
        r == biome_cell(x as int, y as int, z as int),
        r < 64,
{
    (y / 4) * 16 + (z / 4) * 4 + x / 4
}

proof fn lemma_position(p: int)
    requires
        0 <= p < 4096,
    ensures
        p == pos_y(p) * 256 + pos_z(p) * 16 + pos_x(p),
        0 <= pos_x(p) < 16,
        0 <= pos_z(p) < 16,
        0 <= pos_y(p) < 16,
        0 <= cell_of(p) < 64,
        cell_last(cell_of(p)) >= p,
        cell_of(cell_last(cell_of(p))) == cell_of(p),
        0 <= cell_last(cell_of(p)) < 4096,
{
    lemma_fundamental_div_mod(p, 16);
    lemma_fundamental_div_mod(p / 16, 16);
    lemma_div_denominator(p, 16, 16);
    let x = pos_x(p);
    let z = pos_z(p);
    let y = pos_y(p);
    lemma_fundamental_div_mod(x, 4);
    lemma_fundamental_div_mod(y, 4);
    lemma_fundamental_div_mod(z, 4);
    let c = cell_of(p);
    let l = cell_last(c);
    lemma_fundamental_div_mod(c, 16);
    lemma_fundamental_div_mod(c, 4);
    lemma_fundamental_div_mod(c / 4, 4);
    assert(c / 16 == y / 4);
    assert(c % 4 == x / 4);
    assert((c / 4) % 4 == z / 4);
    let lx = 4 * (x / 4) + 3;
    let lz = 4 * (z / 4) + 3;
    let ly = 4 * (y / 4) + 3;
    assert(l == ly * 256 + lz * 16 + lx);
    assert(pos_x(l) == lx);
    assert(pos_z(l) == lz) by {
        assert(l / 16 == ly * 16 + lz);
    }
    assert(pos_y(l) == ly);
}

/// Every cell's last position is a position of that cell.
proof fn lemma_cell_last(c: int)
    requires
        0 <= c < 64,
    ensures
        0 <= cell_last(c) < 4096,
        cell_of(cell_last(c)) == c,
{
    lemma_fundamental_div_mod(c, 16);
    lemma_fundamental_div_mod(c, 4);
    lemma_fundamental_div_mod(c / 4, 4);
    let l = cell_last(c);
    let lx = 4 * (c % 4) + 3;
    let lz = 4 * ((c / 4) % 4) + 3;
    let ly = 4 * (c / 16) + 3;
    assert(pos_x(l) == lx);
    assert(pos_z(l) == lz) by {
        assert(l / 16 == ly * 16 + lz);
    }
    assert(pos_y(l) == ly);
}

/// The views of a block palette.
pub open spec fn block_views(p: Seq<BlockId>) -> Seq<BlockView> {
    p.map_values(|b: BlockId| b@)
}

/// A palette after each of `bs` is looked up in turn: a block seen for the
/// first time is appended.
pub open spec fn palette_fold<T>(init: Seq<T>, bs: Seq<T>) -> Seq<T>
    decreases bs.len(),
{
    if bs.len() == 0 {
        init
    } else {
        let p = palette_fold(init, bs.drop_last());
        if p.contains(bs.last()) {
            p
        } else {
            p.push(bs.last())
        }
    }
}

/// The position of a block palette where `block` stands, appending it when
/// it is new.
fn block_palette_index(palette: &mut Vec<BlockId>, block: &BlockId) -> (i: u16)
    requires
        old(palette)@.len() < 65535,
    ensures
        (i as int) < final(palette)@.len(),
        final(palette)@[i as int]@ == block@,
        block_views(final(palette)@) == (if block_views(old(palette)@).contains(block@) {
            block_views(old(palette)@)
        } else {
            block_views(old(palette)@).push(block@)
        }),
        old(palette)@.len() <= final(palette)@.len() <= old(palette)@.len() + 1,
        forall|k: int| 0 <= k < old(palette)@.len() ==> #[trigger] final(palette)@[k] == old(palette)@[k],
{
    let mut k: usize = 0;
    while k < palette.len()
        invariant
            k <= palette@.len() < 65535,
            palette@ == old(palette)@,
            forall|t: int| 0 <= t < k ==> (#[trigger] palette@[t])@ != block@,
        decreases palette@.len() - k,
    {
        if palette[k].same(block) {
            proof {
                assert(block_views(palette@)[k as int] == block@);
            }
            return k as u16;
        }
        k = k + 1;
    }
    proof {
        assert(!block_views(palette@).contains(block@)) by {
            if block_views(palette@).contains(block@) {
                let t = choose|t: int| 0 <= t < block_views(palette@).len() && block_views(palette@)[t] == block@;
                assert(palette@[t]@ == block@);
            }
        }
    }
    let n = palette.len();
    palette.push(block.duplicate());
    proof {
        assert(block_views(palette@) =~= block_views(old(palette)@).push(block@));
    }
    n as u16
}

pub open spec fn name_views(p: Seq<String>) -> Seq<Seq<char>> {
    p.map_values(|b: String| b@)
}

/// The position of a biome palette where `biome` stands, appending it when
/// it is new.
fn biome_palette_index(palette: &mut Vec<String>, biome: &String) -> (i: u16)
    requires
        old(palette)@.len() < 65535,
    ensures
        (i as int) < final(palette)@.len(),
        final(palette)@[i as int]@ == biome@,
        name_views(final(palette)@) == (if name_views(old(palette)@).contains(biome@) {
            name_views(old(palette)@)
        } else {
            name_views(old(palette)@).push(biome@)
        }),
        old(palette)@.len() <= final(palette)@.len() <= old(palette)@.len() + 1,
        forall|k: int| 0 <= k < old(palette)@.len() ==> #[trigger] final(palette)@[k] == old(palette)@[k],
{
    let mut k: usize = 0;
    while k < palette.len()
        invariant
            k <= palette@.len() < 65535,
            palette@ == old(palette)@,
            forall|t: int| 0 <= t < k ==> (#[trigger] palette@[t])@ != biome@,
        decreases palette@.len() - k,
    {
        if palette[k].eq(biome) {
            proof {
                assert(name_views(palette@)[k as int] == biome@);
            }
            return k as u16;
        }
        k = k + 1;
    }
    proof {
        assert(!name_views(palette@).contains(biome@)) by {
            if name_views(palette@).contains(biome@) {
                let t = choose|t: int| 0 <= t < name_views(palette@).len() && name_views(palette@)[t] == biome@;
                assert(palette@[t]@ == biome@);
            }
        }
    }
    let n = palette.len();
    palette.push(biome.clone());
    proof {
        assert(name_views(palette@) =~= name_views(old(palette)@).push(biome@));
    }
    n as u16
}

/// One encoded section.
#[derive(Debug)]
pub struct SectionData {
    pub y: i8,
    /// Block names; `minecraft:air` comes first.
    pub block_palette: Vec<String>,
    /// Block palette index of each position `y*256 + z*16 + x`.
    pub block_indices: Vec<u16>,
    /// `block_indices` packed, or nothing for a single-entry palette.
    pub block_data: Option<Vec<u64>>,
    pub biome_palette: Vec<String>,
    /// Biome palette index of each cell `by*16 + bz*4 + bx` of the 4x4x4 lattice.
    pub biome_indices: Vec<u16>,
    /// `biome_indices` packed, or nothing for a single-entry palette.
    pub biome_data: Option<Vec<u64>>,
}

/// Block at position `p` of section `sy`.
pub open spec fn section_block(sy: int, cols: Seq<ColumnView>, bottom: Seq<char>, p: int) -> BlockView {
    block_spec(sy * 16 + pos_y(p), cols[pos_z(p) * 16 + pos_x(p)], bottom)
}

/// Biome at position `p` of section `sy`.
pub open spec fn section_biome(sy: int, cols: Seq<ColumnView>, base: Seq<char>, p: int) -> Seq<char> {
    biome_spec(sy * 16 + pos_y(p), cols[pos_z(p) * 16 + pos_x(p)], base)
}

/// Whether section `sy` holds any block other than air.
pub open spec fn section_has_blocks(sy: int, cols: Seq<ColumnView>, bottom: Seq<char>) -> bool {
    exists|p: int| 0 <= p < 4096 && section_block(sy, cols, bottom, p) != BlockView::Air
}

pub open spec fn column_views(cols: Seq<ColumnSettings>) -> Seq<ColumnView> {
    cols.map_values(|c: ColumnSettings| c@)
}

/// Packed palette data: nothing for at most one entry, else the indices
/// packed at `max(min_bits, bits_for_range(len))` bits.
pub open spec fn packed_indices(data: Option<Vec<u64>>, indices: Seq<u16>, palette_len: nat, min_bits: nat) -> bool {
    &&& (palette_len <= 1 <==> data.is_none())
    &&& (data.is_some() ==> exists|b: nat|
        #![trigger is_bits_for_range(palette_len, b)]
        is_bits_for_range(palette_len, b) && is_packing(
            data.unwrap()@,
            indices.map_values(|v: u16| v as u64),
            if b < min_bits { min_bits } else { b },
        ))
}

/// What an encoded section of height `sy` holds.
pub open spec fn section_ok(s: SectionData, sy: int, cols: Seq<ColumnView>, bottom: Seq<char>, base: Seq<char>) -> bool {
    &&& s.y as int == sy
    &&& s.block_palette@.len() >= 1
    &&& s.block_palette@[0]@ == "minecraft:air"@
    &&& s.block_indices@.len() == 4096
    &&& s.biome_indices@.len() == 64
    &&& forall|p: int| 0 <= p < 4096 ==> {
        &&& (#[trigger] s.block_indices@[p] as int) < s.block_palette@.len()
        &&& s.block_palette@[s.block_indices@[p] as int]@ == block_name(section_block(sy, cols, bottom, p))
    }
    &&& forall|c: int| 0 <= c < 64 ==> {
        &&& (#[trigger] s.biome_indices@[c] as int) < s.biome_palette@.len()
        &&& s.biome_palette@[s.biome_indices@[c] as int]@ == section_biome(sy, cols, base, cell_last(c))
    }
    &&& packed_indices(s.block_data, s.block_indices@, s.block_palette@.len(), 4)
    &&& packed_indices(s.biome_data, s.biome_indices@, s.biome_palette@.len(), 1)
    &&& name_views(s.block_palette@) == section_palette(sy, cols, bottom).map_values(|b: BlockView| block_name(b))
    &&& forall|p: int| 0 <= p < 4096 ==> section_palette(sy, cols, bottom)[(#[trigger] s.block_indices@[p]) as int]
        == section_block(sy, cols, bottom, p)
    &&& name_views(s.biome_palette@) == biome_palette_spec(sy, cols, base)
}

/// The blocks of section `sy`, in encoding order.
pub open spec fn section_blocks(sy: int, cols: Seq<ColumnView>, bottom: Seq<char>, n: int) -> Seq<BlockView> {
    Seq::new(n as nat, |q: int| section_block(sy, cols, bottom, q))
}

/// The biomes of section `sy`, in encoding order.
pub open spec fn section_biomes(sy: int, cols: Seq<ColumnView>, base: Seq<char>, n: int) -> Seq<Seq<char>> {
    Seq::new(n as nat, |q: int| section_biome(sy, cols, base, q))
}

/// Block palette of section `sy`: air, then each other block in order of
/// first appearance.
pub open spec fn section_palette(sy: int, cols: Seq<ColumnView>, bottom: Seq<char>) -> Seq<BlockView> {
    palette_fold(seq![BlockView::Air], section_blocks(sy, cols, bottom, 4096))
}

/// Biome palette of section `sy`: each biome in order of first appearance.
pub open spec fn biome_palette_spec(sy: int, cols: Seq<ColumnView>, base: Seq<char>) -> Seq<Seq<char>> {
    palette_fold(Seq::empty(), section_biomes(sy, cols, base, 4096))
}

/// A palette fold never repeats an entry when its start does not.
pub proof fn lemma_palette_fold_distinct<T>(init: Seq<T>, bs: Seq<T>)
    requires
        init.no_duplicates(),
    ensures
        palette_fold(init, bs).no_duplicates(),
        forall|i: int| 0 <= i < bs.len() ==> palette_fold(init, bs).contains(#[trigger] bs[i]),
    decreases bs.len(),
{
    if bs.len() > 0 {
        let init_bs = bs.drop_last();
        lemma_palette_fold_distinct(init, init_bs);
        let p = palette_fold(init, init_bs);
        assert forall|i: int| 0 <= i < bs.len() implies palette_fold(init, bs).contains(#[trigger] bs[i]) by {
            if i < bs.len() - 1 {
                assert(init_bs[i] == bs[i]);
                assert(p.contains(bs[i]));
                if !p.contains(bs.last()) {
                    let k = choose|k: int| 0 <= k < p.len() && p[k] == bs[i];
                    assert(p.push(bs.last())[k] == bs[i]);
                }
            } else {
                if !p.contains(bs.last()) {
                    assert(p.push(bs.last())[p.len() as int] == bs.last());
                }
            }
        }
    }
}

/// Encodes section `section_y` of a chunk whose columns are `cols`; an
/// all-air section gives nothing.
pub fn build_section(
    section_y: i8,
    cols: &Vec<ColumnSettings>,
    bottom_block: &String,
    base_biome: &String,
) -> (r: Option<SectionData>)
    requires
        cols@.len() == 256,
    ensures
        r.is_some() <==> section_has_blocks(section_y as int, column_views(cols@), bottom_block@),
        r.is_some() ==> section_ok(r.unwrap(), section_y as int, column_views(cols@), bottom_block@, base_biome@),
{
    let ghost cv = column_views(cols@);
    let mut palette: Vec<BlockId> = Vec::new();
    palette.push(BlockId::Air);
    let mut indices: Vec<u16> = Vec::new();
    let mut has_blocks = false;
    let mut biome_palette: Vec<String> = Vec::new();
    let mut biome_indices: Vec<u16> = Vec::new();
    let mut c: usize = 0;
    while c < 64
        invariant
            c <= 64,
            biome_indices@.len() == c,
        decreases 64 - c,
    {
        biome_indices.push(0);
        c = c + 1;
    }
    let mut p: usize = 0;
    proof {
        assert(block_views(palette@) =~= seq![BlockView::Air]);
        assert(section_blocks(section_y as int, cv, bottom_block@, 0) =~= Seq::<BlockView>::empty());
        assert(section_biomes(section_y as int, cv, base_biome@, 0) =~= Seq::<Seq<char>>::empty());
        assert(name_views(biome_palette@) =~= Seq::<Seq<char>>::empty());
    }
    while p < 4096
        invariant
            p <= 4096,
            cv == column_views(cols@),
            cols@.len() == 256,
            1 <= palette@.len() <= p + 1,
            palette@[0]@ == BlockView::Air,
            biome_palette@.len() <= p,
            indices@.len() == p,
            biome_indices@.len() == 64,
            forall|q: int| 0 <= q < p ==> {
                &&& (#[trigger] indices@[q] as int) < palette@.len()
                &&& palette@[indices@[q] as int]@ == section_block(section_y as int, cv, bottom_block@, q)
            },
            forall|d: int| 0 <= d < 64 && cell_last(d) < p ==> {
                &&& (#[trigger] biome_indices@[d] as int) < biome_palette@.len()
                &&& biome_palette@[biome_indices@[d] as int]@ == section_biome(section_y as int, cv, base_biome@, cell_last(d))
            },
            has_blocks <==> exists|q: int| 0 <= q < p && section_block(section_y as int, cv, bottom_block@, q) != BlockView::Air,
            block_views(palette@) == palette_fold(seq![BlockView::Air], section_blocks(section_y as int, cv, bottom_block@, p as int)),
            name_views(biome_palette@) == palette_fold(Seq::<Seq<char>>::empty(), section_biomes(section_y as int, cv, base_biome@, p as int)),
        decreases 4096 - p,
    {
        proof {
            lemma_position(p as int);
        }
        let x: usize = p % 16;
        let z: usize = (p / 16) % 16;
        let ly: usize = p / 256;
        let world_y: i32 = section_y as i32 * 16 + ly as i32;
        let column = &cols[z * 16 + x];
        assert(cv[z * 16 + x] == column@);
        let block = block_for(world_y, column, bottom_block);
        let ghost old_palette = palette@;
        let bi = block_palette_index(&mut palette, &block);
        indices.push(bi);
        if !block.is_air() {
            has_blocks = true;
        }
        let biome = biome_for_y(column, world_y, base_biome);
        let ghost old_biomes = biome_palette@;
        let bpi = biome_palette_index(&mut biome_palette, biome);
        let cell = biome_index(x, ly, z);
        let ghost old_bi = biome_indices@;
        biome_indices.set(cell, bpi);
        proof {
            assert(section_blocks(section_y as int, cv, bottom_block@, p + 1).drop_last() =~= section_blocks(section_y as int, cv, bottom_block@, p as int));
            assert(section_biomes(section_y as int, cv, base_biome@, p + 1).drop_last() =~= section_biomes(section_y as int, cv, base_biome@, p as int));
            assert forall|q: int| 0 <= q < p + 1 implies {
                &&& (#[trigger] indices@[q] as int) < palette@.len()
                &&& palette@[indices@[q] as int]@ == section_block(section_y as int, cv, bottom_block@, q)
            } by {
                if q < p {
                    assert(old_palette[indices@[q] as int] == palette@[indices@[q] as int]);
                }
            }
            assert forall|d: int| 0 <= d < 64 && cell_last(d) < p + 1 implies {
                &&& (#[trigger] biome_indices@[d] as int) < biome_palette@.len()
                &&& biome_palette@[biome_indices@[d] as int]@ == section_biome(section_y as int, cv, base_biome@, cell_last(d))
            } by {
                lemma_cell_last(d);
                if d == cell as int {
                    if cell_last(d) < p {
                        assert(false);
                    }
                } else {
                    assert(cell_last(d) != p);
                    assert(old_biomes[old_bi[d] as int] == biome_palette@[biome_indices@[d] as int]);
                }
            }
            if has_blocks {
                if section_block(section_y as int, cv, bottom_block@, p as int) != BlockView::Air {
                } else {
                }
            }
        }
        p = p + 1;
    }
    if !has_blocks {
        return None;
    }
    proof {
        let fold = palette_fold(seq![BlockView::Air], section_blocks(section_y as int, cv, bottom_block@, 4096));
        assert(block_views(palette@) == fold);
        assert forall|q: int| 0 <= q < 4096 implies fold[(#[trigger] indices@[q]) as int] == section_block(section_y as int, cv, bottom_block@, q) by {
            assert(block_views(palette@)[indices@[q] as int] == palette@[indices@[q] as int]@);
        }
    }
    let mut names: Vec<String> = Vec::new();
    let mut k: usize = 0;
    while k < palette.len()
        invariant
            k <= palette@.len(),
            names@.len() == k,
            forall|t: int| 0 <= t < k ==> (#[trigger] names@[t])@ == block_name(palette@[t]@),
        decreases palette@.len() - k,
    {
        names.push(palette[k].name());
        k = k + 1;
    }
    proof {
        assert(name_views(names@) =~= block_views(palette@).map_values(|b: BlockView| block_name(b)));
    }
    let block_data = pack_palette_indices(&indices, names.len(), 4);
    let biome_data = pack_palette_indices(&biome_indices, biome_palette.len(), 1);
    proof {
        assert forall|d: int| 0 <= d < 64 implies cell_last(d) < 4096 by {
            lemma_cell_last(d);
        }
    }
    Some(SectionData {
        y: section_y,
        block_palette: names,
        block_indices: indices,
        block_data,
        biome_palette,
        biome_indices,
        biome_data,
    })
}

} // verus!
