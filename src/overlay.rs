//! Column overlays: style overrides painted onto single columns, and the
//! total rank order that decides which of two overlays a column keeps.
use vstd::prelude::*;

verus! {

/// What an overlay says, with names as character sequences.
pub struct OverlayView {
    pub layer_index: i32,
    pub order: u32,
    pub biome: Option<Seq<char>>,
    pub surface_block: Option<Seq<char>>,
    pub subsurface_block: Option<Seq<char>>,
    pub top_thickness: Option<u32>,
    pub extrusion_block: Option<Seq<char>>,
    pub extrusion_height: Option<u32>,
}

/// A column-scoped style override.
#[derive(Debug)]
pub struct ColumnOverlay {
    pub layer_index: i32,
    pub order: u32,
    pub biome: Option<String>,
    pub surface_block: Option<String>,
    pub subsurface_block: Option<String>,
    pub top_thickness: Option<u32>,
    pub extrusion_block: Option<String>,
    pub extrusion_height: Option<u32>,
}

pub open spec fn opt_view(o: Option<String>) -> Option<Seq<char>> {
    match o {
        Some(s) => Some(s@),
        None => None,
    }
}

impl View for ColumnOverlay {
    type V = OverlayView;

    open spec fn view(&self) -> OverlayView {
        OverlayView {
            layer_index: self.layer_index,
            order: self.order,
            biome: opt_view(self.biome),
            surface_block: opt_view(self.surface_block),
            subsurface_block: opt_view(self.subsurface_block),
            top_thickness: self.top_thickness,
            extrusion_block: opt_view(self.extrusion_block),
            extrusion_height: self.extrusion_height,
        }
    }
}

/// `a` outranks `b`: a lower layer index wins; within one layer the higher
/// order wins.
pub open spec fn outranks(a: OverlayView, b: OverlayView) -> bool {
    a.layer_index < b.layer_index || (a.layer_index == b.layer_index && a.order > b.order)
}

/// The overlay a column holds after `new` is painted over `current`.
pub open spec fn arbitrate(current: Option<OverlayView>, new: OverlayView) -> OverlayView {
    match current {
        Some(c) => if outranks(c, new) {
            c
        } else {
            new
        },
        None => new,
    }
}

/// The overlay a column holds after each of `s` is painted in turn.
pub open spec fn paint_all(start: Option<OverlayView>, s: Seq<OverlayView>) -> Option<
    OverlayView,
>
    decreases s.len(),
{
    if s.len() == 0 {
        start
    } else {
        paint_all(Some(arbitrate(start, s[0])), s.drop_first())
    }
}

/// No two distinct overlays of `s` share a `(layer_index, order)` rank key.
pub open spec fn keys_distinct(s: Seq<OverlayView>) -> bool {
    forall|i: int, j: int|
        0 <= i < s.len() && 0 <= j < s.len() && #[trigger] s[i].layer_index
            == #[trigger] s[j].layer_index && s[i].order == s[j].order ==> s[i] == s[j]
}

fn clone_name(o: &Option<String>) -> (r: Option<String>)
    ensures
        opt_view(r) == opt_view(*o),
{
    match o {
        Some(s) => Some(s.clone()),
        None => None,
    }
}

impl ColumnOverlay {
    /// An overlay with the given rank and overrides.
    pub fn new(
        layer_index: i32,
        order: u32,
        biome: Option<String>,
        surface_block: Option<String>,
        subsurface_block: Option<String>,
        top_thickness: Option<u32>,
        extrusion_block: Option<String>,
        extrusion_height: Option<u32>,
    ) -> (r: Self)
        ensures
            r@ == (OverlayView {
                layer_index,
                order,
                biome: opt_view(biome),
                surface_block: opt_view(surface_block),
                subsurface_block: opt_view(subsurface_block),
                top_thickness,
                extrusion_block: opt_view(extrusion_block),
                extrusion_height,
            }),
    {
        ColumnOverlay {
            layer_index,
            order,
            biome,
            surface_block,
            subsurface_block,
            top_thickness,
            extrusion_block,
            extrusion_height,
        }
    }

    /// A copy of this overlay.
    pub fn duplicate(&self) -> (r: Self)
        ensures
            r@ == self@,
    {
        ColumnOverlay {
            layer_index: self.layer_index,
            order: self.order,
            biome: clone_name(&self.biome),
            surface_block: clone_name(&self.surface_block),
            subsurface_block: clone_name(&self.subsurface_block),
            top_thickness: self.top_thickness,
            extrusion_block: clone_name(&self.extrusion_block),
            extrusion_height: self.extrusion_height,
        }
    }

    /// Whether this overlay outranks `other`.
    pub fn outranks(&self, other: &ColumnOverlay) -> (r: bool)
        ensures
            r == outranks(self@, other@),
    {
        if self.layer_index != other.layer_index {
            self.layer_index < other.layer_index
        } else {
            self.order > other.order
        }
    }

    pub fn biome_override(&self) -> (r: Option<String>)
        ensures
            opt_view(r) == self@.biome,
    {
        clone_name(&self.biome)
    }

    pub fn surface_block_override(&self) -> (r: Option<String>)
        ensures
            opt_view(r) == self@.surface_block,
    {
        clone_name(&self.surface_block)
    }

    pub fn subsurface_block_override(&self) -> (r: Option<String>)
        ensures
            opt_view(r) == self@.subsurface_block,
    {
        clone_name(&self.subsurface_block)
    }

    pub fn top_thickness_override(&self) -> (r: Option<u32>)
        ensures
            r == self@.top_thickness,
    {
        self.top_thickness
    }
}

/// Paints `new` over the overlay a column holds: the current one stays only
/// when it outranks `new`.
pub fn apply_overlay_slot(slot: &mut Option<ColumnOverlay>, new: ColumnOverlay)
    ensures
        final(slot).is_some(),
        final(slot).unwrap()@ == arbitrate(
            match *old(slot) {
                Some(c) => Some(c@),
                None => None,
            },
            new@,
        ),
{
    let replace = match slot {
        Some(current) => !current.outranks(&new),
        None => true,
    };
    if replace {
        *slot = Some(new);
    }
}

/// The rank relation is a strict total order on distinct keys.
pub proof fn lemma_outranks_total(a: OverlayView, b: OverlayView)
    ensures
        !(outranks(a, b) && outranks(b, a)),
        (a.layer_index != b.layer_index || a.order != b.order) ==> (outranks(a, b) || outranks(
            b,
            a,
        )),
{
}

/// Two overlays with distinct rank keys give the same result in either order.
pub proof fn lemma_arbitrate_commutes(c: Option<OverlayView>, a: OverlayView, b: OverlayView)
    requires
        a.layer_index != b.layer_index || a.order != b.order,
        match c {
            Some(x) => (x.layer_index != a.layer_index || x.order != a.order || x == a) && (
            x.layer_index != b.layer_index || x.order != b.order || x == b),
            None => true,
        },
    ensures
        arbitrate(Some(arbitrate(c, a)), b) == arbitrate(Some(arbitrate(c, b)), a),
{
}

/// The element of `s` that outranks all the others, when painted over `start`.
proof fn lemma_paint_all_top(start: Option<OverlayView>, s: Seq<OverlayView>)
    requires
        s.len() > 0 || start.is_some(),
        keys_distinct(s.add(
            match start {
                Some(x) => seq![x],
                None => Seq::empty(),
            },
        )),
    ensures
        paint_all(start, s).is_some(),
        s.contains(paint_all(start, s).unwrap()) || start == paint_all(start, s),
        forall|i: int| 0 <= i < s.len() ==> (s[i] == paint_all(start, s).unwrap() || outranks(paint_all(start, s).unwrap(), #[trigger] s[i])),
        match start {
            Some(x) => x == paint_all(start, s).unwrap() || outranks(paint_all(start, s).unwrap(), x),
            None => true,
        },
    decreases s.len(),
{
    if s.len() > 0 {
        let next = arbitrate(start, s[0]);
        let rest = s.drop_first();
        let all = s.add(
            match start {
                Some(x) => seq![x],
                None => Seq::empty(),
            },
        );
        let all2 = rest.add(seq![next]);
        assert forall|i: int, j: int|
            0 <= i < all2.len() && 0 <= j < all2.len() && #[trigger] all2[i].layer_index
                == #[trigger] all2[j].layer_index && all2[i].order == all2[j].order implies all2[i]
            == all2[j] by {
            let ii = if i < rest.len() { i + 1 } else { if next == s[0] { 0 } else { s.len() as int } };
            let jj = if j < rest.len() { j + 1 } else { if next == s[0] { 0 } else { s.len() as int } };
            assert(all[ii] == all2[i]);
            assert(all[jj] == all2[j]);
        }
        lemma_paint_all_top(Some(next), rest);
        match start {
            Some(x) => {
                assert(all[0] == s[0]);
                assert(all[s.len() as int] == x);
            },
            None => {},
        }
        let r = paint_all(start, s).unwrap();
        assert(paint_all(start, s) == paint_all(Some(next), rest));
        assert forall|i: int| 0 <= i < s.len() implies (s[i] == r || outranks(r, #[trigger] s[i])) by {
            if i > 0 {
                assert(s[i] == rest[i - 1]);
            }
        }
        if r != next {
            assert(rest.contains(r));
            let k = choose|k: int| 0 <= k < rest.len() && rest[k] == r;
            assert(s[k + 1] == r);
        }
    }
}

/// Painting the same set of overlays, whose rank keys are distinct, in any
/// order leaves the column with the same overlay.
pub proof fn lemma_paint_order_independent(s1: Seq<OverlayView>, s2: Seq<OverlayView>)
    requires
        s1.len() > 0,
        forall|x: OverlayView| s1.contains(x) <==> s2.contains(x),
        keys_distinct(s1),
    ensures
        paint_all(None, s1) == paint_all(None, s2),
{
    assert(s1.add(Seq::empty()) =~= s1);
    assert(s1.contains(s1[0]));
    assert(s2.len() > 0);
    assert(keys_distinct(s2)) by {
        assert forall|i: int, j: int|
            0 <= i < s2.len() && 0 <= j < s2.len() && #[trigger] s2[i].layer_index
                == #[trigger] s2[j].layer_index && s2[i].order == s2[j].order implies s2[i]
            == s2[j] by {
            assert(s2.contains(s2[i]));
            assert(s2.contains(s2[j]));
            let a = choose|a: int| 0 <= a < s1.len() && s1[a] == s2[i];
            let b = choose|b: int| 0 <= b < s1.len() && s1[b] == s2[j];
            assert(s1[a].layer_index == s1[b].layer_index);
        }
    }
    assert(s2.add(Seq::empty()) =~= s2);
    lemma_paint_all_top(None, s1);
    lemma_paint_all_top(None, s2);
    let r1 = paint_all(None, s1).unwrap();
    let r2 = paint_all(None, s2).unwrap();
    assert(s2.contains(r1));
    assert(s1.contains(r2));
    let i1 = choose|i: int| 0 <= i < s2.len() && s2[i] == r1;
    let i2 = choose|i: int| 0 <= i < s1.len() && s1[i] == r2;
    assert(s2[i1] == r2 || outranks(r2, s2[i1]));
    assert(s1[i2] == r1 || outranks(r1, s1[i2]));
    lemma_outranks_total(r1, r2);
}

} // verus!
