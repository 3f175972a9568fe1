//! Overlay styles and layer configuration: validation, extrusion heights,
//! height ranges and the order in which layers are painted.
use crate::coords::{dem_to_block_spec, dem_to_minecraft, round_div, round_div_i128, saturate_i32};
use crate::overlay::{opt_view, ColumnOverlay};
use crate::terrain::ConfigError;
use crate::wmts::{color_matches, ColorError, ColorMatcher, RgbaColor};
use crate::text::{blank, is_blank, trim_of, trim_text};
use vstd::prelude::*;

verus! {

/// A numeric tag source: a tag key and the factor (thousandths) applied to its value.
#[derive(Debug)]
pub struct AttributeKeySource {
    pub key: String,
    pub multiplier_milli: i64,
}

impl AttributeKeySource {
    pub fn key(&self) -> (r: &String)
        ensures
            r@ == self.key@,
    {
        &self.key
    }

    pub fn multiplier(&self) -> (r: i64)
        ensures
            r == self.multiplier_milli,
    {
        self.multiplier_milli
    }
}

/// A length (millimetres) read from feature tags, with a default and optional bounds.
#[derive(Debug)]
pub struct AttributeSource {
    pub default_mm: i64,
    pub min_mm: Option<i64>,
    pub max_mm: Option<i64>,
    pub sources: Vec<AttributeKeySource>,
}

pub open spec fn clamp_attr(v: int, min: Option<i64>, max: Option<i64>) -> int {
    let a = match min {
        Some(m) => if v < m { m as int } else { v },
        None => v,
    };
    match max {
        Some(m) => if a > m { m as int } else { a },
        None => a,
    }
}

impl AttributeSource {
    pub fn default_value(&self) -> (r: i64)
        ensures
            r == self.default_mm,
    {
        self.default_mm
    }

    pub fn sources(&self) -> (r: &Vec<AttributeKeySource>)
        ensures
            r@ == self.sources@,
    {
        &self.sources
    }

    /// `value` raised to the minimum, then lowered to the maximum.
    pub fn clamp(&self, value: i64) -> (r: i64)
        ensures
            r as int == clamp_attr(value as int, self.min_mm, self.max_mm),
    {
        let mut result = value;
        match self.min_mm {
            Some(m) => {
                if result < m {
                    result = m;
                }
            },
            None => {},
        }
        match self.max_mm {
            Some(m) => {
                if result > m {
                    result = m;
                }
            },
            None => {},
        }
        result
    }

    /// The value of a feature: the clamped tag value when one of the sources
    /// gave one, else the default.
    pub fn resolve(&self, tag_value_mm: Option<i64>) -> (r: i64)
        ensures
            r as int == (match tag_value_mm {
                Some(v) => clamp_attr(v as int, self.min_mm, self.max_mm),
                None => self.default_mm as int,
            }),
    {
        match tag_value_mm {
            Some(v) => self.clamp(v),
            None => self.default_mm,
        }
    }
}

/// Blocks stacked above the surface of a feature.
#[derive(Debug)]
pub struct ExtrusionStyle {
    pub height: AttributeSource,
    pub block: Option<String>,
}

impl ExtrusionStyle {
    pub fn height(&self) -> (r: &AttributeSource)
        ensures
            *r == self.height,
    {
        &self.height
    }

    pub fn block(&self) -> (r: Option<&String>)
        ensures
            match r {
                Some(b) => self.block == Some(*b),
                None => self.block.is_none(),
            },
    {
        self.block.as_ref()
    }
}

/// What a layer paints onto the columns it covers.
#[derive(Debug)]
pub struct OverlayStyle {
    pub biome: Option<String>,
    pub surface_block: Option<String>,
    pub subsurface_block: Option<String>,
    pub top_thickness: Option<u32>,
    pub extrusion: Option<ExtrusionStyle>,
}

pub open spec fn name_ok(n: Option<String>) -> bool {
    match n {
        Some(s) => !blank(s@),
        None => true,
    }
}

/// A name that must not be blank when given.
pub fn normalize_style_name(value: Option<String>) -> (r: Result<Option<String>, ConfigError>)
    ensures
        name_ok(value) ==> r == Ok::<Option<String>, ConfigError>(value),
        !name_ok(value) ==> r == Err::<Option<String>, ConfigError>(ConfigError::EmptyName),
{
    match value {
        Some(name) => {
            if is_blank(name.as_str()) {
                Err(ConfigError::EmptyName)
            } else {
                Ok(Some(name))
            }
        },
        None => Ok(None),
    }
}

fn clone_name(o: &Option<String>) -> (r: Option<String>)
    ensures
        opt_view(r) == opt_view(*o),
{
    match o {
        Some(s) => Some(s.clone()),
        None => None,
    }
}

/// Extrusion of a feature whose height resolved to `height_mm`: nothing for
/// a height under half a block or without a block to use, else the block
/// (the style's own, or its surface block) and the rounded height, at least 1.
pub open spec fn structure_spec(block: Option<Seq<char>>, height_mm: int) -> (Option<Seq<char>>, Option<u32>) {
    let capped = if height_mm > 2_147_483_647_000 { 2_147_483_647_000 } else { height_mm };
    if height_mm <= 0 || capped < 500 || block.is_none() {
        (None, None)
    } else {
        (block, Some(round_div(capped, 1000) as u32))
    }
}

impl OverlayStyle {
    /// A validated style: it sets at least one thing, its thickness is not 0,
    /// and its names are not blank.
    pub fn new(
        biome: Option<String>,
        surface_block: Option<String>,
        subsurface_block: Option<String>,
        top_thickness: Option<u32>,
        extrusion: Option<ExtrusionStyle>,
    ) -> (r: Result<Self, ConfigError>)
        ensures
            r.is_ok() <==> (!(biome.is_none() && surface_block.is_none() && subsurface_block.is_none() && top_thickness.is_none() && extrusion.is_none())
                && top_thickness != Some(0u32) && name_ok(biome) && name_ok(surface_block) && name_ok(subsurface_block)
                && match extrusion { Some(e) => name_ok(e.block), None => true }),
            r.is_ok() ==> opt_view(r.unwrap().biome) == opt_view(biome) && opt_view(r.unwrap().surface_block) == opt_view(surface_block)
                && opt_view(r.unwrap().subsurface_block) == opt_view(subsurface_block) && r.unwrap().top_thickness == top_thickness
                && r.unwrap().extrusion == extrusion,
    {
        if biome.is_none() && surface_block.is_none() && subsurface_block.is_none() && top_thickness.is_none() && extrusion.is_none() {
            return Err(ConfigError::EmptyStyle);
        }
        match top_thickness {
            Some(0) => {
                return Err(ConfigError::ZeroTopThickness);
            },
            _ => {},
        }
        let extrusion = match extrusion {
            Some(e) => {
                let block = normalize_style_name(e.block)?;
                Some(ExtrusionStyle { height: e.height, block })
            },
            None => None,
        };
        let biome = normalize_style_name(biome)?;
        let surface_block = normalize_style_name(surface_block)?;
        let subsurface_block = normalize_style_name(subsurface_block)?;
        Ok(OverlayStyle { biome, surface_block, subsurface_block, top_thickness, extrusion })
    }

    /// The extrusion of a feature whose height resolved to `height_mm`.
    pub fn resolve_structure(&self, height_mm: i64) -> (r: (Option<String>, Option<u32>))
        ensures
            (opt_view(r.0), r.1) == structure_spec(
                match self.extrusion {
                    Some(e) => match e.block {
                        Some(b) => Some(b@),
                        None => opt_view(self.surface_block),
                    },
                    None => None,
                },
                height_mm as int,
            ),
    {
        let ext = match &self.extrusion {
            Some(e) => e,
            None => {
                return (None, None);
            },
        };
        if height_mm <= 0 {
            return (None, None);
        }
        let capped: i64 = if height_mm > 2_147_483_647_000 { 2_147_483_647_000 } else { height_mm };
        if capped < 500 {
            return (None, None);
        }
        let block = match &ext.block {
            Some(b) => Some(b.clone()),
            None => clone_name(&self.surface_block),
        };
        match block {
            None => (None, None),
            Some(b) => {
                let blocks = round_div_i128(capped as i128, 1000);
                assert(1 <= blocks <= 2_147_483_647) by (nonlinear_arith)
                    requires 500 <= capped <= 2_147_483_647_000, blocks == (2 * capped + 1000) / 2000;
                (Some(b), Some(blocks as u32))
            },
        }
    }

    /// The overlay a feature of this style paints, with the given rank and
    /// extrusion height.
    pub fn column_overlay(&self, layer_index: i32, order: u32, height_mm: i64) -> (r: ColumnOverlay)
        ensures
            r@.layer_index == layer_index,
            r@.order == order,
            r@.biome == opt_view(self.biome),
            r@.surface_block == opt_view(self.surface_block),
            r@.subsurface_block == opt_view(self.subsurface_block),
            r@.top_thickness == self.top_thickness,
            (r@.extrusion_block, r@.extrusion_height) == structure_spec(
                match self.extrusion {
                    Some(e) => match e.block {
                        Some(b) => Some(b@),
                        None => opt_view(self.surface_block),
                    },
                    None => None,
                },
                height_mm as int,
            ),
    {
        let (block, height) = self.resolve_structure(height_mm);
        ColumnOverlay::new(
            layer_index,
            order,
            clone_name(&self.biome),
            clone_name(&self.surface_block),
            clone_name(&self.subsurface_block),
            self.top_thickness,
            block,
            height,
        )
    }
}

/// How a vector layer's features are painted.
#[derive(Clone, Copy, Debug, PartialEq, Eq, Structural)]
pub enum OsmGeometry {
    Line,
    Polygon,
}

/// `a` paints before `b`: higher layer index first, then lower declaration
/// order; a missing index counts as 0.
pub open spec fn layer_before(a_index: Option<i32>, b_index: Option<i32>, a_order: u32, b_order: u32) -> bool {
    let a: int = match a_index { Some(v) => v as int, None => 0 };
    let b: int = match b_index { Some(v) => v as int, None => 0 };
    a > b || (a == b && a_order < b_order)
}

/// Orders two layers for painting: higher layer index first, then lower
/// declaration order. Negative when `a` comes first, positive when `b`
/// does, zero when they tie.
pub fn compare_layer_order(a_index: Option<i32>, b_index: Option<i32>, a_order: u32, b_order: u32) -> (r: i8)
    ensures
        (r < 0) <==> layer_before(a_index, b_index, a_order, b_order),
        (r > 0) <==> layer_before(b_index, a_index, b_order, a_order),
        -1 <= r <= 1,
{
    let a = match a_index { Some(v) => v, None => 0 };
    let b = match b_index { Some(v) => v, None => 0 };
    assert(layer_before(a_index, b_index, a_order, b_order) == (a > b || (a == b && a_order < b_order)));
    assert(layer_before(b_index, a_index, b_order, a_order) == (b > a || (a == b && b_order < a_order)));
    if b > a {
        1
    } else if b < a {
        -1
    } else if a_order < b_order {
        -1
    } else if a_order > b_order {
        1
    } else {
        0
    }
}

/// Sort key of a layer: descending index, then ascending order, then position.
pub open spec fn layer_key(index: Option<i32>, order: u32, pos: int) -> (i64, u32, u64) {
    (-(match index { Some(v) => v as int, None => 0 }) as i64, order, pos as u64)
}

pub open spec fn key_le(a: (i64, u32, u64), b: (i64, u32, u64)) -> bool {
    a.0 < b.0 || (a.0 == b.0 && (a.1 < b.1 || (a.1 == b.1 && a.2 <= b.2)))
}

/// Relies on `slice::sort`: the same keys, in ascending lexicographic order
/// of the tuples.
#[verifier::external_body]
fn sort_keys(v: Vec<(i64, u32, u64)>) -> (r: Vec<(i64, u32, u64)>)
    ensures
        r@.to_multiset() == v@.to_multiset(),
        forall|i: int, j: int| 0 <= i < j < r@.len() ==> key_le(#[trigger] r@[i], #[trigger] r@[j]),
{
    let mut v = v;
    v.sort();
    v
}

/// Positions of the layers in painting order: higher layer index first,
/// then lower declaration order.
pub fn layer_order(layers: &Vec<(Option<i32>, u32)>) -> (r: Vec<usize>)
    ensures
        r@.len() == layers@.len(),
        forall|i: int| 0 <= i < r@.len() ==> (#[trigger] r@[i] as int) < layers@.len(),
        forall|i: int, j: int| 0 <= i < j < r@.len() ==> key_le(
            layer_key(layers@[r@[i] as int].0, layers@[r@[i] as int].1, r@[i] as int),
            layer_key(layers@[r@[j] as int].0, layers@[r@[j] as int].1, r@[j] as int),
        ),
{
    let mut keys: Vec<(i64, u32, u64)> = Vec::new();
    let mut i: usize = 0;
    while i < layers.len()
        invariant
            i <= layers@.len(),
            keys@.len() == i,
            forall|k: int| 0 <= k < i ==> #[trigger] keys@[k] == layer_key(layers@[k].0, layers@[k].1, k),
        decreases layers@.len() - i,
    {
        let (idx, order) = layers[i];
        let v: i64 = match idx { Some(v) => v as i64, None => 0 };
        keys.push((-v, order, i as u64));
        i = i + 1;
    }
    let n = layers.len();
    let sorted = sort_keys(keys);
    let ghost ks = keys@;
    let mut out: Vec<usize> = Vec::new();
    let mut k: usize = 0;
    while k < sorted.len()
        invariant
            k <= sorted@.len(),
            sorted@.to_multiset() == ks.to_multiset(),
            ks.len() == layers@.len(),
            n == layers@.len(),
            forall|t: int| 0 <= t < ks.len() ==> #[trigger] ks[t] == layer_key(layers@[t].0, layers@[t].1, t),
            out@.len() == k,
            forall|t: int| 0 <= t < k ==> (#[trigger] out@[t] as int) < layers@.len()
                && sorted@[t] == ks[out@[t] as int],
        decreases sorted@.len() - k,
    {
        let e = sorted[k];
        proof {
            assert(sorted@[k as int] == e);
            assert(sorted@.contains(e));
            vstd::seq_lib::to_multiset_contains(sorted@, e);
            vstd::seq_lib::to_multiset_contains(ks, e);
            assert(ks.contains(e));
            let t = choose|t: int| 0 <= t < ks.len() && ks[t] == e;
            assert(e.2 == t);
        }
        out.push(e.2 as usize);
        k = k + 1;
    }
    proof {
        vstd::seq_lib::to_multiset_len(sorted@);
        vstd::seq_lib::to_multiset_len(ks);
    }
    out
}

/// Integer part beyond which a height number is held at this cap; every
/// height that large maps to the top of the world or of the `i32` range.
pub const HEIGHT_INT_CAP: i64 = 1_000_000_000_000;

/// State of a left-to-right scan of the digits of a decimal number.
pub struct DecimalScan {
    pub ok: bool,
    pub dot: bool,
    pub digits: nat,
    pub int_val: int,
    pub frac_val: int,
    pub frac_len: nat,
}

/// Scans `[digits][.digits]`: the integer part (held at `HEIGHT_INT_CAP`)
/// and the first three fraction digits.
pub open spec fn scan_decimal(s: Seq<char>) -> DecimalScan
    decreases s.len(),
{
    if s.len() == 0 {
        DecimalScan { ok: true, dot: false, digits: 0, int_val: 0, frac_val: 0, frac_len: 0 }
    } else {
        let p = scan_decimal(s.drop_last());
        let c = s.last();
        if !p.ok {
            p
        } else if c == '.' {
            if p.dot {
                DecimalScan { ok: false, ..p }
            } else {
                DecimalScan { dot: true, ..p }
            }
        } else if '0' <= c && c <= '9' {
            let d = c as int - '0' as int;
            if !p.dot {
                let v = p.int_val * 10 + d;
                DecimalScan { digits: p.digits + 1, int_val: if v > HEIGHT_INT_CAP { HEIGHT_INT_CAP as int } else { v }, ..p }
            } else if p.frac_len < 3 {
                DecimalScan { digits: p.digits + 1, frac_val: p.frac_val * 10 + d, frac_len: p.frac_len + 1, ..p }
            } else {
                DecimalScan { digits: p.digits + 1, ..p }
            }
        } else {
            DecimalScan { ok: false, ..p }
        }
    }
}

pub open spec fn pow10(n: nat) -> int
    decreases n,
{
    if n == 0 { 1 } else { 10 * pow10((n - 1) as nat) }
}

/// Thousandths of a decimal number text: an optional sign, then digits with
/// an optional fraction, at least one digit; digits past the third decimal
/// are dropped.
pub open spec fn decimal_milli(s: Seq<char>) -> Option<int> {
    let neg = s.len() > 0 && s[0] == '-';
    let body = if s.len() > 0 && (s[0] == '-' || s[0] == '+') { s.drop_first() } else { s };
    let st = scan_decimal(body);
    if !st.ok || st.digits == 0 {
        None
    } else {
        let m = st.int_val * 1000 + st.frac_val * pow10((3 - st.frac_len) as nat);
        Some(if neg { -m } else { m })
    }
}

proof fn lemma_scan_bounds(s: Seq<char>)
    ensures
        0 <= scan_decimal(s).int_val <= HEIGHT_INT_CAP,
        scan_decimal(s).frac_len <= 3,
        0 <= scan_decimal(s).frac_val < pow10(scan_decimal(s).frac_len),
        scan_decimal(s).digits <= s.len(),
    decreases s.len(),
{
    if s.len() > 0 {
        lemma_scan_bounds(s.drop_last());
    }
}

/// Parses a decimal number into thousandths.
pub fn parse_decimal_milli(text: &str) -> (r: Option<i64>)
    ensures
        match decimal_milli(text@) {
            Some(m) => r == Some(m as i64) && -2_000_000_000_000_000 <= m <= 2_000_000_000_000_000,
            None => r.is_none(),
        },
{
    let n = text.unicode_len();
    let first: Option<char> = if n > 0 { Some(text.get_char(0)) } else { None };
    let neg = first == Some('-');
    let start: usize = if first == Some('-') || first == Some('+') { 1 } else { 0 };
    let ghost body = if text@.len() > 0 && (text@[0] == '-' || text@[0] == '+') { text@.drop_first() } else { text@ };
    assert(body =~= text@.subrange(start as int, n as int));
    let mut ok = true;
    let mut dot = false;
    let mut digits: usize = 0;
    let mut int_val: i64 = 0;
    let mut frac_val: i64 = 0;
    let mut frac_len: usize = 0;
    let mut i: usize = start;
    while i < n
        invariant
            start <= i <= n,
            n == text@.len(),
            body == text@.subrange(start as int, n as int),
            ({
                let st = scan_decimal(body.subrange(0, i - start));
                &&& st.ok == ok
                &&& st.dot == dot
                &&& st.digits == digits
                &&& st.int_val == int_val
                &&& st.frac_val == frac_val
                &&& st.frac_len == frac_len
            }),
            digits <= i,
        decreases n - i,
    {
        let c = text.get_char(i);
        proof {
            assert(body.subrange(0, i + 1 - start).drop_last() =~= body.subrange(0, i - start));
            assert(body.subrange(0, i + 1 - start).last() == c);
            lemma_scan_bounds(body.subrange(0, i - start));
            reveal_with_fuel(pow10, 4);
        }
        if ok {
            if c == '.' {
                if dot {
                    ok = false;
                } else {
                    dot = true;
                }
            } else if '0' <= c && c <= '9' {
                let d = (c as u32 - '0' as u32) as i64;
                if !dot {
                    let v = int_val * 10 + d;
                    int_val = if v > HEIGHT_INT_CAP { HEIGHT_INT_CAP } else { v };
                } else if frac_len < 3 {
                    frac_val = frac_val * 10 + d;
                    frac_len = frac_len + 1;
                }
                digits = digits + 1;
            } else {
                ok = false;
            }
        }
        i = i + 1;
    }
    assert(body.subrange(0, n - start) =~= body);
    if !ok || digits == 0 {
        return None;
    }
    proof {
        lemma_scan_bounds(body);
        reveal_with_fuel(pow10, 4);
    }
    let scale: i64 = if frac_len == 0 { 1000 } else if frac_len == 1 { 100 } else if frac_len == 2 { 10 } else { 1 };
    assert(scale == pow10((3 - frac_len) as nat)) by {
        reveal_with_fuel(pow10, 4);
    }
    assert(0 <= frac_val * scale <= 1_000_000) by (nonlinear_arith)
        requires 0 <= frac_val < 1000, 1 <= scale <= 1000;
    let m: i64 = int_val * 1000 + frac_val * scale;
    Some(if neg { -m } else { m })
}

/// A layer height: `"N m"` (metres, mapped like an elevation), `"N b"` (a
/// raw block Y), or a bare number (metres).
pub open spec fn height_spec(raw: Seq<char>) -> Result<i32, ConfigError> {
    let t = trim_of(raw);
    if t.len() == 0 {
        Err(ConfigError::EmptyHeight)
    } else {
        let unit = t.last();
        let has_unit = unit == 'm' || unit == 'M' || unit == 'b' || unit == 'B';
        let num = trim_of(if has_unit { t.drop_last() } else { t });
        if num.len() == 0 {
            Err(ConfigError::MissingHeightNumber)
        } else {
            match decimal_milli(num) {
                None => Err(ConfigError::InvalidHeightNumber),
                Some(m) => if unit == 'b' || unit == 'B' {
                    Ok(saturate_i32(round_div(m, 1000)) as i32)
                } else {
                    Ok(dem_to_block_spec(m) as i32)
                },
            }
        }
    }
}

/// Parses a layer height (see `height_spec`).
pub fn parse_height(raw: &str) -> (r: Result<i32, ConfigError>)
    ensures
        r == height_spec(raw@),
{
    let t = trim_text(raw);
    let n = t.unicode_len();
    if n == 0 {
        return Err(ConfigError::EmptyHeight);
    }
    let unit = t.get_char(n - 1);
    let has_unit = unit == 'm' || unit == 'M' || unit == 'b' || unit == 'B';
    let end: usize = if has_unit { n - 1 } else { n };
    let part = t.substring_char(0, end);
    assert(part@ == (if has_unit { t@.drop_last() } else { t@ })) by {
        if has_unit {
            assert(t@.subrange(0, n - 1) =~= t@.drop_last());
        } else {
            assert(t@.subrange(0, n as int) =~= t@);
        }
    }
    let num = trim_text(part);
    if num.unicode_len() == 0 {
        return Err(ConfigError::MissingHeightNumber);
    }
    match parse_decimal_milli(num.as_str()) {
        None => Err(ConfigError::InvalidHeightNumber),
        Some(m) => {
            if unit == 'b' || unit == 'B' {
                let b = round_div_i128(m as i128, 1000);
                Ok(if b < i32::MIN as i128 { i32::MIN } else if b > i32::MAX as i128 { i32::MAX } else { b as i32 })
            } else {
                Ok(dem_to_minecraft(m))
            }
        },
    }
}

/// Parses an inclusive layer range; a missing end is unbounded.
pub fn parse_range(min: Option<&str>, max: Option<&str>) -> (r: Result<(i32, i32), ConfigError>)
    ensures
        ({
            let lo = match min { Some(s) => height_spec(s@), None => Ok(i32::MIN) };
            let hi = match max { Some(s) => height_spec(s@), None => Ok(i32::MAX) };
            match (lo, hi) {
                (Err(e), _) => r == Err::<(i32, i32), ConfigError>(e),
                (Ok(_), Err(e)) => r == Err::<(i32, i32), ConfigError>(e),
                (Ok(a), Ok(b)) => if a > b {
                    r == Err::<(i32, i32), ConfigError>(ConfigError::InvertedRange)
                } else {
                    r == Ok::<(i32, i32), ConfigError>((a, b))
                },
            }
        }),
{
    let lo = match min {
        Some(s) => parse_height(s)?,
        None => i32::MIN,
    };
    let hi = match max {
        Some(s) => parse_height(s)?,
        None => i32::MAX,
    };
    if lo > hi {
        return Err(ConfigError::InvertedRange);
    }
    Ok((lo, hi))
}

impl AttributeKeySource {
    /// A tag source; its key must be named.
    pub fn new(key: String, multiplier_milli: i64) -> (r: Result<Self, ConfigError>)
        ensures
            blank(key@) ==> r == Err::<Self, ConfigError>(ConfigError::EmptyName),
            !blank(key@) ==> r.is_ok() && r.unwrap().key == key && r.unwrap().multiplier_milli == multiplier_milli,
    {
        if is_blank(key.as_str()) {
            return Err(ConfigError::EmptyName);
        }
        Ok(AttributeKeySource { key, multiplier_milli })
    }
}

pub open spec fn at_least(v: Option<i64>, lo: i64) -> bool {
    match v { Some(x) => x >= lo, None => true }
}

impl AttributeSource {
    /// A length source: default and bounds at least `absolute_min_mm`, and
    /// the minimum not above the maximum.
    pub fn new(default_mm: i64, min_mm: Option<i64>, max_mm: Option<i64>, sources: Vec<AttributeKeySource>, absolute_min_mm: i64) -> (r: Result<Self, ConfigError>)
        ensures
            !(default_mm >= absolute_min_mm && at_least(min_mm, absolute_min_mm) && at_least(max_mm, absolute_min_mm))
                ==> r == Err::<Self, ConfigError>(ConfigError::BelowMinimum),
            default_mm >= absolute_min_mm && at_least(min_mm, absolute_min_mm) && at_least(max_mm, absolute_min_mm)
                && (match (min_mm, max_mm) { (Some(a), Some(b)) => a > b, _ => false })
                ==> r == Err::<Self, ConfigError>(ConfigError::InvertedBounds),
            default_mm >= absolute_min_mm && at_least(min_mm, absolute_min_mm) && at_least(max_mm, absolute_min_mm)
                && !(match (min_mm, max_mm) { (Some(a), Some(b)) => a > b, _ => false })
                ==> r == Ok::<Self, ConfigError>(AttributeSource { default_mm, min_mm, max_mm, sources }),
    {
        let min_ok = match min_mm { Some(x) => x >= absolute_min_mm, None => true };
        let max_ok = match max_mm { Some(x) => x >= absolute_min_mm, None => true };
        if !(default_mm >= absolute_min_mm && min_ok && max_ok) {
            return Err(ConfigError::BelowMinimum);
        }
        let inverted = match (min_mm, max_mm) { (Some(a), Some(b)) => a > b, _ => false };
        if inverted {
            return Err(ConfigError::InvertedBounds);
        }
        Ok(AttributeSource { default_mm, min_mm, max_mm, sources })
    }
}

/// Narrowest width, in millimetres, a line layer may be given.
pub const MIN_LINE_WIDTH_MM: i64 = 500;

/// A vector layer of the Overpass source.
#[derive(Debug)]
pub struct OsmLayer {
    pub name: String,
    pub geometry: OsmGeometry,
    pub query: String,
    pub width: AttributeSource,
    pub style: OverlayStyle,
    pub layer_index: Option<i32>,
    pub original_order: u32,
}

impl OsmLayer {
    /// A layer; its name and query must not be blank. The layer index falls
    /// back to the priority.
    pub fn new(
        name: String,
        geometry: OsmGeometry,
        query: String,
        width: AttributeSource,
        style: OverlayStyle,
        layer_index: Option<i32>,
        priority: Option<u32>,
        original_order: u32,
    ) -> (r: Result<Self, ConfigError>)
        ensures
            (blank(name@) || blank(query@)) ==> r == Err::<Self, ConfigError>(ConfigError::EmptyName),
            !(blank(name@) || blank(query@)) ==> r.is_ok() && ({
                let l = r.unwrap();
                &&& l.name == name && l.query == query && l.geometry == geometry
                &&& l.width == width && l.style == style && l.original_order == original_order
                &&& l.layer_index == (match layer_index {
                    Some(v) => Some(v),
                    None => match priority { Some(p) => Some(p as i32), None => None },
                })
            }),
    {
        if is_blank(name.as_str()) || is_blank(query.as_str()) {
            return Err(ConfigError::EmptyName);
        }
        let layer_index = match layer_index {
            Some(v) => Some(v),
            None => match priority {
                Some(p) => Some(p as i32),
                None => None,
            },
        };
        Ok(OsmLayer { name, geometry, query, width, style, layer_index, original_order })
    }

    pub fn name(&self) -> (r: &String) ensures r@ == self.name@, { &self.name }

    /// Width of a feature of this layer, in millimetres: the resolved width,
    /// never narrower than `MIN_LINE_WIDTH_MM`.
    pub fn line_width_mm(&self, tag_value_mm: Option<i64>) -> (r: i64)
        ensures
            r == (if (match tag_value_mm {
                Some(v) => clamp_attr(v as int, self.width.min_mm, self.width.max_mm),
                None => self.width.default_mm as int,
            }) < MIN_LINE_WIDTH_MM {
                MIN_LINE_WIDTH_MM as int
            } else {
                match tag_value_mm {
                    Some(v) => clamp_attr(v as int, self.width.min_mm, self.width.max_mm),
                    None => self.width.default_mm as int,
                }
            }),
    {
        let w = self.width.resolve(tag_value_mm);
        if w < MIN_LINE_WIDTH_MM { MIN_LINE_WIDTH_MM } else { w }
    }

    pub fn geometry(&self) -> (r: OsmGeometry) ensures r == self.geometry, { self.geometry }

    pub fn query(&self) -> (r: &String) ensures r@ == self.query@, { &self.query }

    pub fn width(&self) -> (r: &AttributeSource) ensures *r == self.width, { &self.width }

    pub fn style(&self) -> (r: &OverlayStyle) ensures *r == self.style, { &self.style }

    pub fn layer_index(&self) -> (r: Option<i32>) ensures r == self.layer_index, { self.layer_index }

    pub fn original_order(&self) -> (r: u32) ensures r == self.original_order, { self.original_order }
}

/// The painting order of `keys` (see `layer_order`).
pub open spec fn painting_order(keys: Seq<(Option<i32>, u32)>, order: Seq<usize>) -> bool {
    &&& order.len() == keys.len()
    &&& forall|i: int| 0 <= i < order.len() ==> (#[trigger] order[i] as int) < keys.len()
    &&& forall|i: int, j: int| 0 <= i < j < order.len() ==> key_le(
        layer_key(keys[order[i] as int].0, keys[order[i] as int].1, order[i] as int),
        layer_key(keys[order[j] as int].0, keys[order[j] as int].1, order[j] as int),
    )
}

fn osm_keys(layers: &Vec<OsmLayer>) -> (r: Vec<(Option<i32>, u32)>)
    ensures
        r@.len() == layers@.len(),
        forall|i: int| 0 <= i < r@.len() ==> #[trigger] r@[i] == (layers@[i].layer_index, layers@[i].original_order),
{
    let mut out: Vec<(Option<i32>, u32)> = Vec::new();
    let mut i: usize = 0;
    while i < layers.len()
        invariant
            i <= layers@.len(),
            out@.len() == i,
            forall|k: int| 0 <= k < i ==> #[trigger] out@[k] == (layers@[k].layer_index, layers@[k].original_order),
        decreases layers@.len() - i,
    {
        out.push((layers[i].layer_index, layers[i].original_order));
        i = i + 1;
    }
    out
}

/// The Overpass source: its layers in declaration order, and the order in
/// which they are painted.
#[derive(Debug)]
pub struct OsmConfig {
    pub enabled: bool,
    pub overpass_url: String,
    pub bbox_margin_mm: i64,
    pub layers: Vec<OsmLayer>,
    pub paint_order: Vec<usize>,
}

impl OsmConfig {
    /// An Overpass source; an enabled one needs at least one layer. A
    /// negative margin counts as 0.
    pub fn new(enabled: bool, overpass_url: String, bbox_margin_mm: i64, layers: Vec<OsmLayer>) -> (r: Result<Self, ConfigError>)
        ensures
            enabled && layers@.len() == 0 ==> r == Err::<Self, ConfigError>(ConfigError::NoLayers),
            !(enabled && layers@.len() == 0) ==> r.is_ok() && ({
                let c = r.unwrap();
                &&& c.enabled == enabled && c.overpass_url == overpass_url && c.layers == layers
                &&& c.bbox_margin_mm == (if bbox_margin_mm < 0 { 0 } else { bbox_margin_mm })
                &&& painting_order(layers@.map_values(|l: OsmLayer| (l.layer_index, l.original_order)), c.paint_order@)
            }),
    {
        if enabled && layers.len() == 0 {
            return Err(ConfigError::NoLayers);
        }
        let keys = osm_keys(&layers);
        let paint_order = layer_order(&keys);
        assert(keys@ =~= layers@.map_values(|l: OsmLayer| (l.layer_index, l.original_order)));
        Ok(OsmConfig {
            enabled,
            overpass_url,
            bbox_margin_mm: if bbox_margin_mm < 0 { 0 } else { bbox_margin_mm },
            layers,
            paint_order,
        })
    }

    pub fn enabled(&self) -> (r: bool) ensures r == self.enabled, { self.enabled }

    pub fn overpass_url(&self) -> (r: &String) ensures r@ == self.overpass_url@, { &self.overpass_url }

    pub fn bbox_margin_m(&self) -> (r: i64) ensures r == self.bbox_margin_mm, { self.bbox_margin_mm }

    pub fn layers(&self) -> (r: &Vec<OsmLayer>) ensures r@ == self.layers@, { &self.layers }
}

/// A colour rule of a WMTS source with the style it paints.
#[derive(Debug)]
pub struct WmtsColorRule {
    pub matcher: ColorMatcher,
    pub style: OverlayStyle,
    pub layer_index: Option<i32>,
    pub original_order: u32,
}

impl WmtsColorRule {
    /// A rule from its colour text; the layer index falls back to the priority.
    pub fn new(
        color: &str,
        tolerance: Option<u8>,
        alpha_threshold: Option<u8>,
        style: OverlayStyle,
        layer_index: Option<i32>,
        priority: Option<u32>,
        position: u32,
    ) -> (r: Result<Self, ColorError>)
        ensures
            match RgbaColor::parse_spec(color@) {
                Err(e) => r == Err::<Self, ColorError>(e),
                Ok(c) => r.is_ok() && ({
                    let w = r.unwrap();
                    &&& w.matcher.color == c
                    &&& w.matcher.tolerance == (match tolerance { Some(t) => t, None => 0u8 })
                    &&& w.matcher.alpha_threshold == (match alpha_threshold { Some(a) => a, None => 1u8 })
                    &&& w.style == style && w.original_order == position
                    &&& w.layer_index == (match layer_index {
                        Some(v) => Some(v),
                        None => match priority { Some(p) => Some(p as i32), None => None },
                    })
                }),
            },
    {
        let c = RgbaColor::parse(color)?;
        let layer_index = match layer_index {
            Some(v) => Some(v),
            None => match priority {
                Some(p) => Some(p as i32),
                None => None,
            },
        };
        Ok(WmtsColorRule { matcher: ColorMatcher::new(c, tolerance, alpha_threshold), style, layer_index, original_order: position })
    }

    pub fn style(&self) -> (r: &OverlayStyle) ensures *r == self.style, { &self.style }

    pub fn layer_index(&self) -> (r: Option<i32>) ensures r == self.layer_index, { self.layer_index }

    pub fn original_order(&self) -> (r: u32) ensures r == self.original_order, { self.original_order }

    pub fn matches(&self, rgba: [u8; 4]) -> (r: bool)
        ensures
            r == color_matches(self.matcher.color, self.matcher.tolerance, self.matcher.alpha_threshold, rgba),
    {
        self.matcher.matches(rgba)
    }
}

/// A required text setting: present and not blank.
pub open spec fn required_ok(v: Option<String>) -> bool {
    match v { Some(s) => !blank(s@), None => false }
}

/// The error for a required text setting that is not usable.
pub open spec fn required_error(v: Option<String>) -> ConfigError {
    match v { Some(_) => ConfigError::EmptyName, None => ConfigError::MissingField }
}

fn required(v: Option<String>) -> (r: Result<String, ConfigError>)
    ensures
        required_ok(v) ==> r == Ok::<String, ConfigError>(v.unwrap()),
        !required_ok(v) ==> r == Err::<String, ConfigError>(required_error(v)),
{
    match v {
        Some(s) => if is_blank(s.as_str()) { Err(ConfigError::EmptyName) } else { Ok(s) },
        None => Err(ConfigError::MissingField),
    }
}

fn rule_keys(rules: &Vec<WmtsColorRule>) -> (r: Vec<(Option<i32>, u32)>)
    ensures
        r@.len() == rules@.len(),
        forall|i: int| 0 <= i < r@.len() ==> #[trigger] r@[i] == (rules@[i].layer_index, rules@[i].original_order),
{
    let mut out: Vec<(Option<i32>, u32)> = Vec::new();
    let mut i: usize = 0;
    while i < rules.len()
        invariant
            i <= rules@.len(),
            out@.len() == i,
            forall|k: int| 0 <= k < i ==> #[trigger] out@[k] == (rules@[k].layer_index, rules@[k].original_order),
        decreases rules@.len() - i,
    {
        out.push((rules[i].layer_index, rules[i].original_order));
        i = i + 1;
    }
    out
}

/// The WMTS source.
#[derive(Debug)]
pub struct WmtsConfig {
    pub enabled: bool,
    pub capabilities_url: String,
    pub layer: String,
    pub style_id: Option<String>,
    pub tile_matrix_set: String,
    pub tile_matrix: String,
    pub format: String,
    pub bbox_margin_mm: i64,
    pub max_tiles: u32,
    pub colors: Vec<WmtsColorRule>,
    pub paint_order: Vec<usize>,
}

impl WmtsConfig {
    /// A WMTS source. A disabled one keeps only its format and tile budget.
    /// An enabled one needs the capabilities URL, layer, matrix set and
    /// matrix, at least one colour rule, and a style id that is not blank
    /// when given. The tile budget is at least 1; a negative margin counts as 0.
    pub fn new(
        enabled: bool,
        capabilities_url: Option<String>,
        layer: Option<String>,
        style_id: Option<String>,
        tile_matrix_set: Option<String>,
        tile_matrix: Option<String>,
        format: String,
        bbox_margin_mm: i64,
        max_tiles: u32,
        colors: Vec<WmtsColorRule>,
    ) -> (r: Result<Self, ConfigError>)
        ensures
            !enabled ==> r.is_ok() && ({
                let c = r.unwrap();
                &&& !c.enabled && c.format == format && c.max_tiles == (if max_tiles < 1 { 1 } else { max_tiles })
                &&& c.colors@.len() == 0 && c.bbox_margin_mm == 0 && c.style_id.is_none()
            }),
            enabled && !required_ok(capabilities_url) ==> r == Err::<Self, ConfigError>(required_error(capabilities_url)),
            enabled && required_ok(capabilities_url) && !required_ok(layer) ==> r == Err::<Self, ConfigError>(required_error(layer)),
            enabled && required_ok(capabilities_url) && required_ok(layer) && !required_ok(tile_matrix_set)
                ==> r == Err::<Self, ConfigError>(required_error(tile_matrix_set)),
            enabled && required_ok(capabilities_url) && required_ok(layer) && required_ok(tile_matrix_set) && tile_matrix.is_none()
                ==> r == Err::<Self, ConfigError>(ConfigError::MissingField),
            enabled && required_ok(capabilities_url) && required_ok(layer) && required_ok(tile_matrix_set) && tile_matrix.is_some()
                && colors@.len() == 0 ==> r == Err::<Self, ConfigError>(ConfigError::NoColorRules),
            enabled && required_ok(capabilities_url) && required_ok(layer) && required_ok(tile_matrix_set) && tile_matrix.is_some()
                && colors@.len() > 0 && !name_ok(style_id) ==> r == Err::<Self, ConfigError>(ConfigError::EmptyName),
            enabled && required_ok(capabilities_url) && required_ok(layer) && required_ok(tile_matrix_set) && tile_matrix.is_some()
                && colors@.len() > 0 && name_ok(style_id) ==> r.is_ok() && ({
                    let c = r.unwrap();
                    &&& c.enabled
                    &&& c.capabilities_url == capabilities_url.unwrap() && c.layer == layer.unwrap()
                    &&& c.tile_matrix_set == tile_matrix_set.unwrap() && c.tile_matrix == tile_matrix.unwrap()
                    &&& c.style_id == style_id && c.format == format && c.colors == colors
                    &&& c.bbox_margin_mm == (if bbox_margin_mm < 0 { 0 } else { bbox_margin_mm })
                    &&& c.max_tiles == (if max_tiles < 1 { 1 } else { max_tiles })
                    &&& painting_order(colors@.map_values(|w: WmtsColorRule| (w.layer_index, w.original_order)), c.paint_order@)
                }),
    {
        let max_tiles = if max_tiles < 1 { 1 } else { max_tiles };
        if !enabled {
            return Ok(WmtsConfig {
                enabled: false,
                capabilities_url: String::new(),
                layer: String::new(),
                style_id: None,
                tile_matrix_set: String::new(),
                tile_matrix: String::new(),
                format,
                bbox_margin_mm: 0,
                max_tiles,
                colors: Vec::new(),
                paint_order: Vec::new(),
            });
        }
        let capabilities_url = required(capabilities_url)?;
        let layer = required(layer)?;
        let tile_matrix_set = required(tile_matrix_set)?;
        let tile_matrix = match tile_matrix {
            Some(m) => m,
            None => {
                return Err(ConfigError::MissingField);
            },
        };
        if colors.len() == 0 {
            return Err(ConfigError::NoColorRules);
        }
        let style_id = normalize_style_name(style_id)?;
        let keys = rule_keys(&colors);
        let paint_order = layer_order(&keys);
        assert(keys@ =~= colors@.map_values(|w: WmtsColorRule| (w.layer_index, w.original_order)));
        Ok(WmtsConfig {
            enabled: true,
            capabilities_url,
            layer,
            style_id,
            tile_matrix_set,
            tile_matrix,
            format,
            bbox_margin_mm: if bbox_margin_mm < 0 { 0 } else { bbox_margin_mm },
            max_tiles,
            colors,
            paint_order,
        })
    }

    pub fn enabled(&self) -> (r: bool) ensures r == self.enabled, { self.enabled }

    pub fn capabilities_url(&self) -> (r: &String) ensures r@ == self.capabilities_url@, { &self.capabilities_url }

    pub fn layer(&self) -> (r: &String) ensures r@ == self.layer@, { &self.layer }

    pub fn style_id(&self) -> (r: Option<&String>)
        ensures
            match r { Some(s) => self.style_id == Some(*s), None => self.style_id.is_none() },
    {
        self.style_id.as_ref()
    }

    pub fn tile_matrix_set(&self) -> (r: &String) ensures r@ == self.tile_matrix_set@, { &self.tile_matrix_set }

    pub fn tile_matrix(&self) -> (r: &String) ensures r@ == self.tile_matrix@, { &self.tile_matrix }

    pub fn format(&self) -> (r: &String) ensures r@ == self.format@, { &self.format }

    pub fn bbox_margin_m(&self) -> (r: i64) ensures r == self.bbox_margin_mm, { self.bbox_margin_mm }

    pub fn max_tiles(&self) -> (r: u32) ensures r == self.max_tiles, { self.max_tiles }

    pub fn colors(&self) -> (r: &Vec<WmtsColorRule>) ensures r@ == self.colors@, { &self.colors }
}

} // verus!
