//! Raster overlays from WMTS tiles: colour rules, tile coverage, tile URLs
//! and the tile cache layout.
use crate::text::{
    decimal, hex_value, hex_digit, push_char, push_decimal, push_sanitized, sanitized, trim_of,
    trim_text,
};
use vstd::prelude::*;

verus! {

/// A colour with alpha.
#[derive(Clone, Copy, Debug, PartialEq, Eq)]
pub struct RgbaColor {
    pub r: u8,
    pub g: u8,
    pub b: u8,
    pub a: u8,
}

/// Why a colour text is refused.
#[derive(Clone, Copy, Debug, PartialEq, Eq)]
pub enum ColorError {
    /// Neither 6 nor 8 hexadecimal digits.
    WrongLength,
    /// A character that is not a hexadecimal digit.
    InvalidDigit,
}

/// The digits of a colour text: trimmed, without one leading `#`.
pub open spec fn color_digits(s: Seq<char>) -> Seq<char> {
    let t = trim_of(s);
    if t.len() > 0 && t[0] == '#' {
        t.drop_first()
    } else {
        t
    }
}

/// Byte `i` of a run of hexadecimal digit pairs.
pub open spec fn hex_byte(h: Seq<char>, i: int) -> int {
    hex_value(h[2 * i]).unwrap() * 16 + hex_value(h[2 * i + 1]).unwrap()
}

pub open spec fn all_hex(h: Seq<char>) -> bool {
    forall|i: int| 0 <= i < h.len() ==> (#[trigger] hex_value(h[i])).is_some()
}

/// The bytes written by an even run of hexadecimal digits.
pub fn hex_to_bytes(h: &str) -> (r: Option<Vec<u8>>)
    ensures
        r.is_some() <==> (h@.len() % 2 == 0 && all_hex(h@)),
        r.is_some() ==> r.unwrap()@.len() == h@.len() / 2 && forall|i: int| 0 <= i < h@.len() / 2 ==> (#[trigger] r.unwrap()@[i]) as int == hex_byte(h@, i),
{
    let n = h.unicode_len();
    if n % 2 != 0 {
        return None;
    }
    let mut out: Vec<u8> = Vec::new();
    let mut i: usize = 0;
    while i < n / 2
        invariant
            n == h@.len(),
            n % 2 == 0,
            i <= n / 2,
            out@.len() == i,
            forall|k: int| 0 <= k < 2 * i ==> (#[trigger] hex_value(h@[k])).is_some(),
            forall|k: int| 0 <= k < i ==> (#[trigger] out@[k]) as int == hex_byte(h@, k),
        decreases n / 2 - i,
    {
        let hi = hex_digit(h.get_char(2 * i));
        let lo = hex_digit(h.get_char(2 * i + 1));
        match (hi, lo) {
            (Some(a), Some(b)) => {
                assert(a < 16 && b < 16);
                out.push(a * 16 + b);
            },
            _ => {
                return None;
            },
        }
        i = i + 1;
    }
    Some(out)
}

/// The colour a text denotes: 6 digits give an opaque colour, 8 digits give
/// the alpha too.
pub open spec fn color_of(h: Seq<char>) -> RgbaColor {
    RgbaColor {
        r: hex_byte(h, 0) as u8,
        g: hex_byte(h, 1) as u8,
        b: hex_byte(h, 2) as u8,
        a: if h.len() == 8 { hex_byte(h, 3) as u8 } else { 255 },
    }
}

impl RgbaColor {
    /// What `parse` gives for a text.
    pub open spec fn parse_spec(s: Seq<char>) -> Result<RgbaColor, ColorError> {
        let h = color_digits(s);
        if h.len() != 6 && h.len() != 8 {
            Err(ColorError::WrongLength)
        } else if !all_hex(h) {
            Err(ColorError::InvalidDigit)
        } else {
            Ok(color_of(h))
        }
    }

    /// Parses `#RRGGBB`, `#RRGGBBAA`, or the same without `#`, surrounding
    /// whitespace allowed.
    pub fn parse(value: &str) -> (r: Result<RgbaColor, ColorError>)
        ensures
            r == RgbaColor::parse_spec(value@),
            ({
                let h = color_digits(value@);
                &&& (h.len() != 6 && h.len() != 8) ==> r == Err::<RgbaColor, ColorError>(ColorError::WrongLength)
                &&& (h.len() == 6 || h.len() == 8) && !all_hex(h) ==> r == Err::<RgbaColor, ColorError>(ColorError::InvalidDigit)
                &&& (h.len() == 6 || h.len() == 8) && all_hex(h) ==> r == Ok::<RgbaColor, ColorError>(color_of(h))
            }),
    {
        let t = trim_text(value);
        let n = t.unicode_len();
        let hex: &str = if n > 0 && t.get_char(0) == '#' {
            t.substring_char(1, n)
        } else {
            t.as_str()
        };
        assert(hex@ == color_digits(value@)) by {
            if n > 0 && t@[0] == '#' {
                assert(t@.subrange(1, n as int) =~= t@.drop_first());
            }
        }
        let len = hex.unicode_len();
        if len != 6 && len != 8 {
            return Err(ColorError::WrongLength);
        }
        match hex_to_bytes(hex) {
            Some(bytes) => {
                if bytes.len() == 3 {
                    Ok(RgbaColor { r: bytes[0], g: bytes[1], b: bytes[2], a: 255 })
                } else {
                    Ok(RgbaColor { r: bytes[0], g: bytes[1], b: bytes[2], a: bytes[3] })
                }
            },
            None => Err(ColorError::InvalidDigit),
        }
    }
}

pub open spec fn abs_diff(a: u8, b: u8) -> int {
    if a >= b { a - b } else { b - a }
}

/// Whether pixel `p` matches colour `c` within `tol`, with alpha at least
/// `alpha_min`; alpha is compared only when `c` is not opaque.
pub open spec fn color_matches(c: RgbaColor, tol: u8, alpha_min: u8, p: [u8; 4]) -> bool {
    &&& p[3] >= alpha_min
    &&& (c.a < 255 ==> abs_diff(p[3], c.a) <= tol)
    &&& abs_diff(p[0], c.r) <= tol
    &&& abs_diff(p[1], c.g) <= tol
    &&& abs_diff(p[2], c.b) <= tol
}

fn abs_diff_u8(a: u8, b: u8) -> (r: u8)
    ensures
        r as int == abs_diff(a, b),
{
    if a >= b { a - b } else { b - a }
}

/// A colour rule of a WMTS overlay.
#[derive(Clone, Copy, Debug, PartialEq, Eq)]
pub struct ColorMatcher {
    pub color: RgbaColor,
    pub tolerance: u8,
    pub alpha_threshold: u8,
}

impl ColorMatcher {
    /// A rule; no tolerance and an alpha threshold of 1 unless given.
    pub fn new(color: RgbaColor, tolerance: Option<u8>, alpha_threshold: Option<u8>) -> (r: Self)
        ensures
            r.color == color,
            r.tolerance == (match tolerance { Some(t) => t, None => 0u8 }),
            r.alpha_threshold == (match alpha_threshold { Some(a) => a, None => 1u8 }),
    {
        ColorMatcher {
            color,
            tolerance: match tolerance { Some(t) => t, None => 0 },
            alpha_threshold: match alpha_threshold { Some(a) => a, None => 1 },
        }
    }

    pub fn matches(&self, rgba: [u8; 4]) -> (r: bool)
        ensures
            r == color_matches(self.color, self.tolerance, self.alpha_threshold, rgba),
    {
        if rgba[3] < self.alpha_threshold {
            return false;
        }
        let alpha_ok = if self.color.a < 255 {
            abs_diff_u8(rgba[3], self.color.a) <= self.tolerance
        } else {
            true
        };
        alpha_ok && abs_diff_u8(rgba[0], self.color.r) <= self.tolerance && abs_diff_u8(rgba[1], self.color.g)
            <= self.tolerance && abs_diff_u8(rgba[2], self.color.b) <= self.tolerance
    }
}

/// Index of the first rule that pixel `p` matches, if any.
pub fn first_matching_rule(rules: &Vec<ColorMatcher>, rgba: [u8; 4]) -> (r: Option<usize>)
    ensures
        match r {
            Some(i) => i < rules@.len() && color_matches(rules@[i as int].color, rules@[i as int].tolerance, rules@[i as int].alpha_threshold, rgba)
                && forall|k: int| 0 <= k < i ==> !color_matches((#[trigger] rules@[k]).color, rules@[k].tolerance, rules@[k].alpha_threshold, rgba),
            None => forall|k: int| 0 <= k < rules@.len() ==> !color_matches((#[trigger] rules@[k]).color, rules@[k].tolerance, rules@[k].alpha_threshold, rgba),
        },
{
    let mut i: usize = 0;
    while i < rules.len()
        invariant
            i <= rules@.len(),
            forall|k: int| 0 <= k < i ==> !color_matches((#[trigger] rules@[k]).color, rules@[k].tolerance, rules@[k].alpha_threshold, rgba),
        decreases rules@.len() - i,
    {
        if rules[i].matches(rgba) {
            return Some(i);
        }
        i = i + 1;
    }
    None
}

/// Size of a tile matrix, in pixels per tile and tiles per side.
#[derive(Clone, Copy, Debug, PartialEq, Eq)]
pub struct TileGrid {
    pub tile_width: u32,
    pub tile_height: u32,
    pub matrix_width: u32,
    pub matrix_height: u32,
}

/// The tiles a layer publishes, inclusive.
#[derive(Clone, Copy, Debug, PartialEq, Eq)]
pub struct TileMatrixLimits {
    pub min_row: u32,
    pub max_row: u32,
    pub min_col: u32,
    pub max_col: u32,
}

/// One tile.
#[derive(Clone, Copy, Debug, PartialEq, Eq)]
pub struct TileCoordinate {
    pub row: u32,
    pub col: u32,
}

/// The tiles covering an area: the rectangle of columns and rows, and its
/// tiles row by row.
#[derive(Debug)]
pub struct TileCoverage {
    pub tiles: Vec<TileCoordinate>,
    pub col_start: u32,
    pub col_end: u32,
    pub row_start: u32,
    pub row_end: u32,
}

impl TileCoverage {
    pub fn contains(&self, col: u32, row: u32) -> (r: bool)
        ensures
            r == (self.col_start <= col <= self.col_end && self.row_start <= row <= self.row_end),
    {
        col >= self.col_start && col <= self.col_end && row >= self.row_start && row <= self.row_end
    }
}

pub open spec fn clamp_range(v: int, lo: int, hi: int) -> int {
    if v < lo { lo } else if v > hi { hi } else { v }
}

/// Column and row ranges after ordering, clamping to the matrix and
/// narrowing to the layer's limits.
pub open spec fn coverage_bounds(c0: int, c1: int, r0: int, r1: int, g: TileGrid, l: Option<TileMatrixLimits>) -> (int, int, int, int) {
    let (a0, a1) = if c0 > c1 { (c1, c0) } else { (c0, c1) };
    let (b0, b1) = if r0 > r1 { (r1, r0) } else { (r0, r1) };
    let a0 = clamp_range(a0, 0, g.matrix_width - 1);
    let a1 = clamp_range(a1, 0, g.matrix_width - 1);
    let b0 = clamp_range(b0, 0, g.matrix_height - 1);
    let b1 = clamp_range(b1, 0, g.matrix_height - 1);
    match l {
        Some(m) => (
            if a0 >= m.min_col { a0 } else { m.min_col as int },
            if a1 <= m.max_col { a1 } else { m.max_col as int },
            if b0 >= m.min_row { b0 } else { m.min_row as int },
            if b1 <= m.max_row { b1 } else { m.max_row as int },
        ),
        None => (a0, a1, b0, b1),
    }
}

fn clamp_i64(v: i64, lo: i64, hi: i64) -> (r: i64)
    requires
        lo <= hi,
    ensures
        r == clamp_range(v as int, lo as int, hi as int),
{
    if v < lo { lo } else if v > hi { hi } else { v }
}

/// The tiles covering the column range `[col_a, col_b]` and row range
/// `[row_a, row_b]` (either end first), clamped to the matrix and to the
/// layer's limits; an empty rectangle gives no tile.
pub fn clamp_coverage(
    col_a: i64,
    col_b: i64,
    row_a: i64,
    row_b: i64,
    grid: &TileGrid,
    limits: Option<TileMatrixLimits>,
) -> (r: TileCoverage)
    requires
        grid.matrix_width >= 1,
        grid.matrix_height >= 1,
    ensures
        ({
            let (c0, c1, r0, r1) = coverage_bounds(col_a as int, col_b as int, row_a as int, row_b as int, *grid, limits);
            &&& (c0 > c1 || r0 > r1) ==> r.tiles@.len() == 0 && r.col_start == 0 && r.col_end == 0 && r.row_start == 0 && r.row_end == 0
            &&& !(c0 > c1 || r0 > r1) ==> {
                &&& r.col_start == c0 && r.col_end == c1 && r.row_start == r0 && r.row_end == r1
                &&& r.tiles@.len() == (r1 - r0 + 1) * (c1 - c0 + 1)
                &&& forall|i: int| 0 <= i < r.tiles@.len() ==> (#[trigger] r.tiles@[i]).row == r0 + i / (c1 - c0 + 1)
                    && r.tiles@[i].col == c0 + i % (c1 - c0 + 1)
            }
        }),
{
    let (mut c0, mut c1) = if col_a > col_b { (col_b, col_a) } else { (col_a, col_b) };
    let (mut r0, mut r1) = if row_a > row_b { (row_b, row_a) } else { (row_a, row_b) };
    c0 = clamp_i64(c0, 0, grid.matrix_width as i64 - 1);
    c1 = clamp_i64(c1, 0, grid.matrix_width as i64 - 1);
    r0 = clamp_i64(r0, 0, grid.matrix_height as i64 - 1);
    r1 = clamp_i64(r1, 0, grid.matrix_height as i64 - 1);
    match limits {
        Some(m) => {
            if c0 < m.min_col as i64 { c0 = m.min_col as i64; }
            if c1 > m.max_col as i64 { c1 = m.max_col as i64; }
            if r0 < m.min_row as i64 { r0 = m.min_row as i64; }
            if r1 > m.max_row as i64 { r1 = m.max_row as i64; }
        },
        None => {},
    }
    if c0 > c1 || r0 > r1 {
        return TileCoverage { tiles: Vec::new(), col_start: 0, col_end: 0, row_start: 0, row_end: 0 };
    }
    let ghost w = c1 - c0 + 1;
    let mut tiles: Vec<TileCoordinate> = Vec::new();
    let mut row: i64 = r0;
    while row <= r1
        invariant
            0 <= c0 <= c1 <= u32::MAX,
            0 <= r0 <= row <= r1 + 1,
            r1 <= u32::MAX,
            w == c1 - c0 + 1,
            tiles@.len() == (row - r0) * w,
            forall|i: int| 0 <= i < tiles@.len() ==> (#[trigger] tiles@[i]).row == r0 + i / w && tiles@[i].col == c0 + i % w,
        decreases r1 + 1 - row,
    {
        let mut col: i64 = c0;
        while col <= c1
            invariant
                0 <= c0 <= col <= c1 + 1,
                c1 <= u32::MAX,
                0 <= r0 <= row <= r1,
                r1 <= u32::MAX,
                w == c1 - c0 + 1,
                tiles@.len() == (row - r0) * w + (col - c0),
                forall|i: int| 0 <= i < tiles@.len() ==> (#[trigger] tiles@[i]).row == r0 + i / w && tiles@[i].col == c0 + i % w,
            decreases c1 + 1 - col,
        {
            proof {
                let i = (row - r0) * w + (col - c0);
                assert(i / w == row - r0 && i % w == col - c0) by {
                    vstd::arithmetic::div_mod::lemma_fundamental_div_mod_converse(i, w, row - r0, col - c0);
                }
            }
            tiles.push(TileCoordinate { row: row as u32, col: col as u32 });
            col = col + 1;
        }
        assert((row - r0) * w + w == (row + 1 - r0) * w) by (nonlinear_arith);
        row = row + 1;
    }
    TileCoverage { tiles, col_start: c0 as u32, col_end: c1 as u32, row_start: r0 as u32, row_end: r1 as u32 }
}

/// What `urlencoding::encode` makes of a string: each byte but ASCII
/// letters, digits, `-`, `_`, `.` and `~` percent-encoded.
pub uninterp spec fn url_encoded(s: Seq<char>) -> Seq<char>;

/// Relies on `urlencoding::encode`: the percent-encoding of the text, which
/// holds no `&`; the empty string stays empty.
#[verifier::external_body]
fn url_encode(s: &str) -> (r: String)
    ensures
        r@ == url_encoded(s@),
        !r@.contains('&'),
        s@.len() == 0 ==> r@.len() == 0,
{
    urlencoding::encode(s).into_owned()
}

/// The base URL made ready for query parameters: a `?` added when it has
/// none, else a `&` added unless it already ends in `&` or `?`.
pub open spec fn query_prefix(base: Seq<char>) -> Seq<char> {
    if !base.contains('?') {
        base.push('?')
    } else if base.last() != '&' && base.last() != '?' {
        base.push('&')
    } else {
        base
    }
}

/// `key=encoded(value)`.
pub open spec fn param(key: Seq<char>, value: Seq<char>) -> Seq<char> {
    key + "="@ + url_encoded(value)
}

/// The GetTile URL of a tile, parameters in a fixed order.
pub open spec fn tile_url_spec(
    base: Seq<char>,
    layer: Seq<char>,
    style: Seq<char>,
    matrix_set: Seq<char>,
    matrix: Seq<char>,
    row: u32,
    col: u32,
    format: Seq<char>,
) -> Seq<char> {
    query_prefix(base) + param("SERVICE"@, "WMTS"@) + "&"@ + param("REQUEST"@, "GetTile"@) + "&"@
        + param("VERSION"@, "1.0.0"@) + "&"@ + param("LAYER"@, layer) + "&"@ + param("STYLE"@, style)
        + "&"@ + param("FORMAT"@, format) + "&"@ + param("TileMatrixSet"@, matrix_set) + "&"@
        + param("TileMatrix"@, matrix) + "&"@ + param("TileRow"@, decimal(row as nat)) + "&"@
        + param("TileCol"@, decimal(col as nat))
}

fn push_param(url: &mut String, key: &str, value: &str)
    ensures
        final(url)@ == old(url)@ + param(key@, value@),
{
    url.append(key);
    url.append("=");
    let enc = url_encode(value);
    url.append(enc.as_str());
    proof {
        reveal_strlit("=");
        assert(final(url)@ =~= old(url)@ + param(key@, value@));
    }
}

/// Builds the KVP GetTile URL of tile `(row, col)`.
pub fn build_tile_url(
    base: &str,
    layer: &str,
    style: &str,
    matrix_set: &str,
    matrix: &str,
    row: u32,
    col: u32,
    format: &str,
) -> (r: String)
    ensures
        r@ == tile_url_spec(base@, layer@, style@, matrix_set@, matrix@, row, col, format@),
{
    let mut url = String::from_str(base);
    let n = base.unicode_len();
    let mut has_q = false;
    let mut i: usize = 0;
    while i < n
        invariant
            i <= n,
            n == base@.len(),
            has_q == base@.subrange(0, i as int).contains('?'),
        decreases n - i,
    {
        proof {
            let s0 = base@.subrange(0, i as int);
            let s1 = base@.subrange(0, i + 1);
            assert(s1 =~= s0.push(base@[i as int]));
            if s0.contains('?') {
                let k = choose|k: int| 0 <= k < s0.len() && s0[k] == '?';
                assert(s1[k] == '?');
            }
            if s1.contains('?') && base@[i as int] != '?' {
                let k = choose|k: int| 0 <= k < s1.len() && s1[k] == '?';
                assert(s0[k] == '?');
            }
            if base@[i as int] == '?' {
                assert(s1[i as int] == '?');
            }
        }
        if base.get_char(i) == '?' {
            has_q = true;
        }
        i = i + 1;
    }
    assert(base@.subrange(0, n as int) =~= base@);
    if !has_q {
        push_char(&mut url, '?');
    } else {
        let last = base.get_char(n - 1);
        if last != '&' && last != '?' {
            push_char(&mut url, '&');
        }
    }
    let ghost prefix = url@;
    assert(prefix == query_prefix(base@));
    let mut row_text = String::new();
    push_decimal(&mut row_text, row);
    let mut col_text = String::new();
    push_decimal(&mut col_text, col);
    assert(Seq::<char>::empty() + decimal(row as nat) =~= decimal(row as nat));
    assert(Seq::<char>::empty() + decimal(col as nat) =~= decimal(col as nat));
    push_param(&mut url, "SERVICE", "WMTS");
    push_char(&mut url, '&');
    push_param(&mut url, "REQUEST", "GetTile");
    push_char(&mut url, '&');
    push_param(&mut url, "VERSION", "1.0.0");
    push_char(&mut url, '&');
    push_param(&mut url, "LAYER", layer);
    push_char(&mut url, '&');
    push_param(&mut url, "STYLE", style);
    push_char(&mut url, '&');
    push_param(&mut url, "FORMAT", format);
    push_char(&mut url, '&');
    push_param(&mut url, "TileMatrixSet", matrix_set);
    push_char(&mut url, '&');
    push_param(&mut url, "TileMatrix", matrix);
    push_char(&mut url, '&');
    push_param(&mut url, "TileRow", row_text.as_str());
    push_char(&mut url, '&');
    push_param(&mut url, "TileCol", col_text.as_str());
    proof {
        reveal_strlit("&");
        assert(url@ =~= tile_url_spec(base@, layer@, style@, matrix_set@, matrix@, row, col, format@));
    }
    url
}

/// Where fetched tiles are kept: a directory, and whether it is removed
/// when the run ends.
#[derive(Debug)]
pub struct WmtsCacheDir {
    pub root: String,
    pub auto_cleanup: bool,
}

/// File name of a cached tile: `layer_matrix_row_col.ext`, names sanitised.
pub open spec fn tile_file_name(layer: Seq<char>, matrix: Seq<char>, row: u32, col: u32, ext: Seq<char>) -> Seq<char> {
    sanitized(layer) + "_"@ + sanitized(matrix) + "_"@ + decimal(row as nat) + "_"@ + decimal(col as nat) + "."@ + ext
}

impl WmtsCacheDir {
    /// A cache in directory `root`.
    pub fn new(root: String, auto_cleanup: bool) -> (r: Self)
        ensures
            r.root@ == root@,
            r.auto_cleanup == auto_cleanup,
    {
        WmtsCacheDir { root, auto_cleanup }
    }

    pub fn root(&self) -> (r: &String)
        ensures
            r@ == self.root@,
    {
        &self.root
    }

    pub fn auto_cleanup(&self) -> (r: bool)
        ensures
            r == self.auto_cleanup,
    {
        self.auto_cleanup
    }

    /// Path of the cached file of tile `(row, col)`: the tile's file name
    /// joined to the root with `/` (none added when the root already ends in one).
    pub fn tile_path(&self, layer: &str, tile_matrix: &str, row: u32, col: u32, extension: &str) -> (r: String)
        ensures
            r@ == (if self.root@.len() == 0 || self.root@.last() == '/' {
                self.root@
            } else {
                self.root@.push('/')
            }) + tile_file_name(layer@, tile_matrix@, row, col, extension@),
    {
        let mut path = self.root.clone();
        let n = self.root.unicode_len();
        if n > 0 && self.root.get_char(n - 1) != '/' {
            push_char(&mut path, '/');
        }
        let ghost start = path@;
        push_sanitized(&mut path, layer);
        push_char(&mut path, '_');
        push_sanitized(&mut path, tile_matrix);
        push_char(&mut path, '_');
        push_decimal(&mut path, row);
        push_char(&mut path, '_');
        push_decimal(&mut path, col);
        push_char(&mut path, '.');
        path.append(extension);
        proof {
            reveal_strlit("_");
            reveal_strlit(".");
            assert(path@ =~= start + tile_file_name(layer@, tile_matrix@, row, col, extension@));
        }
        path
    }
}

/// Why a tile format is refused.
#[derive(Clone, Copy, Debug, PartialEq, Eq)]
pub enum FormatError {
    Unsupported,
}

pub open spec fn ascii_lower(c: char) -> char {
    if 'A' <= c && c <= 'Z' { (((c as u32) + 32) as u8) as char } else { c }
}

/// Whether `s` equals `target` (all lower case) ignoring ASCII case.
pub open spec fn eq_ignore_case(s: Seq<char>, target: Seq<char>) -> bool {
    s.len() == target.len() && forall|i: int| 0 <= i < s.len() ==> ascii_lower(#[trigger] s[i]) == target[i]
}

fn lower_char(c: char) -> (r: char)
    ensures
        r == ascii_lower(c),
{
    if 'A' <= c && c <= 'Z' {
        let v: u8 = (c as u32 + 32) as u8;
        v as char
    } else {
        c
    }
}

fn matches_lower(s: &str, target: &str) -> (r: bool)
    ensures
        r == eq_ignore_case(s@, target@),
{
    let n = s.unicode_len();
    if n != target.unicode_len() {
        return false;
    }
    let mut i: usize = 0;
    while i < n
        invariant
            i <= n,
            n == s@.len(),
            n == target@.len(),
            forall|k: int| 0 <= k < i ==> ascii_lower(#[trigger] s@[k]) == target@[k],
        decreases n - i,
    {
        if lower_char(s.get_char(i)) != target.get_char(i) {
            return false;
        }
        i = i + 1;
    }
    true
}

/// File extension of a tile format: `png` for PNG, `jpg` for JPEG, any case.
pub fn extension_for_format(format: &str) -> (r: Result<&'static str, FormatError>)
    ensures
        eq_ignore_case(format@, "image/png"@) ==> r.is_ok() && r.unwrap()@ == "png"@,
        !eq_ignore_case(format@, "image/png"@) && (eq_ignore_case(format@, "image/jpeg"@) || eq_ignore_case(format@, "image/jpg"@))
            ==> r.is_ok() && r.unwrap()@ == "jpg"@,
        !eq_ignore_case(format@, "image/png"@) && !eq_ignore_case(format@, "image/jpeg"@) && !eq_ignore_case(format@, "image/jpg"@)
            ==> r == Err::<&'static str, FormatError>(FormatError::Unsupported),
{
    if matches_lower(format, "image/png") {
        Ok("png")
    } else if matches_lower(format, "image/jpeg") || matches_lower(format, "image/jpg") {
        Ok("jpg")
    } else {
        Err(FormatError::Unsupported)
    }
}

/// What `str::to_uppercase` makes of a string.
pub uninterp spec fn upper_of(s: Seq<char>) -> Seq<char>;

/// Relies on `str::to_uppercase`: the string in upper case.
#[verifier::external_body]
fn to_upper(s: &str) -> (r: String)
    ensures
        r@ == upper_of(s@),
{
    s.to_uppercase()
}

/// The part of `s` after its last `:` (all of it when there is none).
pub open spec fn last_segment(s: Seq<char>) -> Seq<char>
    decreases s.len(),
{
    if s.len() == 0 {
        s
    } else if s.last() == ':' {
        Seq::empty()
    } else {
        last_segment(s.drop_last()).push(s.last())
    }
}

/// A CRS identifier in the `EPSG:<code>` form when it names an EPSG code
/// (the code being what follows its last `:`), else unchanged.
pub open spec fn crs_spec(raw: Seq<char>) -> Seq<char> {
    if crate::fetch::has_substring(upper_of(raw), "EPSG"@) && last_segment(raw).len() > 0 {
        "EPSG:"@ + last_segment(raw)
    } else {
        raw
    }
}

/// Normalises a CRS identifier such as `urn:ogc:def:crs:EPSG::3857` to `EPSG:3857`.
pub fn normalize_crs_identifier(raw: &str) -> (r: String)
    ensures
        r@ == crs_spec(raw@),
{
    let upper = to_upper(raw);
    if crate::fetch::contains_text(upper.as_str(), "EPSG") {
        let n = raw.unicode_len();
        let mut start: usize = n;
        proof {
            assert(raw@.subrange(0, n as int) =~= raw@);
            assert(raw@.subrange(n as int, n as int) =~= Seq::<char>::empty());
            assert(last_segment(raw@) + Seq::<char>::empty() =~= last_segment(raw@));
        }
        while start > 0 && raw.get_char(start - 1) != ':'
            invariant
                start <= n,
                n == raw@.len(),
                last_segment(raw@) == last_segment(raw@.subrange(0, start as int)) + raw@.subrange(start as int, n as int),
            decreases start,
        {
            proof {
                let pre = raw@.subrange(0, start as int);
                assert(pre.drop_last() =~= raw@.subrange(0, start - 1));
                assert(raw@.subrange(start - 1, n as int) =~= seq![pre.last()] + raw@.subrange(start as int, n as int));
                assert(last_segment(pre) == last_segment(pre.drop_last()).push(pre.last()));
                assert(last_segment(pre.drop_last()).push(pre.last()) + raw@.subrange(start as int, n as int)
                    =~= last_segment(pre.drop_last()) + raw@.subrange(start - 1, n as int));
            }
            start = start - 1;
        }
        proof {
            let pre = raw@.subrange(0, start as int);
            if start > 0 {
                assert(pre.last() == ':');
            }
            assert(last_segment(pre) =~= Seq::<char>::empty());
            assert(last_segment(raw@) =~= raw@.subrange(start as int, n as int));
        }
        if start < n {
            let mut out = String::from_str("EPSG:");
            out.append(raw.substring_char(start, n));
            proof {
                reveal_strlit("EPSG:");
            }
            return out;
        }
    }
    String::from_str(raw)
}

} // verus!
