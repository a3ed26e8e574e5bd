//! Packing of single dots into braille characters, and their rendering as text.
use vstd::prelude::*;

use crate::arith::{lemma_row_major_bound, lemma_row_major_unique};
use vstd::arithmetic::div_mod::{lemma_fundamental_div_mod, lemma_fundamental_div_mod_converse};
use crate::dithering::{Ditherer, THRESHOLD};
use crate::raster::{GrayRaster, RgbaRaster};

verus! {

/// All 256 braille characters, indexed by the byte whose bits are the raised
/// dots, bit 0 being the least significant:
///
/// ```text
/// 0  3
/// 1  4
/// 2  5
/// 6  7
/// ```
pub const BRAILLE_CHARS: [char; 256] = [
    '\u{2800}', '\u{2801}', '\u{2802}', '\u{2803}', '\u{2804}', '\u{2805}', '\u{2806}', '\u{2807}',
    '\u{2808}', '\u{2809}', '\u{280a}', '\u{280b}', '\u{280c}', '\u{280d}', '\u{280e}', '\u{280f}',
    '\u{2810}', '\u{2811}', '\u{2812}', '\u{2813}', '\u{2814}', '\u{2815}', '\u{2816}', '\u{2817}',
    '\u{2818}', '\u{2819}', '\u{281a}', '\u{281b}', '\u{281c}', '\u{281d}', '\u{281e}', '\u{281f}',
    '\u{2820}', '\u{2821}', '\u{2822}', '\u{2823}', '\u{2824}', '\u{2825}', '\u{2826}', '\u{2827}',
    '\u{2828}', '\u{2829}', '\u{282a}', '\u{282b}', '\u{282c}', '\u{282d}', '\u{282e}', '\u{282f}',
    '\u{2830}', '\u{2831}', '\u{2832}', '\u{2833}', '\u{2834}', '\u{2835}', '\u{2836}', '\u{2837}',
    '\u{2838}', '\u{2839}', '\u{283a}', '\u{283b}', '\u{283c}', '\u{283d}', '\u{283e}', '\u{283f}',
    '\u{2840}', '\u{2841}', '\u{2842}', '\u{2843}', '\u{2844}', '\u{2845}', '\u{2846}', '\u{2847}',
    '\u{2848}', '\u{2849}', '\u{284a}', '\u{284b}', '\u{284c}', '\u{284d}', '\u{284e}', '\u{284f}',
    '\u{2850}', '\u{2851}', '\u{2852}', '\u{2853}', '\u{2854}', '\u{2855}', '\u{2856}', '\u{2857}',
    '\u{2858}', '\u{2859}', '\u{285a}', '\u{285b}', '\u{285c}', '\u{285d}', '\u{285e}', '\u{285f}',
    '\u{2860}', '\u{2861}', '\u{2862}', '\u{2863}', '\u{2864}', '\u{2865}', '\u{2866}', '\u{2867}',
    '\u{2868}', '\u{2869}', '\u{286a}', '\u{286b}', '\u{286c}', '\u{286d}', '\u{286e}', '\u{286f}',
    '\u{2870}', '\u{2871}', '\u{2872}', '\u{2873}', '\u{2874}', '\u{2875}', '\u{2876}', '\u{2877}',
    '\u{2878}', '\u{2879}', '\u{287a}', '\u{287b}', '\u{287c}', '\u{287d}', '\u{287e}', '\u{287f}',
    '\u{2880}', '\u{2881}', '\u{2882}', '\u{2883}', '\u{2884}', '\u{2885}', '\u{2886}', '\u{2887}',
    '\u{2888}', '\u{2889}', '\u{288a}', '\u{288b}', '\u{288c}', '\u{288d}', '\u{288e}', '\u{288f}',
    '\u{2890}', '\u{2891}', '\u{2892}', '\u{2893}', '\u{2894}', '\u{2895}', '\u{2896}', '\u{2897}',
    '\u{2898}', '\u{2899}', '\u{289a}', '\u{289b}', '\u{289c}', '\u{289d}', '\u{289e}', '\u{289f}',
    '\u{28a0}', '\u{28a1}', '\u{28a2}', '\u{28a3}', '\u{28a4}', '\u{28a5}', '\u{28a6}', '\u{28a7}',
    '\u{28a8}', '\u{28a9}', '\u{28aa}', '\u{28ab}', '\u{28ac}', '\u{28ad}', '\u{28ae}', '\u{28af}',
    '\u{28b0}', '\u{28b1}', '\u{28b2}', '\u{28b3}', '\u{28b4}', '\u{28b5}', '\u{28b6}', '\u{28b7}',
    '\u{28b8}', '\u{28b9}', '\u{28ba}', '\u{28bb}', '\u{28bc}', '\u{28bd}', '\u{28be}', '\u{28bf}',
    '\u{28c0}', '\u{28c1}', '\u{28c2}', '\u{28c3}', '\u{28c4}', '\u{28c5}', '\u{28c6}', '\u{28c7}',
    '\u{28c8}', '\u{28c9}', '\u{28ca}', '\u{28cb}', '\u{28cc}', '\u{28cd}', '\u{28ce}', '\u{28cf}',
    '\u{28d0}', '\u{28d1}', '\u{28d2}', '\u{28d3}', '\u{28d4}', '\u{28d5}', '\u{28d6}', '\u{28d7}',
    '\u{28d8}', '\u{28d9}', '\u{28da}', '\u{28db}', '\u{28dc}', '\u{28dd}', '\u{28de}', '\u{28df}',
    '\u{28e0}', '\u{28e1}', '\u{28e2}', '\u{28e3}', '\u{28e4}', '\u{28e5}', '\u{28e6}', '\u{28e7}',
    '\u{28e8}', '\u{28e9}', '\u{28ea}', '\u{28eb}', '\u{28ec}', '\u{28ed}', '\u{28ee}', '\u{28ef}',
    '\u{28f0}', '\u{28f1}', '\u{28f2}', '\u{28f3}', '\u{28f4}', '\u{28f5}', '\u{28f6}', '\u{28f7}',
    '\u{28f8}', '\u{28f9}', '\u{28fa}', '\u{28fb}', '\u{28fc}', '\u{28fd}', '\u{28fe}', '\u{28ff}',
];

/// Bytes that one braille character takes in UTF-8.
pub const BRAILLE_LEN: usize = 3;

/// The braille character whose raised dots are the set bits of `v`.
pub open spec fn braille_char(v: u8) -> char {
    (0x2800u32 + v as u32) as char
}

/// The character table holds, at each index, the braille character of that byte.
pub proof fn lemma_braille_table()
    ensures
        forall|i: int| 0 <= i < 256 ==> #[trigger] BRAILLE_CHARS@[i] == braille_char(i as u8),
{
}

/// The character that stands for a cell holding `v`; with `no_empty_chars` a
/// blank cell shows a single dot (bit 2) instead.
pub open spec fn shown_char(v: u8, no_empty_chars: bool) -> char {
    if v == 0 && no_empty_chars {
        braille_char(4)
    } else {
        braille_char(v)
    }
}

/// The character put between two rows of characters.
pub open spec fn row_separator(break_line: bool) -> char {
    if break_line {
        '\n'
    } else {
        ' '
    }
}

/// The text of cell `i`: its character, preceded by the row separator when the
/// cell starts any row but the first.
pub open spec fn cell_text(
    cells: Seq<u8>,
    i: int,
    char_width: nat,
    no_empty_chars: bool,
    break_line: bool,
) -> Seq<char> {
    if i % (char_width as int) == 0 && i != 0 {
        seq![row_separator(break_line), shown_char(cells[i], no_empty_chars)]
    } else {
        seq![shown_char(cells[i], no_empty_chars)]
    }
}

/// The text of a row-major sequence of cells, `char_width` cells to a row.
pub open spec fn rendered(
    cells: Seq<u8>,
    char_width: nat,
    no_empty_chars: bool,
    break_line: bool,
) -> Seq<char>
    decreases cells.len(),
{
    if cells.len() == 0 {
        seq![]
    } else {
        rendered(cells.drop_last(), char_width, no_empty_chars, break_line) + cell_text(
            cells,
            cells.len() - 1,
            char_width,
            no_empty_chars,
            break_line,
        )
    }
}

/// Characters needed for `width` dots: two dots to a character.
pub open spec fn char_cols(width: nat) -> nat {
    (width + 1) / 2
}

/// Characters needed for `height` dots: four dots to a character.
pub open spec fn char_rows(height: nat) -> nat {
    (height + 3) / 4
}

/// Bytes of the text of a grid of `char_width` by `char_height` characters.
pub open spec fn text_bytes(char_width: nat, char_height: nat) -> int {
    char_width * char_height * BRAILLE_LEN + char_height - 1
}

/// Whether a grid of `width` by `height` dots, and its text, can be held in memory.
pub open spec fn fits_in_memory(width: nat, height: nat) -> bool {
    text_bytes(char_cols(width), char_rows(height)) <= usize::MAX
}

/// Whether a dithered sample `v` raises its dot: a dark one does, or with
/// `invert` a light one; a sample equal to [`THRESHOLD`] never does.
pub open spec fn raises(v: u8, invert: bool) -> bool {
    if invert {
        v > THRESHOLD
    } else {
        v < THRESHOLD
    }
}

/// The bit, within its cell, of the dot at `(x, y)`.
pub open spec fn dot_bit(x: int, y: int) -> u8 {
    let row = y % 4;
    if x % 2 == 0 {
        if row == 3 { 6 } else { row as u8 }
    } else {
        if row == 3 { 7 } else { (row + 3) as u8 }
    }
}

/// The mask of the dot at `(x, y)` within its cell.
pub open spec fn dot_mask(x: int, y: int) -> u8 {
    1u8 << dot_bit(x, y)
}

/// A cell byte with one bit set or cleared.
pub open spec fn with_bit(v: u8, mask: u8, raised: bool) -> u8 {
    if raised {
        v | mask
    } else {
        v & !mask
    }
}

/// The error of a dot access outside the grid.
#[derive(Debug, Clone, Copy, PartialEq, Eq, Structural)]
pub enum Error {
    /// The coordinates `(x, y)` of the access, then the grid's width and height
    /// in characters.
    OutOfBounds(u32, u32, u32, u32),
}

/// A grid of dots, packed one braille character (2 by 4 dots) to a byte.
pub struct BrailleImg {
    braille_vals: Vec<u8>,
    dot_width: u32,
    dot_height: u32,
    char_width: u32,
    char_height: u32,
}

/// What a [`BrailleImg`] holds: its sizes and its cells in row-major order.
pub struct BrailleView {
    pub dot_width: nat,
    pub dot_height: nat,
    pub char_width: nat,
    pub char_height: nat,
    pub cells: Seq<u8>,
}

impl BrailleView {
    pub open spec fn wf(self) -> bool {
        &&& self.dot_width > 0
        &&& self.dot_height > 0
        &&& self.char_width == char_cols(self.dot_width)
        &&& self.char_height == char_rows(self.dot_height)
        &&& self.cells.len() == self.char_width * self.char_height
        &&& fits_in_memory(self.dot_width, self.dot_height)
    }

    pub open spec fn in_bounds(self, x: int, y: int) -> bool {
        0 <= x < self.dot_width && 0 <= y < self.dot_height
    }

    /// The index of the cell that holds the dot at `(x, y)`.
    pub open spec fn cell_index(self, x: int, y: int) -> int {
        x / 2 + (y / 4) * self.char_width
    }

    /// Whether the dot at `(x, y)` is raised.
    pub open spec fn dot(self, x: int, y: int) -> bool {
        self.cells[self.cell_index(x, y)] & dot_mask(x, y) != 0
    }

    /// The grid with the dot at `(x, y)` raised or lowered.
    pub open spec fn with_dot(self, x: int, y: int, raised: bool) -> BrailleView {
        let i = self.cell_index(x, y);
        BrailleView {
            cells: self.cells.update(i, with_bit(self.cells[i], dot_mask(x, y), raised)),
            ..self
        }
    }

    /// The grid as text.
    pub open spec fn render(self, no_empty_chars: bool, break_line: bool) -> Seq<char> {
        rendered(self.cells, self.char_width, no_empty_chars, break_line)
    }
}

impl View for BrailleImg {
    type V = BrailleView;

    closed spec fn view(&self) -> BrailleView {
        BrailleView {
            dot_width: self.dot_width as nat,
            dot_height: self.dot_height as nat,
            char_width: self.char_width as nat,
            char_height: self.char_height as nat,
            cells: self.braille_vals@,
        }
    }
}

/// Relies on `String::with_capacity`: it returns an empty string.
#[verifier::external_body]
fn string_with_capacity(capacity: usize) -> (r: String)
    ensures
        r@ == Seq::<char>::empty(),
{
    String::with_capacity(capacity)
}

/// Relies on `String::push`: it appends the one character.
#[verifier::external_body]
fn push_char(s: &mut String, c: char)
    ensures
        final(s)@ == old(s)@.push(c),
{
    s.push(c)
}

/// Setting or clearing bit `a` of a byte leaves every other bit as it was.
proof fn lemma_with_bit(v: u8, a: u8, b: u8, raised: bool)
    requires
        a < 8,
        b < 8,
    ensures
        (with_bit(v, 1u8 << a, raised) & (1u8 << b) != 0) == if a == b {
            raised
        } else {
            v & (1u8 << b) != 0
        },
{
    if raised {
        assert((v | (1u8 << a)) & (1u8 << b) != 0 <==> (a == b || v & (1u8 << b) != 0))
            by (bit_vector)
            requires
                a < 8,
                b < 8,
        ;
    } else {
        assert((v & !(1u8 << a)) & (1u8 << b) != 0 <==> (a != b && v & (1u8 << b) != 0))
            by (bit_vector)
            requires
                a < 8,
                b < 8,
        ;
    }
}

impl BrailleView {
    /// Every dot of the grid lies in one of its cells.
    pub proof fn lemma_cell_index_in_range(self, x: int, y: int)
        requires
            self.wf(),
            self.in_bounds(x, y),
        ensures
            0 <= self.cell_index(x, y) < self.cells.len(),
            0 <= (y / 4) * self.char_width <= self.cell_index(x, y),
    {
        lemma_row_major_bound(y / 4, x / 2, self.char_width as int, self.char_height as int);
    }

    /// Raising or lowering one dot changes that dot alone.
    pub proof fn lemma_with_dot(self, x: int, y: int, raised: bool, i: int, j: int)
        requires
            self.wf(),
            self.in_bounds(x, y),
            self.in_bounds(i, j),
        ensures
            self.with_dot(x, y, raised).wf(),
            self.with_dot(x, y, raised).dot(i, j) == if i == x && j == y {
                raised
            } else {
                self.dot(i, j)
            },
    {
        self.lemma_cell_index_in_range(x, y);
        self.lemma_cell_index_in_range(i, j);
        let k = self.cell_index(x, y);
        let w = self.char_width as int;
        if self.cell_index(i, j) == k {
            lemma_row_major_unique(j / 4, i / 2, y / 4, x / 2, w);
            lemma_with_bit(self.cells[k], dot_bit(x, y), dot_bit(i, j), raised);
        }
    }
}

/// The text of the first `i + 1` cells extends that of the first `i` by cell `i`.
proof fn lemma_rendered_prefix(
    cells: Seq<u8>,
    i: int,
    char_width: nat,
    no_empty_chars: bool,
    break_line: bool,
)
    requires
        0 <= i < cells.len(),
    ensures
        rendered(cells.subrange(0, i + 1), char_width, no_empty_chars, break_line) == rendered(
            cells.subrange(0, i),
            char_width,
            no_empty_chars,
            break_line,
        ) + cell_text(cells, i, char_width, no_empty_chars, break_line),
{
    let next = cells.subrange(0, i + 1);
    assert(next.drop_last() =~= cells.subrange(0, i));
    assert(cell_text(next, i, char_width, no_empty_chars, break_line) == cell_text(
        cells,
        i,
        char_width,
        no_empty_chars,
        break_line,
    ));
}

/// One more item starts a new row of `d` exactly when it is a multiple of `d`.
proof fn lemma_div_step(m: int, d: int)
    requires
        m >= 0,
        d > 0,
    ensures
        (m + 1) / d == m / d + if (m + 1) % d == 0 {
            1int
        } else {
            0int
        },
{
    let q = m / d;
    let r = m % d;
    lemma_fundamental_div_mod(m, d);
    assert(m == q * d + r) by (nonlinear_arith)
        requires
            m == d * q + r,
    ;
    if r + 1 < d {
        lemma_fundamental_div_mod_converse(m + 1, d, q, r + 1);
    } else {
        assert(m + 1 == (q + 1) * d + 0) by (nonlinear_arith)
            requires
                m == q * d + r,
                r + 1 == d,
        ;
        lemma_fundamental_div_mod_converse(m + 1, d, q + 1, 0);
    }
}

/// The text of `n > 0` cells has a character for each and a separator
/// before each row but the first.
proof fn lemma_rendered_len(cells: Seq<u8>, char_width: nat, no_empty_chars: bool, break_line: bool)
    requires
        char_width > 0,
        cells.len() > 0,
    ensures
        rendered(cells, char_width, no_empty_chars, break_line).len() == cells.len() + (
        cells.len() - 1) / (char_width as int),
    decreases cells.len(),
{
    let n = cells.len() as int;
    let last = cell_text(cells, n - 1, char_width, no_empty_chars, break_line);
    assert(rendered(cells, char_width, no_empty_chars, break_line) == rendered(
        cells.drop_last(),
        char_width,
        no_empty_chars,
        break_line,
    ) + last);
    if n > 1 {
        lemma_rendered_len(cells.drop_last(), char_width, no_empty_chars, break_line);
        lemma_div_step(n - 2, char_width as int);
    } else {
        assert(rendered(cells.drop_last(), char_width, no_empty_chars, break_line).len() == 0);
    }
}

impl BrailleView {
    /// The text of a grid holds one character per cell and one separator
    /// between each two rows: `char_width * char_height + char_height - 1`
    /// characters, whatever the cells hold.
    pub proof fn lemma_render_len(self, no_empty_chars: bool, break_line: bool)
        requires
            self.wf(),
        ensures
            self.render(no_empty_chars, break_line).len() == char_cols(self.dot_width) * char_rows(
                self.dot_height,
            ) + char_rows(self.dot_height) - 1,
    {
        let cw = self.char_width as int;
        let ch = self.char_height as int;
        assert(cw * ch >= 1 && cw * ch - 1 == (ch - 1) * cw + (cw - 1)) by (nonlinear_arith)
            requires
                cw >= 1,
                ch >= 1,
        ;
        lemma_rendered_len(self.cells, self.char_width, no_empty_chars, break_line);
        lemma_fundamental_div_mod_converse(cw * ch - 1, cw, ch - 1, cw - 1);
    }

    /// Raising a dot and reading it gives `true`; lowering it again and
    /// reading it gives `false`.
    pub proof fn lemma_set_get_round_trip(self, x: int, y: int)
        requires
            self.wf(),
            self.in_bounds(x, y),
        ensures
            self.with_dot(x, y, true).dot(x, y),
            !self.with_dot(x, y, true).with_dot(x, y, false).dot(x, y),
    {
        self.lemma_with_dot(x, y, true, x, y);
        self.with_dot(x, y, true).lemma_with_dot(x, y, false, x, y);
    }
}

/// The character shown for a cell holding `val`.
fn cell_char(val: u8, no_empty_chars: bool) -> (c: char)
    ensures
        c == shown_char(val, no_empty_chars),
{
    proof {
        lemma_braille_table();
        assert(BRAILLE_CHARS@[4] == braille_char(4));
        assert(BRAILLE_CHARS@[val as int] == braille_char(val));
    }
    if val == 0 && no_empty_chars {
        // a single dot, bit 2
        BRAILLE_CHARS[4]
    } else {
        BRAILLE_CHARS[val as usize]
    }
}

/// The character put between rows of text.
fn separator_char(break_line: bool) -> (c: char)
    ensures
        c == row_separator(break_line),
{
    if break_line {
        '\n'
    } else {
        ' '
    }
}

impl BrailleImg {
    /// Creates a grid of `width` by `height` dots, all lowered; each character
    /// is 2 dots wide and 4 dots tall.
    pub fn new(width: u32, height: u32) -> (r: Self)
        requires
            width > 0,
            height > 0,
            fits_in_memory(width as nat, height as nat),
        ensures
            r@.wf(),
            r@.dot_width == width,
            r@.dot_height == height,
            r@.cells == Seq::new(r@.cells.len(), |i: int| 0u8),
            forall|x: int, y: int| r@.in_bounds(x, y) ==> !#[trigger] r@.dot(x, y),
    {
        let x_size: u32 = width / 2 + (width % 2);
        let extra_row: u32 = if height % 4 != 0 {
            1
        } else {
            0
        };
        let y_size: u32 = height / 4 + extra_row;
        assert(x_size as int * y_size as int <= usize::MAX) by (nonlinear_arith)
            requires
                x_size as int * y_size as int * 3 + y_size - 1 <= usize::MAX,
                y_size >= 1,
        ;
        let n: usize = x_size as usize * y_size as usize;
        let mut vals: Vec<u8> = Vec::with_capacity(n);
        let mut i: usize = 0;
        while i < n
            invariant
                i <= n,
                vals@ == Seq::new(i as nat, |k: int| 0u8),
            decreases n - i,
        {
            vals.push(0);
            i += 1;
            assert(vals@ =~= Seq::new(i as nat, |k: int| 0u8));
        }
        let r = BrailleImg {
            braille_vals: vals,
            dot_width: width,
            dot_height: height,
            char_width: x_size,
            char_height: y_size,
        };
        assert forall|x: int, y: int| r@.in_bounds(x, y) implies !#[trigger] r@.dot(x, y) by {
            r@.lemma_cell_index_in_range(x, y);
            let m = dot_mask(x, y);
            assert(0u8 & m == 0) by (bit_vector);
        }
        r
    }

    /// The mask of the dot at `(x, y)` within its cell, as laid out in
    /// [`BRAILLE_CHARS`].
    fn get_bit_mask(x: u32, y: u32) -> (r: u8)
        ensures
            r == dot_mask(x as int, y as int),
    {
        assert(1u8 << 0u8 == 0b00000001u8 && 1u8 << 1u8 == 0b00000010u8 && 1u8 << 2u8
            == 0b00000100u8 && 1u8 << 6u8 == 0b01000000u8 && 1u8 << 3u8 == 0b00001000u8 && 1u8
            << 4u8 == 0b00010000u8 && 1u8 << 5u8 == 0b00100000u8 && 1u8 << 7u8 == 0b10000000u8)
            by (bit_vector);
        if x % 2 == 0 {
            match y % 4 {
                0 => 0b00000001,
                1 => 0b00000010,
                2 => 0b00000100,
                _ => 0b01000000,
            }
        } else {
            match y % 4 {
                0 => 0b00001000,
                1 => 0b00010000,
                2 => 0b00100000,
                _ => 0b10000000,
            }
        }
    }

    /// Raises (`raised`) or lowers the dot at `(x, y)`; a dot outside the grid
    /// is an error and changes nothing.
    pub fn set_dot(&mut self, x: u32, y: u32, raised: bool) -> (r: Result<(), Error>)
        requires
            old(self)@.wf(),
        ensures
            final(self)@.wf(),
            old(self)@.in_bounds(x as int, y as int) ==> {
                &&& r is Ok
                &&& final(self)@ == old(self)@.with_dot(x as int, y as int, raised)
                &&& forall|i: int, j: int|
                    old(self)@.in_bounds(i, j) ==> #[trigger] final(self)@.dot(i, j) == if i == x
                        && j == y {
                        raised
                    } else {
                        old(self)@.dot(i, j)
                    }
            },
            !old(self)@.in_bounds(x as int, y as int) ==> {
                &&& r == Err::<(), Error>(
                    Error::OutOfBounds(
                        x,
                        y,
                        old(self)@.char_width as u32,
                        old(self)@.char_height as u32,
                    ),
                )
                &&& final(self)@ == old(self)@
            },
    {
        if x > (self.dot_width - 1) || y > (self.dot_height - 1) {
            return Err(Error::OutOfBounds(x, y, self.char_width, self.char_height));
        }
        proof {
            self@.lemma_cell_index_in_range(x as int, y as int);
        }
        let x_val_pos = x / 2;
        let y_val_pos = y / 4;
        let idx: usize = x_val_pos as usize + y_val_pos as usize * self.char_width as usize;
        let val = self.braille_vals[idx];
        let mask = BrailleImg::get_bit_mask(x, y);
        let new_val = if raised {
            val | mask
        } else {
            val & !mask
        };
        self.braille_vals.set(idx, new_val);
        proof {
            assert(self@ =~= old(self)@.with_dot(x as int, y as int, raised));
            assert forall|i: int, j: int| old(self)@.in_bounds(i, j) implies #[trigger] self@.dot(
                i,
                j,
            ) == if i == x && j == y {
                raised
            } else {
                old(self)@.dot(i, j)
            } by {
                old(self)@.lemma_with_dot(x as int, y as int, raised, i, j);
            }
        }
        Ok(())
    }

    /// Whether the dot at `(x, y)` is raised; `None` outside the grid.
    pub fn get_dot(&self, x: u32, y: u32) -> (r: Option<bool>)
        requires
            self@.wf(),
        ensures
            r == if self@.in_bounds(x as int, y as int) {
                Some(self@.dot(x as int, y as int))
            } else {
                None
            },
    {
        if x > (self.dot_width - 1) || y > (self.dot_height - 1) {
            return None;
        }
        proof {
            self@.lemma_cell_index_in_range(x as int, y as int);
        }
        let x_val_pos = x / 2;
        let y_val_pos = y / 4;
        let idx: usize = x_val_pos as usize + y_val_pos as usize * self.char_width as usize;
        let val = self.braille_vals[idx];
        let mask = BrailleImg::get_bit_mask(x, y);
        Some(val & mask != 0)
    }

    /// The grid as text, consuming it; [`BrailleImg::as_str`] does the same
    /// without taking the grid.
    pub fn to_str(self, no_empty_chars: bool, break_line: bool) -> (r: String)
        requires
            self@.wf(),
        ensures
            r@ == self@.render(no_empty_chars, break_line),
    {
        self.as_str(no_empty_chars, break_line)
    }

    /// The grid as text: one braille character per cell, row by row, rows
    /// separated by a newline (`break_line`) or a space. With `no_empty_chars`
    /// a blank cell shows a single dot instead, which keeps rows from skewing
    /// where the blank character is drawn narrower.
    pub fn as_str(&self, no_empty_chars: bool, break_line: bool) -> (r: String)
        requires
            self@.wf(),
        ensures
            r@ == self@.render(no_empty_chars, break_line),
    {
        let mut braille_string = string_with_capacity(self.str_len());
        let n = self.braille_vals.len();
        let cw = self.char_width as usize;
        let ghost cells = self.braille_vals@;
        let mut i: usize = 0;
        while i < n
            invariant
                i <= n,
                n == cells.len(),
                cells == self@.cells,
                cw == self@.char_width,
                cw > 0,
                braille_string@ == rendered(
                    cells.subrange(0, i as int),
                    cw as nat,
                    no_empty_chars,
                    break_line,
                ),
            decreases n - i,
        {
            let ghost before = braille_string@;
            if i % cw == 0 && i != 0 {
                push_char(&mut braille_string, separator_char(break_line));
            }
            push_char(&mut braille_string, cell_char(self.braille_vals[i], no_empty_chars));
            proof {
                lemma_rendered_prefix(cells, i as int, cw as nat, no_empty_chars, break_line);
                assert(before + cell_text(cells, i as int, cw as nat, no_empty_chars, break_line)
                    =~= braille_string@);
            }
            i += 1;
        }
        assert(cells.subrange(0, n as int) =~= cells);
        braille_string
    }

    /// Whether a grid of `width` by `height` dots, and its text, can be held
    /// in memory.
    pub fn can_hold(width: u32, height: u32) -> (r: bool)
        ensures
            r == fits_in_memory(width as nat, height as nat),
    {
        let cols: u128 = width as u128 / 2 + width as u128 % 2;
        let rows: u128 = height as u128 / 4 + if height % 4 != 0 {
            1
        } else {
            0
        };
        assert(cols * rows <= 0x1_0000_0000 * 0x1_0000_0000) by (nonlinear_arith)
            requires
                cols <= 0x1_0000_0000,
                rows <= 0x1_0000_0000,
        ;
        let cells: u128 = cols * rows;
        cells * 3 + rows <= usize::MAX as u128 + 1
    }

    /// The grid of a dithered raster, a dot for each sample: raised where
    /// [`raises`] says so.
    pub fn from_dithered(gray: &GrayRaster, invert: bool) -> (r: Self)
        requires
            gray@.wf(),
            gray@.width > 0,
            gray@.height > 0,
            fits_in_memory(gray@.width, gray@.height),
        ensures
            r@.wf(),
            r@.dot_width == gray@.width,
            r@.dot_height == gray@.height,
            forall|x: int, y: int|
                r@.in_bounds(x, y) ==> #[trigger] r@.dot(x, y) == raises(
                    gray@.pixels[gray@.index(x, y)],
                    invert,
                ),
    {
        let width = gray.width();
        let height = gray.height();
        let w = width as usize;
        let n = gray.pixels().len();
        let mut braille_img = BrailleImg::new(width, height);
        let ghost wi = width as int;
        let mut i: usize = 0;
        while i < n
            invariant
                i <= n,
                n == gray@.pixels.len(),
                gray@.wf(),
                w == width,
                width == gray@.width,
                height == gray@.height,
                wi == width,
                braille_img@.wf(),
                braille_img@.dot_width == width,
                braille_img@.dot_height == height,
                forall|x: int, y: int|
                    braille_img@.in_bounds(x, y) ==> #[trigger] braille_img@.dot(x, y) == (y * wi
                        + x < i && raises(gray@.pixels[y * wi + x], invert)),
            decreases n - i,
        {
            let x = i % w;
            let y = i / w;
            proof {
                assert(i == y * w + x) by (nonlinear_arith)
                    requires
                        w > 0,
                        x == i % w,
                        y == i / w,
                ;
                assert(y < height) by (nonlinear_arith)
                    requires
                        w > 0,
                        y == i / w,
                        i < w * height,
                ;
            }
            let ghost before = braille_img@;
            let v = gray.pixel_at(i);
            let raise = if invert {
                v > THRESHOLD
            } else {
                v < THRESHOLD
            };
            if raise {
                let _ = braille_img.set_dot(x as u32, y as u32, true);
            }
            proof {
                assert forall|x2: int, y2: int| braille_img@.in_bounds(x2, y2) implies #[trigger] braille_img@.dot(
                    x2,
                    y2,
                ) == (y2 * wi + x2 < i + 1 && raises(gray@.pixels[y2 * wi + x2], invert)) by {
                    assert(before.in_bounds(x2, y2));
                    if y2 * wi + x2 == i {
                        lemma_row_major_unique(y2, x2, y as int, x as int, wi);
                    }
                }
            }
            i += 1;
        }
        assert forall|x: int, y: int| braille_img@.in_bounds(x, y) implies y * wi + x < n by {
            lemma_row_major_bound(y, x, wi, height as int);
        }
        braille_img
    }

    /// The grid of a colour raster: its pixels' lightness, dithered, then a dot
    /// for each sample as in [`BrailleImg::from_dithered`].
    pub fn from_image<D: Ditherer>(img: RgbaRaster, ditherer: D, invert: bool) -> (r: Self)
        requires
            img@.wf(),
            img@.width > 0,
            img@.height > 0,
            fits_in_memory(img@.width, img@.height),
        ensures
            r@.wf(),
            r@.dot_width == img@.width,
            r@.dot_height == img@.height,
            forall|x: int, y: int|
                r@.in_bounds(x, y) ==> #[trigger] r@.dot(x, y) == raises(
                    ditherer.dithered(img@.width, img@.height, img@.lightness())[y * img@.width
                        + x],
                    invert,
                ),
    {
        let mut gray_img = img.to_gray();
        ditherer.dither(&mut gray_img);
        BrailleImg::from_dithered(&gray_img, invert)
    }

    /// The grid's width in characters.
    pub fn char_width(&self) -> (r: u32)
        ensures
            r == self@.char_width,
    {
        self.char_width
    }

    /// The grid's height in characters.
    pub fn char_height(&self) -> (r: u32)
        ensures
            r == self@.char_height,
    {
        self.char_height
    }

    /// Bytes of the text of the grid.
    fn str_len(&self) -> (r: usize)
        requires
            self@.wf(),
        ensures
            r == text_bytes(self@.char_width, self@.char_height),
    {
        ((self.char_width as usize * self.char_height as usize) * BRAILLE_LEN) + (
        self.char_height as usize - 1)
    }
}

} // verus!
