//! Conway's Game of Life on a fixed-size toroidal grid, with the board held as
//! delimited glyph text.
//!
//! The engine is a pure function from one generation's text to the next: the
//! text is decoded into a row-major cell sequence, every cell's next state is
//! computed from that immutable snapshot, and the result is encoded back into
//! text. Glyphs are grapheme clusters, so decoding goes through a text
//! segmentation call; everything downstream of that call is verified against
//! the mathematical model below.

use unicode_segmentation::UnicodeSegmentation;
use vstd::prelude::*;

mod laws;

verus! {

/// What a grapheme-segmentation call returns for the given characters: the
/// board text split into user-perceived glyphs. The segmentation depends on
/// the characters alone.
pub uninterp spec fn graphemes_of(s: Seq<char>) -> Seq<Seq<char>>;

/// Relies on unicode_segmentation's `UnicodeSegmentation::graphemes` with
/// extended cluster boundaries: it segments the text into grapheme clusters
/// (UAX #29), substrings of the input that concatenate back to it.
#[verifier::external_body]
fn split_graphemes(s: &str) -> (r: Vec<String>)
    ensures
        r.deep_view() == graphemes_of(s@),
        r.deep_view().flatten() == s@,
{
    s.graphemes(true).map(String::from).collect()
}

/// 1 for a live cell, 0 for a dead one; the unit of neighbor counting.
pub open spec fn cell_weight(alive: bool) -> int {
    if alive {
        1
    } else {
        0
    }
}

/// Failures reported at the engine boundary.
#[derive(Clone, Copy, Debug, PartialEq, Eq, Structural)]
pub enum LifeError {
    /// The grid would be degenerate or its cell count would not fit the index
    /// arithmetic: rejected at construction.
    InvalidDimensions,
    /// The board text does not decode to exactly `width * height` cells.
    InvalidBoardSize,
}

#[derive(Debug)]
pub struct Life {
    live_cell_character: String,
    dead_cell_character: String,
    line_delimiter_character: String,
    width: usize,
    height: usize,
}

impl Life {
    pub closed spec fn spec_width(&self) -> int {
        self.width as int
    }

    pub closed spec fn spec_height(&self) -> int {
        self.height as int
    }

    pub closed spec fn live_glyph(&self) -> Seq<char> {
        self.live_cell_character@
    }

    pub closed spec fn dead_glyph(&self) -> Seq<char> {
        self.dead_cell_character@
    }

    pub closed spec fn delimiter_glyph(&self) -> Seq<char> {
        self.line_delimiter_character@
    }

    /// Number of cells of the grid.
    pub open spec fn area(&self) -> int {
        self.spec_width() * self.spec_height()
    }

    /// The configuration every operation relies on: positive dimensions whose
    /// product fits the index arithmetic, and three distinct glyphs.
    pub open spec fn wf(&self) -> bool {
        &&& 1 <= self.spec_width()
        &&& 1 <= self.spec_height()
        &&& self.area() <= isize::MAX as int
        &&& self.live_glyph() != self.dead_glyph()
        &&& self.live_glyph() != self.delimiter_glyph()
        &&& self.dead_glyph() != self.delimiter_glyph()
    }

    /// Row-major cell index of the position `(x, y)` with both coordinates
    /// wrapped onto the grid.
    pub open spec fn index_spec(&self, x: int, y: int) -> int {
        (y % self.spec_height()) * self.spec_width() + (x % self.spec_width())
    }

    /// Whether the cell at the wrapped position `(x, y)` is live.
    pub open spec fn live_at(&self, cells: Seq<bool>, x: int, y: int) -> bool {
        cells[self.index_spec(x, y)]
    }

    /// Live cells among the 8 Moore neighbors of `(x, y)`; every neighbor is
    /// drawn toroidally, so edge and corner cells have all 8.
    pub open spec fn neighbor_count(&self, cells: Seq<bool>, x: int, y: int) -> int {
        cell_weight(self.live_at(cells, x - 1, y - 1)) + cell_weight(
            self.live_at(cells, x, y - 1),
        ) + cell_weight(self.live_at(cells, x + 1, y - 1)) + cell_weight(
            self.live_at(cells, x - 1, y),
        ) + cell_weight(self.live_at(cells, x + 1, y)) + cell_weight(
            self.live_at(cells, x - 1, y + 1),
        ) + cell_weight(self.live_at(cells, x, y + 1)) + cell_weight(
            self.live_at(cells, x + 1, y + 1),
        )
    }

    /// The classic Life rule: a live cell survives on 2 or 3 live neighbors, a
    /// dead cell is born on exactly 3, everything else is dead.
    pub open spec fn next_cell(&self, cells: Seq<bool>, x: int, y: int) -> bool {
        let n = self.neighbor_count(cells, x, y);
        if self.live_at(cells, x, y) {
            n == 2 || n == 3
        } else {
            n == 3
        }
    }

    /// The next generation: every cell computed from the same prior snapshot.
    pub open spec fn next_generation(&self, cells: Seq<bool>) -> Seq<bool> {
        Seq::new(
            self.area() as nat,
            |i: int| self.next_cell(cells, i % self.spec_width(), i / self.spec_width()),
        )
    }

    /// The glyph sequence with every row delimiter removed.
    pub open spec fn strip_delimiters(&self, g: Seq<Seq<char>>) -> Seq<Seq<char>>
        decreases g.len(),
    {
        if g.len() == 0 {
            Seq::empty()
        } else {
            let rest = self.strip_delimiters(g.drop_last());
            if g.last() == self.delimiter_glyph() {
                rest
            } else {
                rest.push(g.last())
            }
        }
    }

    /// A glyph sequence read as binary cells: live exactly where the glyph is
    /// the live glyph.
    pub open spec fn cells_of(&self, g: Seq<Seq<char>>) -> Seq<bool> {
        g.map_values(|c: Seq<char>| c == self.live_glyph())
    }

    /// The cell sequence that a board's glyph sequence decodes to.
    pub open spec fn decoded(&self, g: Seq<Seq<char>>) -> Seq<bool> {
        self.cells_of(self.strip_delimiters(g))
    }

    /// The glyph written for one cell.
    pub open spec fn glyph_for(&self, alive: bool) -> Seq<char> {
        if alive {
            self.live_glyph()
        } else {
            self.dead_glyph()
        }
    }

    /// The text encoding the first `n` cells: a row delimiter before every
    /// cell that starts a row other than the first, then the cell's glyph.
    pub open spec fn rendered_prefix(&self, cells: Seq<bool>, n: int) -> Seq<char>
        decreases n,
    {
        if n <= 0 {
            Seq::empty()
        } else {
            self.rendered_prefix(cells, n - 1) + (if n - 1 > 0 && (n - 1) % self.spec_width()
                == 0 {
                self.delimiter_glyph()
            } else {
                Seq::<char>::empty()
            }) + self.glyph_for(cells[n - 1])
        }
    }

    /// The board text encoding a full cell sequence.
    pub open spec fn encoded(&self, cells: Seq<bool>) -> Seq<char> {
        self.rendered_prefix(cells, cells.len() as int)
    }

    /// The board text one tick produces from a decoded glyph sequence.
    pub open spec fn ticked(&self, g: Seq<Seq<char>>) -> Seq<char> {
        self.encoded(self.next_generation(self.decoded(g)))
    }

    /// A glyph sequence in board form: `height` rows of `width` cell glyphs,
    /// one row delimiter between consecutive rows and nowhere else, and every
    /// cell glyph drawn from the symbol set.
    pub open spec fn well_formed_board(&self, g: Seq<Seq<char>>) -> bool {
        &&& g.len() == self.spec_height() * (self.spec_width() + 1) - 1
        &&& forall|j: int|
            0 <= j < g.len() && (j + 1) % (self.spec_width() + 1) == 0 ==> #[trigger] g[j]
                == self.delimiter_glyph()
        &&& forall|j: int|
            0 <= j < g.len() && (j + 1) % (self.spec_width() + 1) != 0 ==> (#[trigger] g[j]
                == self.live_glyph() || g[j] == self.dead_glyph())
    }

    /// Builds an engine with the default glyph set: `"█"` live, `" "` dead,
    /// `"\n"` between rows. A degenerate grid is rejected, as is one whose
    /// cell count would not fit the index arithmetic.
    pub fn new(w: usize, h: usize) -> (r: Result<Life, LifeError>)
        ensures
            match r {
                Ok(engine) => {
                    &&& 1 <= w
                    &&& 1 <= h
                    &&& w * h <= isize::MAX as int
                    &&& engine.wf()
                    &&& engine.spec_width() == w
                    &&& engine.spec_height() == h
                    &&& engine.live_glyph() == "█"@
                    &&& engine.dead_glyph() == " "@
                    &&& engine.delimiter_glyph() == "\n"@
                },
                Err(e) => {
                    &&& e == LifeError::InvalidDimensions
                    &&& !(1 <= w && 1 <= h && w * h <= isize::MAX as int)
                },
            },
    {
        if w == 0 || h == 0 {
            return Err(LifeError::InvalidDimensions);
        }
        let cap: usize = (isize::MAX as usize) / h;
        proof {
            let m: int = isize::MAX as int;
            let hi: int = h as int;
            vstd::arithmetic::div_mod::lemma_fundamental_div_mod(m, hi);
            vstd::arithmetic::div_mod::lemma_mod_bound(m, hi);
            if w as int > m / hi {
                assert((w as int) * hi > m) by (nonlinear_arith)
                    requires
                        m == hi * (m / hi) + m % hi,
                        0 <= m % hi < hi,
                        w as int >= m / hi + 1,
                ;
            } else {
                assert((w as int) * hi <= m) by (nonlinear_arith)
                    requires
                        m == hi * (m / hi) + m % hi,
                        0 <= m % hi < hi,
                        w as int <= m / hi,
                        1 <= w as int,
                ;
            }
        }
        if w > cap {
            return Err(LifeError::InvalidDimensions);
        }
        let engine = Life {
            live_cell_character: "█".to_owned(),
            dead_cell_character: " ".to_owned(),
            line_delimiter_character: "\n".to_owned(),
            width: w,
            height: h,
        };
        proof {
            reveal_strlit("█");
            reveal_strlit(" ");
            reveal_strlit("\n");
            assert(engine.live_glyph()[0] != engine.dead_glyph()[0]);
            assert(engine.live_glyph()[0] != engine.delimiter_glyph()[0]);
            assert(engine.dead_glyph()[0] != engine.delimiter_glyph()[0]);
        }
        Ok(engine)
    }

    /// Wraps `i` into `[0, max)` with true (floored) modulo semantics, so that
    /// negative coordinates wrap to the opposite edge.
    pub fn wrap_coordinate(i: isize, max: isize) -> (r: isize)
        requires
            1 <= max,
        ensures
            0 <= r < max,
            r as int == (i as int) % (max as int),
    {
        if i >= 0 {
            let r: usize = (i as usize) % (max as usize);
            r as isize
        } else {
            // i == -(k + 1), and -(k + 1) mod max == max - 1 - (k mod max)
            let k: usize = (-(i + 1)) as usize;
            let t: usize = k % (max as usize);
            proof {
                let ki: int = k as int;
                let m: int = max as int;
                let qk: int = ki / m;
                let tk: int = ki % m;
                vstd::arithmetic::div_mod::lemma_fundamental_div_mod(ki, m);
                assert(i as int == (-qk - 1) * m + (m - 1 - tk)) by (nonlinear_arith)
                    requires
                        ki == m * qk + tk,
                        i as int == -ki - 1,
                ;
                vstd::arithmetic::div_mod::lemma_fundamental_div_mod_converse(
                    i as int,
                    m,
                    -qk - 1,
                    m - 1 - tk,
                );
            }
            max - 1 - (t as isize)
        }
    }

    /// Maps any integer position to its cell index: both coordinates wrap
    /// toroidally, and the row-major index is wrapped once more, so the
    /// result always lies in `[0, area)`.
    pub fn position_to_index(&self, x: isize, y: isize) -> (r: usize)
        requires
            self.wf(),
        ensures
            r == self.index_spec(x as int, y as int),
            r < self.area(),
    {
        proof {
            assert(self.spec_width() <= self.area() && self.spec_height() <= self.area())
                by (nonlinear_arith)
                requires
                    1 <= self.spec_width(),
                    1 <= self.spec_height(),
            ;
        }
        let wx: isize = Life::wrap_coordinate(x, self.width as isize);
        let wy: isize = Life::wrap_coordinate(y, self.height as isize);
        proof {
            assert(0 <= self.spec_width() * (wy as int) + (wx as int) < self.area())
                by (nonlinear_arith)
                requires
                    0 <= (wy as int) < self.spec_height(),
                    0 <= (wx as int) < self.spec_width(),
                    1 <= self.spec_width(),
            ;
        }
        let index: usize = ((self.width as isize) * wy + wx) as usize;
        let total: usize = self.width * self.height;
        proof {
            vstd::arithmetic::div_mod::lemma_small_mod(index as nat, total as nat);
            vstd::arithmetic::mul::lemma_mul_is_commutative(self.spec_width(), wy as int);
        }
        Life::wrap_coordinate(index as isize, total as isize) as usize
    }

    /// Counts the live cells among the 8 Moore neighbors of `(x, y)`,
    /// wrapping toroidally at every edge.
    pub fn count_neighbors(&self, graphemes: &Vec<String>, y: isize, x: isize) -> (r: i32)
        requires
            self.wf(),
            self.area() <= graphemes@.len(),
            isize::MIN < x < isize::MAX,
            isize::MIN < y < isize::MAX,
        ensures
            r == self.neighbor_count(self.cells_of(graphemes.deep_view()), x as int, y as int),
            0 <= r <= 8,
    {
        let mut neighbors: i32 = 0;
        let i0: usize = self.position_to_index(x - 1, y - 1);
        let i1: usize = self.position_to_index(x, y - 1);
        let i2: usize = self.position_to_index(x + 1, y - 1);
        let i3: usize = self.position_to_index(x - 1, y);
        let i4: usize = self.position_to_index(x + 1, y);
        let i5: usize = self.position_to_index(x - 1, y + 1);
        let i6: usize = self.position_to_index(x, y + 1);
        let i7: usize = self.position_to_index(x + 1, y + 1);
        if graphemes[i0] == self.live_cell_character {
            neighbors = neighbors + 1;
        }
        if graphemes[i1] == self.live_cell_character {
            neighbors = neighbors + 1;
        }
        if graphemes[i2] == self.live_cell_character {
            neighbors = neighbors + 1;
        }
        if graphemes[i3] == self.live_cell_character {
            neighbors = neighbors + 1;
        }
        if graphemes[i4] == self.live_cell_character {
            neighbors = neighbors + 1;
        }
        if graphemes[i5] == self.live_cell_character {
            neighbors = neighbors + 1;
        }
        if graphemes[i6] == self.live_cell_character {
            neighbors = neighbors + 1;
        }
        if graphemes[i7] == self.live_cell_character {
            neighbors = neighbors + 1;
        }
        neighbors
    }

    /// The glyph of cell `(x, y)` in the next generation: the Life rule
    /// applied to the binary reading of the current board snapshot.
    pub fn get_next_state(&self, graphemes: &Vec<String>, y: isize, x: isize) -> (r: String)
        requires
            self.wf(),
            self.area() <= graphemes@.len(),
            0 <= x < self.spec_width(),
            0 <= y < self.spec_height(),
        ensures
            r@ == self.glyph_for(
                self.next_cell(self.cells_of(graphemes.deep_view()), x as int, y as int),
            ),
    {
        proof {
            assert(self.spec_width() <= self.area() && self.spec_height() <= self.area()
                && 0 <= self.spec_width() * (y as int) + (x as int) < self.area())
                by (nonlinear_arith)
                requires
                    0 <= (y as int) < self.spec_height(),
                    0 <= (x as int) < self.spec_width(),
                    1 <= self.spec_width(),
                    1 <= self.spec_height(),
            ;
            vstd::arithmetic::div_mod::lemma_small_mod(x as nat, self.spec_width() as nat);
            vstd::arithmetic::div_mod::lemma_small_mod(y as nat, self.spec_height() as nat);
            vstd::arithmetic::mul::lemma_mul_is_commutative(self.spec_width(), y as int);
        }
        let index: usize = ((self.width as isize) * y + x) as usize;
        let alive: bool = graphemes[index] == self.live_cell_character;
        let neighbors: i32 = self.count_neighbors(graphemes, y, x);
        if alive && (neighbors == 2 || neighbors == 3) {
            self.live_cell_character.clone()
        } else if !alive && neighbors == 3 {
            self.live_cell_character.clone()
        } else {
            self.dead_cell_character.clone()
        }
    }

    /// Decodes a glyph sequence: row delimiters are dropped, every other
    /// glyph becomes one binary cell, and the cell count must match the grid.
    pub fn decode_graphemes(&self, graphemes: &Vec<String>) -> (r: Result<Vec<bool>, LifeError>)
        requires
            self.wf(),
        ensures
            match r {
                Ok(cells) => {
                    &&& self.strip_delimiters(graphemes.deep_view()).len() == self.area()
                    &&& cells@ == self.decoded(graphemes.deep_view())
                },
                Err(e) => {
                    &&& e == LifeError::InvalidBoardSize
                    &&& self.strip_delimiters(graphemes.deep_view()).len() != self.area()
                },
            },
    {
        let ghost all: Seq<Seq<char>> = graphemes.deep_view();
        let mut cells: Vec<bool> = Vec::new();
        let mut j: usize = 0;
        while j < graphemes.len()
            invariant
                self.wf(),
                j <= graphemes@.len(),
                all == graphemes.deep_view(),
                cells@ == self.cells_of(self.strip_delimiters(all.take(j as int))),
            decreases graphemes@.len() - j,
        {
            let is_delimiter: bool = graphemes[j] == self.line_delimiter_character;
            if !is_delimiter {
                let is_live: bool = graphemes[j] == self.live_cell_character;
                cells.push(is_live);
            }
            j = j + 1;
            proof {
                let taken = all.take(j as int);
                assert(taken.drop_last() =~= all.take(j as int - 1));
                assert(taken.last() == all[j as int - 1]);
                if all[j as int - 1] != self.delimiter_glyph() {
                    assert(self.cells_of(self.strip_delimiters(taken)) =~= self.cells_of(
                        self.strip_delimiters(taken.drop_last()),
                    ).push(all[j as int - 1] == self.live_glyph()));
                }
            }
        }
        proof {
            assert(all.take(graphemes@.len() as int) =~= all);
        }
        if cells.len() != self.width * self.height {
            return Err(LifeError::InvalidBoardSize);
        }
        Ok(cells)
    }

    /// Encodes a full cell sequence as board text: rows of glyphs joined by
    /// single row delimiters, with no leading or trailing delimiter.
    pub fn encode(&self, cells: &Vec<bool>) -> (r: String)
        requires
            self.wf(),
            cells@.len() == self.area(),
        ensures
            r@ == self.encoded(cells@),
    {
        let mut output: String = String::new();
        let area: usize = self.width * self.height;
        let mut i: usize = 0;
        while i < area
            invariant
                self.wf(),
                i <= area,
                area == self.area(),
                cells@.len() == self.area(),
                output@ == self.rendered_prefix(cells@, i as int),
            decreases area - i,
        {
            if i > 0 && i % self.width == 0 {
                output.append(self.line_delimiter_character.as_str());
            }
            if cells[i] {
                output.append(self.live_cell_character.as_str());
            } else {
                output.append(self.dead_cell_character.as_str());
            }
            i = i + 1;
        }
        output
    }

    /// One tick of an already segmented board: strips the row delimiters,
    /// checks the cell count, and streams every cell's next state, computed
    /// from the unchanging decoded snapshot, through the encoder.
    pub fn tick_graphemes(&self, graphemes: &Vec<String>) -> (r: Result<String, LifeError>)
        requires
            self.wf(),
        ensures
            match r {
                Ok(next) => {
                    &&& self.strip_delimiters(graphemes.deep_view()).len() == self.area()
                    &&& next@ == self.ticked(graphemes.deep_view())
                },
                Err(e) => {
                    &&& e == LifeError::InvalidBoardSize
                    &&& self.strip_delimiters(graphemes.deep_view()).len() != self.area()
                },
            },
    {
        let ghost all: Seq<Seq<char>> = graphemes.deep_view();
        let mut stripped: Vec<String> = Vec::new();
        let mut j: usize = 0;
        while j < graphemes.len()
            invariant
                self.wf(),
                j <= graphemes@.len(),
                all == graphemes.deep_view(),
                stripped.deep_view() == self.strip_delimiters(all.take(j as int)),
            decreases graphemes@.len() - j,
        {
            let is_delimiter: bool = graphemes[j] == self.line_delimiter_character;
            if !is_delimiter {
                stripped.push(graphemes[j].clone());
            }
            j = j + 1;
            proof {
                let taken = all.take(j as int);
                assert(taken.drop_last() =~= all.take(j as int - 1));
                assert(taken.last() == all[j as int - 1]);
                if all[j as int - 1] != self.delimiter_glyph() {
                    assert(stripped.deep_view() =~= self.strip_delimiters(taken.drop_last()).push(
                        all[j as int - 1],
                    ));
                }
            }
        }
        proof {
            assert(all.take(graphemes@.len() as int) =~= all);
        }
        if stripped.len() != self.width * self.height {
            return Err(LifeError::InvalidBoardSize);
        }
        let ghost cells: Seq<bool> = self.cells_of(stripped.deep_view());
        let ghost next_cells: Seq<bool> = self.next_generation(cells);
        let mut output: String = String::new();
        let area: usize = self.width * self.height;
        let mut i: usize = 0;
        while i < area
            invariant
                self.wf(),
                i <= area,
                area == self.area(),
                stripped@.len() == self.area(),
                cells == self.cells_of(stripped.deep_view()),
                next_cells == self.next_generation(cells),
                output@ == self.rendered_prefix(next_cells, i as int),
            decreases area - i,
        {
            if i > 0 && i % self.width == 0 {
                output.append(self.line_delimiter_character.as_str());
            }
            let x: usize = i % self.width;
            let y: usize = i / self.width;
            proof {
                vstd::arithmetic::div_mod::lemma_fundamental_div_mod(i as int, self.spec_width());
                vstd::arithmetic::div_mod::lemma_mod_bound(i as int, self.spec_width());
                assert((i as int) / self.spec_width() < self.spec_height()) by (nonlinear_arith)
                    requires
                        i as int == self.spec_width() * ((i as int) / self.spec_width()) + (
                        i as int) % self.spec_width(),
                        0 <= (i as int) % self.spec_width(),
                        (i as int) < self.spec_width() * self.spec_height(),
                        1 <= self.spec_width(),
                ;
            }
            let next: String = self.get_next_state(&stripped, y as isize, x as isize);
            output.append(next.as_str());
            i = i + 1;
        }
        proof {
            assert(self.strip_delimiters(all).len() == self.area());
            assert(next_cells.len() == self.area());
        }
        Ok(output)
    }

    /// Decodes board text into its cell sequence: the text is segmented into
    /// glyphs, delimiters are dropped, and the cell count must match the grid.
    pub fn decode(&self, input: &String) -> (r: Result<Vec<bool>, LifeError>)
        requires
            self.wf(),
        ensures
            match r {
                Ok(cells) => {
                    &&& self.strip_delimiters(graphemes_of(input@)).len() == self.area()
                    &&& cells@ == self.decoded(graphemes_of(input@))
                },
                Err(e) => {
                    &&& e == LifeError::InvalidBoardSize
                    &&& self.strip_delimiters(graphemes_of(input@)).len() != self.area()
                },
            },
    {
        let graphemes: Vec<String> = split_graphemes(input.as_str());
        self.decode_graphemes(&graphemes)
    }

    /// One generation of the automaton: decodes `input`, applies the Life
    /// rule to every cell simultaneously, and encodes the result. The input
    /// text is rejected when it does not hold exactly `width * height` cells.
    pub fn tick(&self, input: &String) -> (r: Result<String, LifeError>)
        requires
            self.wf(),
        ensures
            match r {
                Ok(next) => {
                    &&& self.strip_delimiters(graphemes_of(input@)).len() == self.area()
                    &&& next@ == self.ticked(graphemes_of(input@))
                },
                Err(e) => {
                    &&& e == LifeError::InvalidBoardSize
                    &&& self.strip_delimiters(graphemes_of(input@)).len() != self.area()
                },
            },
    {
        let graphemes: Vec<String> = split_graphemes(input.as_str());
        self.tick_graphemes(&graphemes)
    }
}

} // verus!
