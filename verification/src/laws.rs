//! The engine's global laws: properties that tie several operations together,
//! stated over the same model the operations' own contracts use.

use vstd::prelude::*;

use crate::graphemes_of;
use crate::Life;

verus! {

/// For a positive divisor, a quotient and remainder in canonical form are the
/// quotient and remainder.
proof fn lemma_div_mod_exact(x: int, d: int, q: int, s: int)
    requires
        1 <= d,
        0 <= s < d,
        x == d * q + s,
    ensures
        x / d == q,
        x % d == s,
{
    vstd::arithmetic::mul::lemma_mul_is_commutative(d, q);
    vstd::arithmetic::div_mod::lemma_fundamental_div_mod_converse(x, d, q, s);
}

impl Life {
    /// Stripping the delimiters from the first `t` glyphs of a well-formed
    /// board leaves the cells in order: the `i`-th survivor is the glyph at
    /// position `i + i / width`, and one position in `width + 1` was dropped.
    proof fn lemma_strip_structure(&self, g: Seq<Seq<char>>, t: int)
        requires
            self.wf(),
            self.well_formed_board(g),
            0 <= t <= g.len(),
        ensures
            self.strip_delimiters(g.take(t)) == Seq::new(
                (t - t / (self.spec_width() + 1)) as nat,
                |i: int| g[i + i / self.spec_width()],
            ),
        decreases t,
    {
        let w = self.spec_width();
        let w1 = w + 1;
        if t == 0 {
            lemma_div_mod_exact(0, w1, 0, 0);
            assert(g.take(0) =~= Seq::<Seq<char>>::empty());
            assert(self.strip_delimiters(g.take(0)) =~= Seq::new(
                0,
                |i: int| g[i + i / self.spec_width()],
            ));
        } else {
            self.lemma_strip_structure(g, t - 1);
            let p = t - 1;
            vstd::arithmetic::div_mod::lemma_fundamental_div_mod(p, w1);
            vstd::arithmetic::div_mod::lemma_mod_bound(p, w1);
            let k = p / w1;
            let s = p % w1;
            assert(g.take(t).drop_last() =~= g.take(p));
            assert(g.take(t).last() == g[p]);
            let prior = Seq::new((p - k) as nat, |i: int| g[i + i / self.spec_width()]);
            assert(self.strip_delimiters(g.take(p)) == prior);
            if s == w1 - 1 {
                // position p holds a row delimiter: the count of survivors is
                // unchanged
                assert(t == w1 * (k + 1)) by (nonlinear_arith)
                    requires
                        p == w1 * k + s,
                        s == w1 - 1,
                        t == p + 1,
                ;
                lemma_div_mod_exact(t, w1, k + 1, 0);
                assert(g[p] == self.delimiter_glyph());
                assert(self.strip_delimiters(g.take(t)) == prior);
                assert((t - t / w1) as nat == (p - k) as nat);
            } else {
                // position p holds a cell glyph: it survives as cell p - k
                lemma_div_mod_exact(t, w1, k, s + 1);
                assert(g[p] == self.live_glyph() || g[p] == self.dead_glyph());
                assert(g[p] != self.delimiter_glyph());
                let i0 = p - k;
                assert(i0 == w * k + s) by (nonlinear_arith)
                    requires
                        p == w1 * k + s,
                        w1 == w + 1,
                        i0 == p - k,
                ;
                lemma_div_mod_exact(i0, w, k, s);
                assert(i0 + i0 / w == p);
                assert(self.strip_delimiters(g.take(t)) == prior.push(g[p]));
                assert(prior.push(g[p]) =~= Seq::new(
                    (t - t / w1) as nat,
                    |i: int| g[i + i / self.spec_width()],
                ));
            }
        }
    }

    /// Rendering the first `n` cells decoded from a well-formed board writes
    /// back exactly the board's glyphs up to the position that cell `n - 1`
    /// came from.
    proof fn lemma_render_structure(&self, g: Seq<Seq<char>>, cells: Seq<bool>, n: int)
        requires
            self.wf(),
            self.well_formed_board(g),
            cells.len() == self.area(),
            forall|m: int|
                0 <= m < cells.len() ==> #[trigger] cells[m] == (g[m + m / self.spec_width()]
                    == self.live_glyph()),
            0 <= n <= self.area(),
        ensures
            self.rendered_prefix(cells, n) == g.take(
                if n == 0 {
                    0
                } else {
                    n + (n - 1) / self.spec_width()
                },
            ).flatten_alt(),
        decreases n,
    {
        let w = self.spec_width();
        let h = self.spec_height();
        let w1 = w + 1;
        if n == 0 {
            assert(g.take(0) =~= Seq::<Seq<char>>::empty());
            assert(g.take(0).flatten_alt() =~= Seq::<char>::empty());
        } else {
            self.lemma_render_structure(g, cells, n - 1);
            let m = n - 1;
            vstd::arithmetic::div_mod::lemma_fundamental_div_mod(m, w);
            vstd::arithmetic::div_mod::lemma_mod_bound(m, w);
            let k = m / w;
            let s = m % w;
            assert(k < h) by (nonlinear_arith)
                requires
                    m == w * k + s,
                    0 <= s,
                    m < w * h,
                    1 <= w,
            ;
            let gi = m + k;
            assert(gi == w1 * k + s) by (nonlinear_arith)
                requires
                    m == w * k + s,
                    w1 == w + 1,
                    gi == m + k,
            ;
            assert(g.len() == w1 * h - 1) by (nonlinear_arith)
                requires
                    g.len() == h * w1 - 1,
            ;
            assert(gi < g.len()) by (nonlinear_arith)
                requires
                    gi == w1 * k + s,
                    0 <= s,
                    s < w,
                    w1 == w + 1,
                    1 <= w,
                    0 <= k,
                    k <= h - 1,
                    g.len() == w1 * h - 1,
            ;
            // the glyph cell m came from is not a delimiter position
            lemma_div_mod_exact(gi + 1, w1, k, s + 1);
            assert(g[gi] == self.live_glyph() || g[gi] == self.dead_glyph());
            assert(self.glyph_for(cells[m]) == g[gi]);
            let pos = n + k;
            assert(g.take(pos).drop_last() =~= g.take(pos - 1));
            assert(g.take(pos).last() == g[pos - 1]);
            assert(g.take(pos).flatten_alt() == g.take(pos - 1).flatten_alt() + g[gi]);
            if m == 0 {
                lemma_div_mod_exact(0, w, 0, 0);
                assert(self.rendered_prefix(cells, 1) == self.rendered_prefix(cells, 0)
                    + Seq::<char>::empty() + self.glyph_for(cells[0]));
                assert(self.rendered_prefix(cells, 1) =~= g.take(1).flatten_alt());
            } else if s != 0 {
                // cell m continues its row: one glyph is appended
                lemma_div_mod_exact(m - 1, w, k, s - 1);
                assert(self.rendered_prefix(cells, n) == self.rendered_prefix(cells, m)
                    + Seq::<char>::empty() + self.glyph_for(cells[m]));
                assert(self.rendered_prefix(cells, n) =~= g.take(pos).flatten_alt());
            } else {
                // cell m opens a new row: a delimiter and a glyph are appended
                assert(m - 1 == w * (k - 1) + (w - 1)) by (nonlinear_arith)
                    requires
                        m == w * k + s,
                        s == 0,
                ;
                lemma_div_mod_exact(m - 1, w, k - 1, w - 1);
                // position gi - 1 is the delimiter closing the previous row
                assert(gi == w1 * k);
                lemma_div_mod_exact(gi, w1, k, 0);
                assert(1 <= k);
                assert(g[gi - 1] == self.delimiter_glyph());
                assert(g.take(pos - 1).drop_last() =~= g.take(pos - 2));
                assert(g.take(pos - 1).last() == g[gi - 1]);
                assert(g.take(pos - 1).flatten_alt() == g.take(pos - 2).flatten_alt() + g[gi
                    - 1]);
                assert(self.rendered_prefix(cells, n) == self.rendered_prefix(cells, m)
                    + self.delimiter_glyph() + self.glyph_for(cells[m]));
                assert(self.rendered_prefix(cells, n) =~= g.take(pos).flatten_alt());
            }
        }
    }

    /// Round-trip law: a well-formed board decodes to a full cell sequence,
    /// and re-encoding that sequence reproduces the board text exactly.
    pub proof fn lemma_round_trip(&self, g: Seq<Seq<char>>)
        requires
            self.wf(),
            self.well_formed_board(g),
        ensures
            self.decoded(g).len() == self.area(),
            self.encoded(self.decoded(g)) == g.flatten(),
    {
        let w = self.spec_width();
        let h = self.spec_height();
        let w1 = w + 1;
        let len = g.len() as int;
        self.lemma_strip_structure(g, len);
        assert(g.take(len) =~= g);
        assert(len == w1 * (h - 1) + w) by (nonlinear_arith)
            requires
                len == h * w1 - 1,
                w1 == w + 1,
        ;
        lemma_div_mod_exact(len, w1, h - 1, w);
        let stripped = self.strip_delimiters(g);
        assert(stripped.len() == (len - (h - 1)) as nat);
        assert(len - (h - 1) == w * h) by (nonlinear_arith)
            requires
                len == h * w1 - 1,
                w1 == w + 1,
        ;
        let cells = self.decoded(g);
        assert(cells.len() == self.area());
        assert(forall|m: int|
            0 <= m < cells.len() ==> #[trigger] cells[m] == (g[m + m / w] == self.live_glyph()));
        self.lemma_render_structure(g, cells, cells.len() as int);
        let n = w * h;
        vstd::arithmetic::div_mod::lemma_fundamental_div_mod(n - 1, w);
        assert(n - 1 == w * (h - 1) + (w - 1)) by (nonlinear_arith)
            requires
                n == w * h,
        ;
        lemma_div_mod_exact(n - 1, w, h - 1, w - 1);
        assert(n + (n - 1) / w == len);
        assert(g.take(len) =~= g);
        g.lemma_flatten_and_flatten_alt_are_equivalent();
    }

    /// Round-trip law at the text level: board text whose glyphs form a
    /// well-formed board comes back unchanged from a decode followed by an
    /// encode. The premise that the glyphs concatenate to the text is what
    /// the segmentation call guarantees for every input.
    pub proof fn lemma_round_trip_text(&self, t: Seq<char>)
        requires
            self.wf(),
            self.well_formed_board(graphemes_of(t)),
            graphemes_of(t).flatten() == t,
        ensures
            self.encoded(self.decoded(graphemes_of(t))) == t,
    {
        self.lemma_round_trip(graphemes_of(t));
    }

    /// Determinism: the board text that `tick`'s contract admits for one
    /// input is unique, so two calls on identical text return identical text.
    pub proof fn lemma_tick_deterministic(
        &self,
        g: Seq<Seq<char>>,
        first: Seq<char>,
        second: Seq<char>,
    )
        requires
            first == self.ticked(g),
            second == self.ticked(g),
        ensures
            first == second,
    {
    }

    /// Synchronicity: every cell of the next generation is the rule applied
    /// to the prior generation's snapshot alone, so no cell's freshly
    /// computed state can influence another cell within the same tick.
    pub proof fn lemma_tick_synchronous(&self, cells: Seq<bool>, i: int)
        requires
            self.wf(),
            cells.len() == self.area(),
            0 <= i < self.area(),
        ensures
            self.next_generation(cells)[i] == self.next_cell(
                cells,
                i % self.spec_width(),
                i / self.spec_width(),
            ),
    {
    }
}

} // verus!
