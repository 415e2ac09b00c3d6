//! Rendering a maze as text: one line per row, walls as full blocks,
//! open cells as blanks.

use crate::maze::Maze;
use vstd::arithmetic::div_mod::lemma_fundamental_div_mod_converse;
use vstd::prelude::*;

verus! {

/// Relies on std's `String::push`: appends exactly one character.
#[verifier::external_body]
fn string_push(s: &mut String, c: char)
    ensures
        final(s)@ == old(s)@.push(c),
{
    s.push(c);
}

/// The character at offset `i` of the rendered text: each row is the
/// row's cells followed by a newline.
pub open spec fn render_char(m: Maze, i: int) -> char {
    if i % (m.width + 1) == m.width {
        '\n'
    } else {
        m.cell_at(i % (m.width + 1), i / (m.width + 1)).spec_to_char()
    }
}

impl Maze {
    /// The board as text: `height` lines of `width` cell characters.
    pub fn render(&self) -> (r: String)
        requires
            self.wf(),
        ensures
            r@.len() == self.height * (self.width + 1),
            forall|i: int| 0 <= i < r@.len() ==> r@[i] == render_char(*self, i),
    {
        let mut out = String::new();
        let mut y: usize = 0;
        while y < self.height
            invariant
                self.wf(),
                y <= self.height,
                out@.len() == y * (self.width + 1),
                forall|i: int| 0 <= i < out@.len() ==> out@[i] == render_char(*self, i),
            decreases self.height - y,
        {
            let mut x: usize = 0;
            while x < self.width
                invariant
                    self.wf(),
                    y < self.height,
                    x <= self.width,
                    out@.len() == y * (self.width + 1) + x,
                    forall|i: int| 0 <= i < out@.len() ==> out@[i] == render_char(*self, i),
                decreases self.width - x,
            {
                let c = self.get(x, y).to_char();
                proof {
                    lemma_fundamental_div_mod_converse(
                        y * (self.width + 1) + x,
                        self.width as int + 1,
                        y as int,
                        x as int,
                    );
                }
                string_push(&mut out, c);
                x += 1;
            }
            proof {
                lemma_fundamental_div_mod_converse(
                    y * (self.width + 1) + self.width,
                    self.width as int + 1,
                    y as int,
                    self.width as int,
                );
            }
            string_push(&mut out, '\n');
            proof {
                assert((y + 1) * (self.width + 1) == y * (self.width + 1) + (self.width + 1))
                    by (nonlinear_arith);
            }
            y += 1;
        }
        out
    }
}

} // verus!
