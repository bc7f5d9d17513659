//! Matrices and vectors as text.

use vstd::prelude::*;
use vstd::string::*;
use core::fmt::Display;
use crate::matrix::{Matrix, Vec2, Vec3};
use crate::text::{centered, centered_text};

verus! {

/// The width of the field that each element of a matrix is centered in.
pub const CELL_WIDTH: usize = 20;

/// `text` is what `Display` gives for `value`.
pub open spec fn shows<T: Display>(value: T, text: String) -> bool {
    to_string_from_display_ensures::<T>(&value, text)
}

/// `texts` holds, place by place, what `Display` gives for `values`.
pub open spec fn displayed<T: Display>(values: Seq<T>, texts: Seq<String>) -> bool {
    &&& texts.len() == values.len()
    &&& forall|i: int| 0 <= i < values.len() ==> shows(values[i], #[trigger] texts[i])
}

/// The characters of each text.
pub open spec fn characters(texts: Seq<String>) -> Seq<Seq<char>> {
    Seq::new(texts.len(), |i: int| texts[i]@)
}

/// The rendering of cell `i`: a bar and the centered text, after the bar and
/// line break that close the row before it where the cell starts a row.
pub open spec fn cell(texts: Seq<Seq<char>>, cols: nat, i: int) -> Seq<char> {
    let start = if i != 0 && i % (cols as int) == 0 {
        seq!['|', '\n']
    } else {
        Seq::<char>::empty()
    };
    start + seq!['|'] + centered(texts[i], CELL_WIDTH as nat)
}

/// The renderings of the first `count` cells, one after another.
pub open spec fn cells_upto(texts: Seq<Seq<char>>, cols: nat, count: nat) -> Seq<char>
    decreases count,
{
    if count == 0 {
        Seq::<char>::empty()
    } else {
        cells_upto(texts, cols, (count - 1) as nat) + cell(texts, cols, count - 1)
    }
}

/// A grid of `cols` columns of the given cell texts: each cell is a bar and
/// the text centered in 20 characters, each row ends with a bar, and the
/// rows are lines. The last row has no line break after it.
pub open spec fn grid(texts: Seq<Seq<char>>, cols: nat) -> Seq<char> {
    cells_upto(texts, cols, texts.len()).push('|')
}

/// Lays the texts of the elements of a matrix out as a grid of `n_col`
/// columns.
pub fn grid_text(texts: &Vec<String>, n_col: usize) -> (s: String)
    requires
        n_col > 0 || texts@.len() == 0,
    ensures
        s@ == grid(characters(texts@), n_col as nat),
{
    let ghost all = characters(texts@);
    let mut result = String::new();
    let mut i: usize = 0;
    while i < texts.len()
        invariant
            all == characters(texts@),
            n_col > 0 || texts@.len() == 0,
            i <= texts@.len(),
            result@ == cells_upto(all, n_col as nat, i as nat),
        decreases texts@.len() - i,
    {
        let ghost before = result@;
        if i % n_col == 0 && i != 0 {
            proof {
                reveal_strlit("|\n");
            }
            result.append("|\n");
        }
        proof {
            reveal_strlit("|");
        }
        result.append("|");
        let field = centered_text(texts[i].as_str(), CELL_WIDTH);
        result.append(field.as_str());
        assert(result@ =~= before + cell(all, n_col as nat, i as int));
        i = i + 1;
    }
    proof {
        reveal_strlit("|");
    }
    result.append("|");
    assert(result@ =~= grid(all, n_col as nat));
    result
}

impl<T: Display> Matrix<T> {
    /// The matrix as text: the elements as `Display` shows them, laid out by
    /// [`grid_text`].
    pub fn to_text(&self) -> (s: String)
        requires
            self@.cols > 0 || self@.cells.len() == 0,
        ensures
            exists|texts: Seq<String>| #[trigger]
                displayed(self@.cells, texts) && s@ == grid(characters(texts), self@.cols),
    {
        let mut texts: Vec<String> = Vec::new();
        let mut i: usize = 0;
        while i < self.mat.len()
            invariant
                i <= self.mat@.len(),
                displayed(self.mat@.take(i as int), texts@),
            decreases self.mat@.len() - i,
        {
            texts.push(self.mat[i].to_string());
            i = i + 1;
        }
        assert(self.mat@.take(i as int) =~= self.mat@);
        let s = grid_text(&texts, self.n_col);
        assert(displayed(self@.cells, texts@));
        s
    }
}

impl<T: Display> Vec2<T> {
    /// The vector as text: `(x, y)`, the components as `Display` shows
    /// them.
    pub fn to_text(&self) -> (s: String)
        ensures
            exists|x: String, y: String|
                #![trigger shows(self.x, x), shows(self.y, y)]
                shows(self.x, x) && shows(self.y, y) && s@ == seq!['('] + x@ + seq![',', ' '] + y@
                    + seq![')'],
    {
        let x = self.x.to_string();
        let y = self.y.to_string();
        proof {
            reveal_strlit("(");
            reveal_strlit(", ");
            reveal_strlit(")");
        }
        let mut s = String::from_str("(");
        s.append(x.as_str());
        s.append(", ");
        s.append(y.as_str());
        s.append(")");
        assert(shows(self.x, x) && shows(self.y, y));
        assert(s@ =~= seq!['('] + x@ + seq![',', ' '] + y@ + seq![')']);
        s
    }
}

impl<T: Display> Vec3<T> {
    /// The vector as text: `(x, y, z)`, the components as `Display` shows
    /// them.
    pub fn to_text(&self) -> (s: String)
        ensures
            exists|x: String, y: String, z: String|
                #![trigger shows(self.x, x), shows(self.y, y), shows(self.z, z)]
                shows(self.x, x) && shows(self.y, y) && shows(self.z, z) && s@ == seq!['('] + x@
                    + seq![',', ' '] + y@ + seq![',', ' '] + z@ + seq![')'],
    {
        let x = self.x.to_string();
        let y = self.y.to_string();
        let z = self.z.to_string();
        proof {
            reveal_strlit("(");
            reveal_strlit(", ");
            reveal_strlit(")");
        }
        let mut s = String::from_str("(");
        s.append(x.as_str());
        s.append(", ");
        s.append(y.as_str());
        s.append(", ");
        s.append(z.as_str());
        s.append(")");
        assert(shows(self.x, x) && shows(self.y, y) && shows(self.z, z));
        assert(s@ =~= seq!['('] + x@ + seq![',', ' '] + y@ + seq![',', ' '] + z@ + seq![')']);
        s
    }
}

} // verus!
