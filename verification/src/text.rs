//! Laying a matrix out as text.
use vstd::prelude::*;
use crate::grid::Grid;
use crate::linalg::Matrix;

verus! {

/// `String::push_str`: `more` is appended to the end of `text`.
#[verifier::external_body]
fn append(text: &mut String, more: &str)
    ensures
        final(text)@ == old(text)@ + more@,
{
    text.push_str(more)
}

/// `text` is what `show` may write for `x`.
pub open spec fn shown_as<T, F: Fn(T) -> String>(show: F, x: T, text: Seq<char>) -> bool {
    exists|s: String| #[trigger] call_ensures(show, (x,), s) && s@ == text
}

/// The first `k` of `cells`, each followed by a space.
pub open spec fn line(cells: Seq<Seq<char>>, k: nat) -> Seq<char>
    decreases k,
{
    if k == 0 {
        Seq::empty()
    } else {
        line(cells, (k - 1) as nat) + cells[k - 1] + " "@
    }
}

/// The first `k` of `rows`, each laid out as a line and ended by a newline.
pub open spec fn page(rows: Seq<Seq<Seq<char>>>, k: nat) -> Seq<char>
    decreases k,
{
    if k == 0 {
        Seq::empty()
    } else {
        page(rows, (k - 1) as nat) + line(rows[k - 1], rows[k - 1].len()) + "\n"@
    }
}

/// `texts` holds, cell by cell, what `show` may write for the entries of `g`.
pub open spec fn written<T, F: Fn(T) -> String>(
    show: F,
    g: Grid<T>,
    texts: Seq<Seq<Seq<char>>>,
) -> bool {
    &&& texts.len() == g.height()
    &&& forall|i: int| 0 <= i < texts.len() ==> (#[trigger] texts[i]).len() == g.width
    &&& forall|i: int, j: int| g.has(i, j) ==> shown_as(show, g.at(i, j), #[trigger] texts[i][j])
}

impl<T: Copy> Matrix<T> {
    /// The matrix as text: one line per row, and in a line what `show` writes
    /// for each entry, from left to right, each followed by a space.
    pub fn render<F: Fn(T) -> String>(&self, show: F) -> (r: String)
        requires
            forall|i: int, j: int| self@.has(i, j) ==> call_requires(show, (#[trigger] self@.at(i, j),)),
        ensures
            exists|texts: Seq<Seq<Seq<char>>>| #[trigger]
                written(show, self@, texts) && r@ == page(texts, texts.len()),
    {
        let size = self.size();
        let mut r = String::new();
        let ghost mut texts: Seq<Seq<Seq<char>>> = Seq::empty();
        let mut i: usize = 0;
        while i < size.0
            invariant
                i <= size.0,
                self@.wf(),
                self@.has_shape(size.0 as nat, size.1 as nat),
                forall|i: int, j: int|
                    self@.has(i, j) ==> call_requires(show, (#[trigger] self@.at(i, j),)),
                texts.len() == i,
                forall|p: int| 0 <= p < i ==> (#[trigger] texts[p]).len() == size.1,
                forall|p: int, q: int|
                    0 <= p < i && 0 <= q < size.1 ==> shown_as(
                        show,
                        self@.at(p, q),
                        #[trigger] texts[p][q],
                    ),
                r@ == page(texts, i as nat),
            decreases size.0 - i,
        {
            let ghost mut cells: Seq<Seq<char>> = Seq::empty();
            let ghost start = r@;
            let mut j: usize = 0;
            while j < size.1
                invariant
                    i < size.0,
                    j <= size.1,
                    self@.wf(),
                    self@.has_shape(size.0 as nat, size.1 as nat),
                    forall|i: int, j: int|
                    self@.has(i, j) ==> call_requires(show, (#[trigger] self@.at(i, j),)),
                    cells.len() == j,
                    forall|q: int|
                        0 <= q < j ==> shown_as(show, self@.at(i as int, q), #[trigger] cells[q]),
                    r@ == start + line(cells, j as nat),
                decreases size.1 - j,
            {
                let x = self.get(i, j).unwrap();
                let s = show(x);
                append(&mut r, s.as_str());
                append(&mut r, " ");
                proof {
                    let before = cells;
                    cells = cells.push(s@);
                    let k = (j + 1) as nat;
                    assert(line(cells, (k - 1) as nat) == line(before, j as nat)) by {
                        lemma_line_prefix(before, cells, j as nat);
                    }
                }
                j += 1;
            }
            append(&mut r, "\n");
            proof {
                let before = texts;
                texts = texts.push(cells);
                let k = (i + 1) as nat;
                assert(page(texts, (k - 1) as nat) == page(before, i as nat)) by {
                    lemma_page_prefix(before, texts, i as nat);
                }
            }
            i += 1;
        }
        proof {
            assert(written(show, self@, texts));
        }
        r
    }
}

/// A line depends only on the cells it lays out.
proof fn lemma_line_prefix(a: Seq<Seq<char>>, b: Seq<Seq<char>>, k: nat)
    requires
        k <= a.len(),
        k <= b.len(),
        forall|q: int| 0 <= q < k ==> a[q] == b[q],
    ensures
        line(a, k) == line(b, k),
    decreases k,
{
    if k > 0 {
        lemma_line_prefix(a, b, (k - 1) as nat);
    }
}

/// A page depends only on the rows it lays out.
proof fn lemma_page_prefix(a: Seq<Seq<Seq<char>>>, b: Seq<Seq<Seq<char>>>, k: nat)
    requires
        k <= a.len(),
        k <= b.len(),
        forall|q: int| 0 <= q < k ==> a[q] == b[q],
    ensures
        page(a, k) == page(b, k),
    decreases k,
{
    if k > 0 {
        lemma_page_prefix(a, b, (k - 1) as nat);
    }
}

} // verus!
