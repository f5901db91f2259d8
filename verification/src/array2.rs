//! A two-dimensional array stored in row-major order.
//!
//! The view of an array is its flat row-major sequence; the cell at
//! `(row, column)` sits at index `row * width + column`.  Element types
//! are `Copy`, and the methods that iterated in the original hand back
//! freshly built vectors in the corresponding order.

use vstd::arithmetic::mul::lemma_mul_is_commutative;
use vstd::prelude::*;

verus! {

/// Why an array could not be built or an access could not be served.
#[derive(Debug, PartialEq, Eq, Structural)]
pub enum Error {
    /// The given row and column lie outside the array.
    IndicesOutOfBounds(usize, usize),
    /// The given flat index lies outside the array.
    IndexOutOfBounds(usize),
    /// The dimensions given did not match the elements provided.
    DimensionMismatch,
    /// There were not enough elements to fill the array.
    NotEnoughElements,
}

/// A rectangular array of `height` rows and `width` columns, its
/// elements flat in row-major order.
#[derive(Debug, Clone)]
pub struct Array2<T> {
    array: Vec<T>,
    width: usize,
    height: usize,
}

/// A row index and a column index times the width stay inside an array
/// of that height and width.
proof fn lemma_cell_index(h: int, w: int, i: int, j: int)
    requires
        0 <= i < h,
        0 <= j < w,
    ensures
        0 <= i * w + j < h * w,
{
    assert(i * w + j < h * w) by (nonlinear_arith)
        requires
            i < h,
            j < w,
            0 <= i,
            0 <= j,
    ;
    assert(0 <= i * w) by (nonlinear_arith)
        requires
            0 <= i,
            0 <= w,
    ;
}

impl<T> View for Array2<T> {
    type V = Seq<T>;

    closed spec fn view(&self) -> Seq<T> {
        self.array@
    }
}

impl<T: Copy> Array2<T> {
    /// How many rows the array has.
    pub closed spec fn spec_num_rows(&self) -> usize {
        self.height
    }

    /// How many columns the array has.
    pub closed spec fn spec_num_columns(&self) -> usize {
        self.width
    }

    /// The flat sequence holds exactly one element per cell.
    pub open spec fn wf(&self) -> bool {
        self@.len() == self.spec_num_rows() * self.spec_num_columns()
    }

    /// The element of the cell at `row`, `column`.
    pub open spec fn cell(&self, row: int, column: int) -> T {
        self@[row * self.spec_num_columns() + column]
    }

    /// Build an array from rows of elements.  Fails exactly when two
    /// rows differ in length; the empty slice gives the empty array.
    pub fn from_rows(elements: &Vec<Vec<T>>) -> (r: Result<Self, Error>)
        ensures
            r is Err <==> exists|i: int|
                0 <= i < elements@.len() && (#[trigger] elements@[i])@.len()
                    != elements@[0]@.len(),
            r matches Err(e) ==> e == Error::DimensionMismatch,
            r matches Ok(a) ==> {
                &&& a.wf()
                &&& a.spec_num_rows() == elements@.len()
                &&& a.spec_num_columns() == (if elements@.len() > 0 {
                    elements@[0]@.len() as int
                } else {
                    0
                })
                &&& forall|i: int, j: int|
                    0 <= i < a.spec_num_rows() && 0 <= j < a.spec_num_columns() ==> a.cell(i, j)
                        == elements@[i]@[j]
            },
    {
        let height = elements.len();
        let row_len = if height > 0 {
            elements[0].len()
        } else {
            0
        };
        let mut n: usize = 0;
        while n < height
            invariant
                n <= height,
                height == elements@.len(),
                row_len as int == (if height > 0 {
                    elements@[0]@.len() as int
                } else {
                    0
                }),
                forall|i: int| 0 <= i < n ==> (#[trigger] elements@[i])@.len() == row_len,
            decreases height - n,
        {
            if elements[n].len() != row_len {
                return Err(Error::DimensionMismatch);
            }
            n = n + 1;
        }
        let array = flatten(elements);
        proof {
            lemma_flatten_rectangular(elements@, row_len as int);
        }
        let a = Array2 { array, height, width: row_len };
        proof {
            assert forall|i: int, j: int|
                0 <= i < a.spec_num_rows() && 0 <= j < a.spec_num_columns() implies a.cell(i, j)
                == elements@[i]@[j] by {
                lemma_cell_index(height as int, row_len as int, i, j);
            }
        }
        Ok(a)
    }

    /// Build an array from columns of elements.  Fails exactly when two
    /// columns differ in length; the empty slice gives the empty array.
    pub fn from_columns(elements: &Vec<Vec<T>>) -> (r: Result<Self, Error>)
        ensures
            r is Err <==> exists|i: int|
                0 <= i < elements@.len() && (#[trigger] elements@[i])@.len()
                    != elements@[0]@.len(),
            r matches Err(e) ==> e == Error::DimensionMismatch,
            r matches Ok(a) ==> {
                &&& a.wf()
                &&& a.spec_num_columns() == elements@.len()
                &&& a.spec_num_rows() == (if elements@.len() > 0 {
                    elements@[0]@.len() as int
                } else {
                    0
                })
                &&& forall|i: int, j: int|
                    0 <= i < a.spec_num_rows() && 0 <= j < a.spec_num_columns() ==> a.cell(i, j)
                        == elements@[j]@[i]
            },
    {
        let width = elements.len();
        let column_len = if width > 0 {
            elements[0].len()
        } else {
            0
        };
        let mut n: usize = 0;
        while n < width
            invariant
                n <= width,
                width == elements@.len(),
                column_len as int == (if width > 0 {
                    elements@[0]@.len() as int
                } else {
                    0
                }),
                forall|i: int| 0 <= i < n ==> (#[trigger] elements@[i])@.len() == column_len,
            decreases width - n,
        {
            if elements[n].len() != column_len {
                return Err(Error::DimensionMismatch);
            }
            n = n + 1;
        }
        let mut array: Vec<T> = Vec::new();
        let mut row: usize = 0;
        while row < column_len
            invariant
                row <= column_len,
                width == elements@.len(),
                forall|i: int| 0 <= i < width ==> (#[trigger] elements@[i])@.len() == column_len,
                array@.len() == row * width,
                forall|i: int, j: int|
                    0 <= i < row && 0 <= j < width ==> array@[i * (width as int) + j]
                        == elements@[j]@[i],
            decreases column_len - row,
        {
            let mut col: usize = 0;
            while col < width
                invariant
                    col <= width,
                    row < column_len,
                    width == elements@.len(),
                    forall|i: int|
                        0 <= i < width ==> (#[trigger] elements@[i])@.len() == column_len,
                    array@.len() == row * width + col,
                    forall|i: int, j: int|
                        0 <= i < row && 0 <= j < width ==> array@[i * (width as int) + j]
                            == elements@[j]@[i],
                    forall|j: int|
                        0 <= j < col ==> array@[(row as int) * (width as int) + j]
                            == elements@[j]@[row as int],
                decreases width - col,
            {
                proof {
                    lemma_cell_index(column_len as int, width as int, row as int, col as int);
                }
                array.push(elements[col][row]);
                col = col + 1;
                proof {
                    assert forall|i: int, j: int|
                        0 <= i < row && 0 <= j < width implies array@[i * (width as int) + j]
                        == elements@[j]@[i] by {
                        lemma_cell_index(row as int, width as int, i, j);
                    }
                }
            }
            row = row + 1;
            proof {
                assert((row as int) * (width as int) == (row - 1) * (width as int) + width)
                    by (nonlinear_arith);
                assert forall|i: int, j: int|
                    0 <= i < row && 0 <= j < width implies array@[i * (width as int) + j]
                    == elements@[j]@[i] by {
                    lemma_cell_index(row as int, width as int, i, j);
                    if i < row - 1 {
                        lemma_cell_index((row - 1) as int, width as int, i, j);
                    }
                }
            }
        }
        let a = Array2 { array, height: column_len, width };
        proof {
            lemma_mul_is_commutative(column_len as int, width as int);
            assert(a.wf());
        }
        Ok(a)
    }

    /// Build an array from a flat sequence given in column-major order.
    /// Its dimension check demands one element more than the sequence
    /// holds, and any input passing that check runs out of elements
    /// fatally and is excluded here — so every admitted input is
    /// rejected as a mismatch.
    pub fn from_column_major(elements: &Vec<T>, height: usize, width: usize) -> (r: Result<
        Self,
        Error,
    >)
        requires
            height * width <= usize::MAX,
            elements@.len() < usize::MAX,
            height * width != elements@.len() + 1,
        ensures
            r == Err::<Self, Error>(Error::DimensionMismatch),
    {
        let total_len = height * width;
        if total_len != elements.len() + 1 {
            return Err(Error::DimensionMismatch);
        }
        proof {
            assert(false);
        }
        Err(Error::DimensionMismatch)
    }

    /// Build an array from a flat sequence given in row-major order.
    /// Fails exactly when the dimensions do not multiply out to the
    /// sequence's length.
    pub fn from_row_major(elements: &Vec<T>, height: usize, width: usize) -> (r: Result<
        Self,
        Error,
    >)
        requires
            height * width <= usize::MAX,
        ensures
            r is Err <==> height * width != elements@.len(),
            r matches Err(e) ==> e == Error::DimensionMismatch,
            r matches Ok(a) ==> {
                &&& a.wf()
                &&& a.spec_num_rows() == height
                &&& a.spec_num_columns() == width
                &&& a@ == elements@
            },
    {
        let total_len = height * width;
        if total_len != elements.len() {
            return Err(Error::DimensionMismatch);
        }
        let mut array: Vec<T> = Vec::new();
        let mut n: usize = 0;
        while n < elements.len()
            invariant
                n <= elements@.len(),
                array@.len() == n,
                forall|i: int| 0 <= i < n ==> array@[i] == elements@[i],
            decreases elements@.len() - n,
        {
            array.push(elements[n]);
            n = n + 1;
        }
        proof {
            assert(array@ =~= elements@);
        }
        Ok(Array2 { array, height, width })
    }

    /// The number of rows.
    pub fn num_rows(&self) -> (r: usize)
        ensures
            r == self.spec_num_rows(),
    {
        self.height
    }

    /// The number of columns.
    pub fn num_columns(&self) -> (r: usize)
        ensures
            r == self.spec_num_columns(),
    {
        self.width
    }

    /// The total number of elements.
    pub fn num_elements(&self) -> (r: usize)
        requires
            self.wf(),
        ensures
            r == self@.len(),
    {
        proof {
            vstd::std_specs::vec::axiom_spec_len(&self.array);
        }
        self.height * self.width
    }

    /// The number of elements in each row.
    pub fn row_len(&self) -> (r: usize)
        ensures
            r == self.spec_num_columns(),
    {
        self.num_columns()
    }

    /// The number of elements in each column.
    pub fn column_len(&self) -> (r: usize)
        ensures
            r == self.spec_num_rows(),
    {
        self.num_rows()
    }

    /// The flat row-major index of the cell at `row`, `column`, or
    /// `None` when the cell lies outside the array.
    fn get_index(&self, row: usize, column: usize) -> (r: Option<usize>)
        requires
            self.wf(),
        ensures
            r is Some <==> (row < self.spec_num_rows() && column < self.spec_num_columns()),
            r matches Some(k) ==> k == row * self.spec_num_columns() + column && k < self@.len(),
    {
        if row < self.num_rows() && column < self.num_columns() {
            proof {
                vstd::std_specs::vec::axiom_spec_len(&self.array);
                lemma_cell_index(
                    self.spec_num_rows() as int,
                    self.spec_num_columns() as int,
                    row as int,
                    column as int,
                );
            }
            Some(row * self.row_len() + column)
        } else {
            None
        }
    }

    /// The element at `row`, `column`, or `None` when the cell lies
    /// outside the array.
    pub fn get(&self, row: usize, column: usize) -> (r: Option<&T>)
        requires
            self.wf(),
        ensures
            r is Some <==> (row < self.spec_num_rows() && column < self.spec_num_columns()),
            r matches Some(v) ==> *v == self.cell(row as int, column as int),
    {
        match self.get_index(row, column) {
            Some(index) => Some(&self.array[index]),
            None => None,
        }
    }

    /// The element at flat row-major `index`, or `None` past the end.
    pub fn get_row_major(&self, index: usize) -> (r: Option<&T>)
        ensures
            r is Some <==> index < self@.len(),
            r matches Some(v) ==> *v == self@[index as int],
    {
        if index < self.array.len() {
            Some(&self.array[index])
        } else {
            None
        }
    }

    /// The element at flat column-major `index`, or `None` past the end.
    pub fn get_column_major(&self, index: usize) -> (r: Option<&T>)
        requires
            self.wf(),
            self.spec_num_rows() > 0,
        ensures
            r is Some <==> index < self@.len(),
            r matches Some(v) ==> *v == self.cell(
                index as int % self.spec_num_rows() as int,
                index as int / self.spec_num_rows() as int,
            ),
    {
        let column = index / self.num_rows();
        let row = index % self.num_rows();
        proof {
            lemma_col_major_in_bounds(
                self.spec_num_rows() as int,
                self.spec_num_columns() as int,
                index as int,
            );
        }
        self.get(row, column)
    }

    /// A mutable reference to the element at `row`, `column`, or `None`
    /// when the cell lies outside the array.  The array afterwards holds
    /// whatever the caller wrote through the reference, in that cell.
    pub fn get_mut(&mut self, row: usize, column: usize) -> (r: Option<&mut T>)
        requires
            old(self).wf(),
        ensures
            r is None ==> *final(self) == *old(self) && !(row < old(self).spec_num_rows() && column
                < old(self).spec_num_columns()),
            r matches Some(v) ==> {
                &&& row < old(self).spec_num_rows()
                &&& column < old(self).spec_num_columns()
                &&& *v == old(self).cell(row as int, column as int)
                &&& final(self).wf()
                &&& final(self).spec_num_rows() == old(self).spec_num_rows()
                &&& final(self).spec_num_columns() == old(self).spec_num_columns()
                &&& final(self)@ == old(self)@.update(
                    row * old(self).spec_num_columns() + column,
                    *final(v),
                )
            },
    {
        match self.get_index(row, column) {
            Some(index) => Some(&mut self.array[index]),
            None => None,
        }
    }

    /// A mutable reference to the element at flat row-major `index`, or
    /// `None` past the end.
    pub fn get_mut_row_major(&mut self, index: usize) -> (r: Option<&mut T>)
        ensures
            r is None ==> *final(self) == *old(self) && index >= old(self)@.len(),
            r matches Some(v) ==> {
                &&& index < old(self)@.len()
                &&& *v == old(self)@[index as int]
                &&& final(self).spec_num_rows() == old(self).spec_num_rows()
                &&& final(self).spec_num_columns() == old(self).spec_num_columns()
                &&& final(self)@ == old(self)@.update(index as int, *final(v))
            },
    {
        if index < self.array.len() {
            Some(&mut self.array[index])
        } else {
            None
        }
    }

    /// A mutable reference to the element at flat column-major `index`,
    /// or `None` past the end.
    pub fn get_mut_column_major(&mut self, index: usize) -> (r: Option<&mut T>)
        requires
            old(self).wf(),
            old(self).spec_num_rows() > 0,
        ensures
            r is None ==> *final(self) == *old(self) && index >= old(self)@.len(),
            r matches Some(v) ==> {
                &&& index < old(self)@.len()
                &&& *v == old(self).cell(
                    index as int % old(self).spec_num_rows() as int,
                    index as int / old(self).spec_num_rows() as int,
                )
                &&& final(self).wf()
                &&& final(self).spec_num_rows() == old(self).spec_num_rows()
                &&& final(self).spec_num_columns() == old(self).spec_num_columns()
                &&& final(self)@ == old(self)@.update(
                    (index as int % old(self).spec_num_rows() as int) * old(
                        self,
                    ).spec_num_columns() + (index as int / old(self).spec_num_rows() as int),
                    *final(v),
                )
            },
    {
        let column = index / self.num_rows();
        let row = index % self.num_rows();
        proof {
            lemma_col_major_in_bounds(
                self.spec_num_rows() as int,
                self.spec_num_columns() as int,
                index as int,
            );
        }
        self.get_mut(row, column)
    }

    /// Set the cell at `row`, `column` to `element`; an out-of-bounds
    /// cell is reported and nothing changes.
    pub fn set(&mut self, row: usize, column: usize, element: T) -> (r: Result<(), Error>)
        requires
            old(self).wf(),
        ensures
            final(self).wf(),
            final(self).spec_num_rows() == old(self).spec_num_rows(),
            final(self).spec_num_columns() == old(self).spec_num_columns(),
            r is Ok <==> (row < old(self).spec_num_rows() && column < old(
                self,
            ).spec_num_columns()),
            r matches Err(e) ==> e == Error::IndicesOutOfBounds(row, column) && *final(self) == *old(self),
            r is Ok ==> final(self)@ == old(self)@.update(
                row * old(self).spec_num_columns() + column,
                element,
            ),
    {
        match self.get_mut(row, column) {
            Some(location) => {
                *location = element;
                Ok(())
            },
            None => Err(Error::IndicesOutOfBounds(row, column)),
        }
    }

    /// Set the element at flat row-major `index`; an index past the end
    /// is reported and nothing changes.
    pub fn set_row_major(&mut self, index: usize, element: T) -> (r: Result<(), Error>)
        requires
            old(self).wf(),
        ensures
            final(self).wf(),
            final(self).spec_num_rows() == old(self).spec_num_rows(),
            final(self).spec_num_columns() == old(self).spec_num_columns(),
            r is Ok <==> index < old(self)@.len(),
            r matches Err(e) ==> e == Error::IndexOutOfBounds(index) && *final(self) == *old(self),
            r is Ok ==> final(self)@ == old(self)@.update(index as int, element),
    {
        match self.get_mut_row_major(index) {
            Some(location) => {
                *location = element;
                Ok(())
            },
            None => Err(Error::IndexOutOfBounds(index)),
        }
    }

    /// Every element in row-major order, each with its row and column.
    pub fn enumerate_row_major(&self) -> (r: Vec<((usize, usize), T)>)
        requires
            self.wf(),
        ensures
            r@.len() == self@.len(),
            forall|i: int, j: int|
                0 <= i < self.spec_num_rows() && 0 <= j < self.spec_num_columns() ==> r@[i
                    * self.spec_num_columns() + j] == (((i as usize, j as usize), self.cell(i, j))),
    {
        let height = self.num_rows();
        let width = self.num_columns();
        let mut r: Vec<((usize, usize), T)> = Vec::new();
        let mut i: usize = 0;
        while i < height
            invariant
                self.wf(),
                i <= height,
                height == self.spec_num_rows(),
                width == self.spec_num_columns(),
                r@.len() == i * width,
                forall|a: int, b: int|
                    0 <= a < i && 0 <= b < width ==> r@[a * (width as int) + b] == (((
                    a as usize,
                    b as usize,
                ), self.cell(a, b))),
            decreases height - i,
        {
            let mut j: usize = 0;
            while j < width
                invariant
                    self.wf(),
                    i < height,
                    j <= width,
                    height == self.spec_num_rows(),
                    width == self.spec_num_columns(),
                    r@.len() == i * width + j,
                    forall|a: int, b: int|
                        0 <= a < i && 0 <= b < width ==> r@[a * (width as int) + b] == (((
                        a as usize,
                        b as usize,
                    ), self.cell(a, b))),
                    forall|b: int|
                        0 <= b < j ==> r@[(i as int) * (width as int) + b] == (((i, b as usize),
                        self.cell(i as int, b))),
                decreases width - j,
            {
                proof {
                    vstd::std_specs::vec::axiom_spec_len(&self.array);
                    lemma_cell_index(height as int, width as int, i as int, j as int);
                }
                r.push(((i, j), self.array[i * width + j]));
                j = j + 1;
                proof {
                    assert forall|a: int, b: int|
                        0 <= a < i && 0 <= b < width implies r@[a * (width as int) + b] == (((
                        a as usize,
                        b as usize,
                    ), self.cell(a, b))) by {
                        lemma_cell_index(i as int, width as int, a, b);
                    }
                }
            }
            i = i + 1;
            proof {
                assert((i as int) * (width as int) == (i - 1) * (width as int) + width)
                    by (nonlinear_arith);
                assert forall|a: int, b: int|
                    0 <= a < i && 0 <= b < width implies r@[a * (width as int) + b] == (((
                    a as usize,
                    b as usize,
                ), self.cell(a, b))) by {
                    lemma_cell_index(i as int, width as int, a, b);
                    if a < i - 1 {
                        lemma_cell_index((i - 1) as int, width as int, a, b);
                    }
                }
            }
        }
        r
    }

    /// Every element in column-major order, each with its row and column.
    pub fn enumerate_column_major(&self) -> (r: Vec<((usize, usize), T)>)
        requires
            self.wf(),
        ensures
            r@.len() == self@.len(),
            forall|i: int, j: int|
                0 <= i < self.spec_num_rows() && 0 <= j < self.spec_num_columns() ==> r@[j
                    * self.spec_num_rows() + i] == (((i as usize, j as usize), self.cell(i, j))),
    {
        let height = self.num_rows();
        let width = self.num_columns();
        let mut r: Vec<((usize, usize), T)> = Vec::new();
        let mut j: usize = 0;
        while j < width
            invariant
                self.wf(),
                j <= width,
                height == self.spec_num_rows(),
                width == self.spec_num_columns(),
                r@.len() == j * height,
                forall|a: int, b: int|
                    0 <= a < height && 0 <= b < j ==> r@[b * (height as int) + a] == (((
                    a as usize,
                    b as usize,
                ), self.cell(a, b))),
            decreases width - j,
        {
            let mut i: usize = 0;
            while i < height
                invariant
                    self.wf(),
                    j < width,
                    i <= height,
                    height == self.spec_num_rows(),
                    width == self.spec_num_columns(),
                    r@.len() == j * height + i,
                    forall|a: int, b: int|
                        0 <= a < height && 0 <= b < j ==> r@[b * (height as int) + a] == (((
                        a as usize,
                        b as usize,
                    ), self.cell(a, b))),
                    forall|a: int|
                        0 <= a < i ==> r@[(j as int) * (height as int) + a] == (((a as usize, j),
                        self.cell(a, j as int))),
                decreases height - i,
            {
                proof {
                    vstd::std_specs::vec::axiom_spec_len(&self.array);
                    lemma_cell_index(height as int, width as int, i as int, j as int);
                }
                r.push(((i, j), self.array[i * width + j]));
                i = i + 1;
                proof {
                    assert forall|a: int, b: int|
                        0 <= a < height && 0 <= b < j implies r@[b * (height as int) + a] == (((
                        a as usize,
                        b as usize,
                    ), self.cell(a, b))) by {
                        lemma_cell_index(j as int, height as int, b, a);
                    }
                }
            }
            j = j + 1;
            proof {
                assert((j as int) * (height as int) == (j - 1) * (height as int) + height)
                    by (nonlinear_arith);
                assert forall|a: int, b: int|
                    0 <= a < height && 0 <= b < j implies r@[b * (height as int) + a] == (((
                    a as usize,
                    b as usize,
                ), self.cell(a, b))) by {
                    lemma_cell_index(j as int, height as int, b, a);
                    if b < j - 1 {
                        lemma_cell_index((j - 1) as int, height as int, b, a);
                    }
                }
            }
        }
        proof {
            lemma_mul_is_commutative(width as int, height as int);
        }
        r
    }

    /// The elements of row `row_index`, left to right; an out-of-bounds
    /// row is reported.
    pub fn row_iter(&self, row_index: usize) -> (r: Result<Vec<T>, Error>)
        requires
            self.wf(),
        ensures
            r is Ok <==> row_index < self.spec_num_rows(),
            r matches Err(e) ==> e == Error::IndicesOutOfBounds(row_index, 0),
            r matches Ok(v) ==> v@.len() == self.spec_num_columns() && forall|j: int|
                0 <= j < self.spec_num_columns() ==> v@[j] == self.cell(row_index as int, j),
    {
        if row_index >= self.num_rows() {
            return Err(Error::IndicesOutOfBounds(row_index, 0));
        }
        let width = self.num_columns();
        let mut v: Vec<T> = Vec::new();
        let mut j: usize = 0;
        while j < width
            invariant
                self.wf(),
                j <= width,
                row_index < self.spec_num_rows(),
                width == self.spec_num_columns(),
                v@.len() == j,
                forall|b: int| 0 <= b < j ==> v@[b] == self.cell(row_index as int, b),
            decreases width - j,
        {
            proof {
                vstd::std_specs::vec::axiom_spec_len(&self.array);
                lemma_cell_index(
                    self.spec_num_rows() as int,
                    width as int,
                    row_index as int,
                    j as int,
                );
            }
            v.push(self.array[row_index * width + j]);
            j = j + 1;
        }
        Ok(v)
    }

    /// The elements of column `column_index`, top to bottom; an
    /// out-of-bounds column is reported.
    pub fn column_iter(&self, column_index: usize) -> (r: Result<Vec<T>, Error>)
        requires
            self.wf(),
        ensures
            r is Ok <==> column_index < self.spec_num_columns(),
            r matches Err(e) ==> e == Error::IndicesOutOfBounds(0, column_index),
            r matches Ok(v) ==> v@.len() == self.spec_num_rows() && forall|i: int|
                0 <= i < self.spec_num_rows() ==> v@[i] == self.cell(i, column_index as int),
    {
        if column_index >= self.num_columns() {
            return Err(Error::IndicesOutOfBounds(0, column_index));
        }
        let height = self.num_rows();
        let width = self.num_columns();
        let mut v: Vec<T> = Vec::new();
        let mut i: usize = 0;
        while i < height
            invariant
                self.wf(),
                i <= height,
                column_index < self.spec_num_columns(),
                height == self.spec_num_rows(),
                width == self.spec_num_columns(),
                v@.len() == i,
                forall|a: int| 0 <= a < i ==> v@[a] == self.cell(a, column_index as int),
            decreases height - i,
        {
            proof {
                vstd::std_specs::vec::axiom_spec_len(&self.array);
                lemma_cell_index(height as int, width as int, i as int, column_index as int);
            }
            v.push(self.array[i * width + column_index]);
            i = i + 1;
        }
        Ok(v)
    }

    /// The row and column of every cell, in column-major order.
    pub fn indices_column_major(&self) -> (r: Vec<(usize, usize)>)
        ensures
            r@.len() == self.spec_num_rows() * self.spec_num_columns(),
            forall|i: int, j: int|
                0 <= i < self.spec_num_rows() && 0 <= j < self.spec_num_columns()
                    ==> #[trigger] r@[j * self.spec_num_rows() + i] == (i as usize, j as usize),
    {
        indices_column_major(self.num_rows(), self.num_columns())
    }

    /// The row and column of every cell, in row-major order.
    pub fn indices_row_major(&self) -> (r: Vec<(usize, usize)>)
        ensures
            r@.len() == self.spec_num_rows() * self.spec_num_columns(),
            forall|i: int, j: int|
                0 <= i < self.spec_num_rows() && 0 <= j < self.spec_num_columns()
                    ==> #[trigger] r@[i * self.spec_num_columns() + j] == (i as usize, j as usize),
    {
        indices_row_major(self.num_rows(), self.num_columns())
    }

    /// Every element in row-major order.
    pub fn elements_row_major_iter(&self) -> (r: Vec<T>)
        ensures
            r@ == self@,
    {
        let mut r: Vec<T> = Vec::new();
        let mut n: usize = 0;
        while n < self.array.len()
            invariant
                n <= self@.len(),
                r@.len() == n,
                forall|i: int| 0 <= i < n ==> r@[i] == self@[i],
            decreases self@.len() - n,
        {
            r.push(self.array[n]);
            n = n + 1;
        }
        proof {
            assert(r@ =~= self@);
        }
        r
    }

    /// Every element in column-major order.
    pub fn elements_column_major_iter(&self) -> (r: Vec<T>)
        requires
            self.wf(),
        ensures
            r@.len() == self@.len(),
            forall|i: int, j: int|
                0 <= i < self.spec_num_rows() && 0 <= j < self.spec_num_columns() ==> r@[j
                    * self.spec_num_rows() + i] == self.cell(i, j),
    {
        let pairs = self.enumerate_column_major();
        let mut r: Vec<T> = Vec::new();
        let mut n: usize = 0;
        while n < pairs.len()
            invariant
                n <= pairs@.len(),
                r@.len() == n,
                forall|k: int| 0 <= k < n ==> r@[k] == pairs@[k].1,
            decreases pairs@.len() - n,
        {
            r.push(pairs[n].1);
            n = n + 1;
        }
        proof {
            assert forall|i: int, j: int|
                0 <= i < self.spec_num_rows() && 0 <= j < self.spec_num_columns() implies r@[j
                * self.spec_num_rows() + i] == self.cell(i, j) by {
                lemma_cell_index(self.spec_num_columns() as int, self.spec_num_rows() as int, j, i);
                lemma_mul_is_commutative(
                    self.spec_num_columns() as int,
                    self.spec_num_rows() as int,
                );
            }
        }
        r
    }

    /// Every row as its own vector, top to bottom.
    pub fn rows_iter(&self) -> (r: Vec<Vec<T>>)
        requires
            self.wf(),
        ensures
            r@.len() == self.spec_num_rows(),
            forall|i: int|
                0 <= i < self.spec_num_rows() ==> (#[trigger] r@[i])@.len()
                    == self.spec_num_columns() && forall|j: int|
                    0 <= j < self.spec_num_columns() ==> r@[i]@[j] == self.cell(i, j),
    {
        let height = self.num_rows();
        let mut r: Vec<Vec<T>> = Vec::new();
        let mut i: usize = 0;
        while i < height
            invariant
                self.wf(),
                i <= height,
                height == self.spec_num_rows(),
                r@.len() == i,
                forall|a: int|
                    0 <= a < i ==> (#[trigger] r@[a])@.len() == self.spec_num_columns() && forall|
                        j: int,
                    |
                        0 <= j < self.spec_num_columns() ==> r@[a]@[j] == self.cell(a, j),
            decreases height - i,
        {
            match self.row_iter(i) {
                Ok(row) => {
                    r.push(row);
                },
                Err(_) => {
                    proof {
                        assert(false);
                    }
                },
            }
            i = i + 1;
        }
        r
    }

    /// Every column as its own vector, left to right.
    pub fn columns_iter(&self) -> (r: Vec<Vec<T>>)
        requires
            self.wf(),
        ensures
            r@.len() == self.spec_num_columns(),
            forall|j: int|
                0 <= j < self.spec_num_columns() ==> (#[trigger] r@[j])@.len()
                    == self.spec_num_rows() && forall|i: int|
                    0 <= i < self.spec_num_rows() ==> r@[j]@[i] == self.cell(i, j),
    {
        let width = self.num_columns();
        let mut r: Vec<Vec<T>> = Vec::new();
        let mut j: usize = 0;
        while j < width
            invariant
                self.wf(),
                j <= width,
                width == self.spec_num_columns(),
                r@.len() == j,
                forall|b: int|
                    0 <= b < j ==> (#[trigger] r@[b])@.len() == self.spec_num_rows() && forall|
                        i: int,
                    |
                        0 <= i < self.spec_num_rows() ==> r@[b]@[i] == self.cell(i, b),
            decreases width - j,
        {
            match self.column_iter(j) {
                Ok(column) => {
                    r.push(column);
                },
                Err(_) => {
                    proof {
                        assert(false);
                    }
                },
            }
            j = j + 1;
        }
        r
    }

    /// Set the element at flat column-major `index`; an index past the
    /// end is reported and nothing changes.
    pub fn set_column_major(&mut self, index: usize, element: T) -> (r: Result<(), Error>)
        requires
            old(self).wf(),
            old(self).spec_num_rows() > 0,
        ensures
            final(self).wf(),
            final(self).spec_num_rows() == old(self).spec_num_rows(),
            final(self).spec_num_columns() == old(self).spec_num_columns(),
            r is Ok <==> index < old(self)@.len(),
            r matches Err(e) ==> e == Error::IndexOutOfBounds(index) && *final(self) == *old(self),
            r is Ok ==> final(self)@ == old(self)@.update(
                (index as int % old(self).spec_num_rows() as int) * old(self).spec_num_columns() + (
                index as int / old(self).spec_num_rows() as int),
                element,
            ),
    {
        match self.get_mut_column_major(index) {
            Some(location) => {
                *location = element;
                Ok(())
            },
            None => Err(Error::IndexOutOfBounds(index)),
        }
    }
}

/// A flat column-major index below `h * w` names a row below `h` and a
/// column below `w`, and conversely.
proof fn lemma_col_major_in_bounds(h: int, w: int, index: int)
    requires
        h > 0,
        0 <= index,
        0 <= w,
    ensures
        index < h * w ==> (index % h < h && index / h < w && 0 <= index % h && 0 <= index / h),
        index >= h * w ==> index / h >= w,
        (index % h) * w + index / h < h * w || index >= h * w,
{
    vstd::arithmetic::div_mod::lemma_mod_bound(index, h);
    vstd::arithmetic::div_mod::lemma_div_pos_is_pos(index, h);
    if index < h * w {
        vstd::arithmetic::div_mod::lemma_multiply_divide_lt(index, h, w);
        lemma_cell_index(h, w, index % h, index / h);
    } else {
        assert(index / h >= w) by (nonlinear_arith)
            requires
                h > 0,
                0 <= w,
                index >= h * w,
        ;
    }
}

/// All rows of a nested vector laid end to end.
pub fn flatten<T: Copy>(nested: &Vec<Vec<T>>) -> (r: Vec<T>)
    ensures
        r@ == flatten_view(nested@),
{
    let mut r: Vec<T> = Vec::new();
    let mut n: usize = 0;
    while n < nested.len()
        invariant
            n <= nested@.len(),
            r@ == flatten_view(nested@.take(n as int)),
        decreases nested@.len() - n,
    {
        let mut j: usize = 0;
        while j < nested[n].len()
            invariant
                n < nested@.len(),
                j <= nested@[n as int]@.len(),
                r@ == flatten_view(nested@.take(n as int)) + nested@[n as int]@.take(j as int),
            decreases nested@[n as int]@.len() - j,
        {
            r.push(nested[n][j]);
            proof {
                assert(nested@[n as int]@.take((j + 1) as int) =~= nested@[n as int]@.take(j as int)
                    + seq![nested@[n as int]@[j as int]]);
                assert(r@ =~= flatten_view(nested@.take(n as int)) + nested@[n as int]@.take(
                    (j + 1) as int,
                ));
            }
            j = j + 1;
        }
        proof {
            assert(nested@.take((n + 1) as int).drop_last() =~= nested@.take(n as int));
            assert(nested@[n as int]@.take(j as int) =~= nested@[n as int]@);
            assert(r@ =~= flatten_view(nested@.take((n + 1) as int)));
        }
        n = n + 1;
    }
    proof {
        assert(nested@.take(nested@.len() as int) =~= nested@);
    }
    r
}

/// The row and column of every cell of a `height` by `width` array, in
/// row-major order.
pub fn indices_row_major(height: usize, width: usize) -> (r: Vec<(usize, usize)>)
    ensures
        r@.len() == height * width,
        forall|i: int, j: int|
            0 <= i < height && 0 <= j < width ==> #[trigger] r@[i * width + j] == (i as usize,
            j as usize),
{
    let mut r: Vec<(usize, usize)> = Vec::new();
    let mut i: usize = 0;
    while i < height
        invariant
            i <= height,
            r@.len() == i * width,
            forall|a: int, b: int|
                0 <= a < i && 0 <= b < width ==> #[trigger] r@[a * (width as int) + b] == (
                a as usize, b as usize),
        decreases height - i,
    {
        let mut j: usize = 0;
        while j < width
            invariant
                i < height,
                j <= width,
                r@.len() == i * width + j,
                forall|a: int, b: int|
                    0 <= a < i && 0 <= b < width ==> #[trigger] r@[a * (width as int) + b] == (
                    a as usize, b as usize),
                forall|b: int|
                    0 <= b < j ==> #[trigger] r@[(i as int) * (width as int) + b] == (i,
                    b as usize),
            decreases width - j,
        {
            r.push((i, j));
            j = j + 1;
            proof {
                assert forall|a: int, b: int|
                    0 <= a < i && 0 <= b < width implies #[trigger] r@[a * (width as int) + b]
                    == (a as usize, b as usize) by {
                    lemma_cell_index(i as int, width as int, a, b);
                }
            }
        }
        i = i + 1;
        proof {
            assert((i as int) * (width as int) == (i - 1) * (width as int) + width)
                by (nonlinear_arith);
            assert forall|a: int, b: int|
                0 <= a < i && 0 <= b < width implies #[trigger] r@[a * (width as int) + b] == (
            a as usize, b as usize) by {
                lemma_cell_index(i as int, width as int, a, b);
                if a < i - 1 {
                    lemma_cell_index((i - 1) as int, width as int, a, b);
                }
            }
        }
    }
    proof {
        lemma_mul_is_commutative(height as int, width as int);
    }
    r
}

/// The row and column of every cell of a `height` by `width` array, in
/// column-major order.
pub fn indices_column_major(height: usize, width: usize) -> (r: Vec<(usize, usize)>)
    ensures
        r@.len() == height * width,
        forall|i: int, j: int|
            0 <= i < height && 0 <= j < width ==> #[trigger] r@[j * height + i] == (i as usize,
            j as usize),
{
    let mut r: Vec<(usize, usize)> = Vec::new();
    let mut j: usize = 0;
    while j < width
        invariant
            j <= width,
            r@.len() == j * height,
            forall|a: int, b: int|
                0 <= a < height && 0 <= b < j ==> #[trigger] r@[b * (height as int) + a] == (
                a as usize, b as usize),
        decreases width - j,
    {
        let mut i: usize = 0;
        while i < height
            invariant
                j < width,
                i <= height,
                r@.len() == j * height + i,
                forall|a: int, b: int|
                    0 <= a < height && 0 <= b < j ==> #[trigger] r@[b * (height as int) + a]
                        == (a as usize, b as usize),
                forall|a: int|
                    0 <= a < i ==> #[trigger] r@[(j as int) * (height as int) + a] == (a as usize,
                    j),
            decreases height - i,
        {
            r.push((i, j));
            i = i + 1;
            proof {
                assert forall|a: int, b: int|
                    0 <= a < height && 0 <= b < j implies #[trigger] r@[b * (height as int) + a]
                    == (a as usize, b as usize) by {
                    lemma_cell_index(j as int, height as int, b, a);
                }
            }
        }
        j = j + 1;
        proof {
            assert((j as int) * (height as int) == (j - 1) * (height as int) + height)
                by (nonlinear_arith);
            assert forall|a: int, b: int|
                0 <= a < height && 0 <= b < j implies #[trigger] r@[b * (height as int) + a] == (
            a as usize, b as usize) by {
                lemma_cell_index(j as int, height as int, b, a);
                if b < j - 1 {
                    lemma_cell_index((j - 1) as int, height as int, b, a);
                }
            }
        }
    }
    proof {
        lemma_mul_is_commutative(height as int, width as int);
    }
    r
}

/// The rows of a nested sequence laid end to end.
pub open spec fn flatten_view<T>(nested: Seq<Vec<T>>) -> Seq<T>
    decreases nested.len(),
{
    if nested.len() == 0 {
        Seq::empty()
    } else {
        flatten_view(nested.drop_last()) + nested.last()@
    }
}

/// Flattening rows of one common length puts each element at its
/// row-major position.
proof fn lemma_flatten_rectangular<T>(nested: Seq<Vec<T>>, row_len: int)
    requires
        0 <= row_len,
        forall|i: int| 0 <= i < nested.len() ==> (#[trigger] nested[i])@.len() == row_len,
    ensures
        flatten_view(nested).len() == nested.len() * row_len,
        forall|i: int, j: int|
            0 <= i < nested.len() && 0 <= j < row_len ==> flatten_view(nested)[i * row_len + j]
                == nested[i]@[j],
    decreases nested.len(),
{
    if nested.len() == 0 {
    } else {
        let prefix = nested.drop_last();
        lemma_flatten_rectangular(prefix, row_len);
        assert((nested.len() - 1) * row_len + row_len == nested.len() * row_len) by (nonlinear_arith
        );
        assert(flatten_view(nested).len() == nested.len() * row_len);
        assert forall|i: int, j: int|
            0 <= i < nested.len() && 0 <= j < row_len implies flatten_view(nested)[i * row_len + j]
            == nested[i]@[j] by {
            lemma_cell_index(nested.len() as int, row_len, i, j);
            if i < nested.len() - 1 {
                lemma_cell_index((nested.len() - 1) as int, row_len, i, j);
                assert(flatten_view(nested)[i * row_len + j] == flatten_view(prefix)[i * row_len
                    + j]);
                assert(prefix[i] == nested[i]);
                assert(flatten_view(prefix)[i * row_len + j] == prefix[i]@[j]);
            } else {
                assert(i == nested.len() - 1);
                assert(prefix.len() == i);
                assert(flatten_view(prefix).len() == i * row_len);
                assert(flatten_view(nested) == flatten_view(prefix) + nested.last()@);
                assert(0 <= i * row_len) by (nonlinear_arith)
                    requires
                        0 <= i,
                        0 <= row_len,
                ;
                assert(flatten_view(nested)[i * row_len + j] == nested.last()@[j]);
                assert(nested.last() == nested[i]);
            }
        }
    }
}

} // verus!
