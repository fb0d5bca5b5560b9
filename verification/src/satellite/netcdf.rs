//! The integer side of reading GOES ABI NetCDF variables: dataset shapes,
//! rectangular windows of a row-major 2D variable, and text attributes.
use vstd::prelude::*;
use vstd::arithmetic::mul::*;

verus! {

/// Dimension sizes, each converted from `u64` to `usize` when it fits.
pub open spec fn spec_shape_dims(shape: Seq<u64>) -> Option<Seq<usize>> {
    if forall|i: int| 0 <= i < shape.len() ==> shape[i] <= usize::MAX {
        Some(shape.map_values(|d: u64| d as usize))
    } else {
        None
    }
}

/// The dimensions of a dataset as `usize`, or `None` where one does not fit.
pub fn shape_dims(shape: &Vec<u64>) -> (res: Option<Vec<usize>>)
    ensures
        res matches Some(dims) ==> spec_shape_dims(shape@) == Some(dims@),
        res is None ==> spec_shape_dims(shape@) is None,
{
    let mut dims: Vec<usize> = Vec::new();
    let mut i: usize = 0;
    while i < shape.len()
        invariant
            i <= shape.len(),
            forall|j: int| 0 <= j < i ==> shape@[j] <= usize::MAX,
            dims@ == shape@.subrange(0, i as int).map_values(|d: u64| d as usize),
        decreases shape.len() - i,
    {
        let d = shape[i];
        if d > usize::MAX as u64 {
            return None;
        }
        dims.push(d as usize);
        i = i + 1;
        assert(dims@ =~= shape@.subrange(0, i as int).map_values(|d: u64| d as usize));
    }
    assert(shape@.subrange(0, shape.len() as int) =~= shape@);
    Some(dims)
}

/// Why a window cannot be cut from a variable.
#[derive(Debug, Clone, Copy, PartialEq, Eq, Structural)]
pub enum WindowError {
    /// The variable is not two-dimensional.
    NotTwoDimensional,
    /// The window reaches past the variable's rows or columns.
    OutOfBounds,
}

/// `a + b`, or `usize::MAX` where that overflows.
pub open spec fn saturating_sum(a: usize, b: usize) -> usize {
    if a + b > usize::MAX {
        usize::MAX
    } else {
        (a + b) as usize
    }
}

fn saturating_add(a: usize, b: usize) -> (s: usize)
    ensures
        s == saturating_sum(a, b),
{
    if a > usize::MAX - b {
        usize::MAX
    } else {
        a + b
    }
}

/// The outcome of checking a window of `y_count` rows from `y_start` and `x_count`
/// columns from `x_start` against a variable of shape `shape`: its `(rows, columns)`.
pub open spec fn spec_check_window(
    shape: Seq<usize>,
    y_start: usize,
    y_count: usize,
    x_start: usize,
    x_count: usize,
) -> Result<(usize, usize), WindowError> {
    if shape.len() != 2 {
        Err(WindowError::NotTwoDimensional)
    } else if saturating_sum(y_start, y_count) > shape[0] || saturating_sum(x_start, x_count) > shape[1] {
        Err(WindowError::OutOfBounds)
    } else {
        Ok((shape[0], shape[1]))
    }
}

/// Checks that the variable is 2D and that the window lies inside it.
pub fn check_window(
    shape: &Vec<usize>,
    y_start: usize,
    y_count: usize,
    x_start: usize,
    x_count: usize,
) -> (res: Result<(usize, usize), WindowError>)
    ensures
        res == spec_check_window(shape@, y_start, y_count, x_start, x_count),
{
    if shape.len() != 2 {
        return Err(WindowError::NotTwoDimensional);
    }
    let ny = shape[0];
    let nx = shape[1];
    if saturating_add(y_start, y_count) > ny || saturating_add(x_start, x_count) > nx {
        return Err(WindowError::OutOfBounds);
    }
    Ok((ny, nx))
}

/// The first `rows` rows of the window: for each row `y` from `y_start`, the
/// `x_count` values from column `x_start`, rows laid out `nx` values apart.
pub open spec fn window_rows<T>(
    full: Seq<T>,
    nx: int,
    y_start: int,
    x_start: int,
    x_count: int,
    rows: nat,
) -> Seq<T>
    decreases rows,
{
    if rows == 0 {
        Seq::empty()
    } else {
        let row_start = (y_start + rows - 1) * nx + x_start;
        window_rows(full, nx, y_start, x_start, x_count, (rows - 1) as nat) + full.subrange(
            row_start,
            row_start + x_count,
        )
    }
}

/// Whether every row of the window lies inside a buffer of `len` values.
pub open spec fn window_fits(len: int, nx: int, y_start: int, y_count: int, x_start: int, x_count: int) -> bool {
    y_count == 0 || (y_start + y_count - 1) * nx + x_start + x_count <= len
}

proof fn lemma_window_rows_len<T>(
    full: Seq<T>,
    nx: int,
    y_start: int,
    x_start: int,
    x_count: int,
    rows: nat,
)
    requires
        x_count >= 0,
        nx >= 0,
        y_start >= 0,
        x_start >= 0,
        rows == 0 || (y_start + rows - 1) * nx + x_start + x_count <= full.len(),
    ensures
        window_rows(full, nx, y_start, x_start, x_count, rows).len() == rows * x_count,
    decreases rows,
{
    if rows > 0 {
        if rows > 1 {
            lemma_mul_inequality(y_start + rows - 2, y_start + rows - 1, nx);
            lemma_window_rows_len(full, nx, y_start, x_start, x_count, (rows - 1) as nat);
        }
        assert(rows * x_count == (rows - 1) * x_count + x_count) by (nonlinear_arith);
        assert(0 <= (y_start + rows - 1) * nx) by (nonlinear_arith)
            requires
                y_start + rows - 1 >= 0,
                nx >= 0,
        ;
        let row_start = (y_start + rows - 1) * nx + x_start;
        let prev = window_rows(full, nx, y_start, x_start, x_count, (rows - 1) as nat);
        if rows == 1 {
            assert(prev.len() == 0);
            assert((rows - 1) * x_count == 0) by (nonlinear_arith)
                requires
                    rows == 1,
            ;
        }
        assert(prev.len() == (rows - 1) * x_count);
        assert(full.subrange(row_start, row_start + x_count).len() == x_count);
        assert(window_rows(full, nx, y_start, x_start, x_count, rows) == prev + full.subrange(row_start, row_start + x_count));
    }
}

/// A window holds `rows * x_count` values, and its entry at row `r`, column `c`
/// is the variable's value at row `y_start + r`, column `x_start + c`.
pub proof fn lemma_window_entry<T>(
    full: Seq<T>,
    nx: int,
    y_start: int,
    x_start: int,
    x_count: int,
    rows: nat,
    r: int,
    c: int,
)
    requires
        nx >= 0,
        y_start >= 0,
        x_start >= 0,
        0 <= r < rows,
        0 <= c < x_count,
        (y_start + rows - 1) * nx + x_start + x_count <= full.len(),
    ensures
        window_rows(full, nx, y_start, x_start, x_count, rows).len() == rows * x_count,
        window_rows(full, nx, y_start, x_start, x_count, rows)[r * x_count + c] == full[(y_start
            + r) * nx + x_start + c],
    decreases rows,
{
    lemma_window_rows_len(full, nx, y_start, x_start, x_count, rows);
    let prev = window_rows(full, nx, y_start, x_start, x_count, (rows - 1) as nat);
    let row_start = (y_start + rows - 1) * nx + x_start;
    assert(0 <= (y_start + rows - 1) * nx) by (nonlinear_arith)
        requires
            y_start + rows - 1 >= 0,
            nx >= 0,
    ;
    if rows > 1 {
        lemma_mul_inequality(y_start + rows - 2, y_start + rows - 1, nx);
        lemma_window_rows_len(full, nx, y_start, x_start, x_count, (rows - 1) as nat);
    } else {
        assert(prev.len() == 0);
    }
    assert(prev.len() == (rows - 1) * x_count) by {
        if rows == 1 {
            assert((rows - 1) * x_count == 0) by (nonlinear_arith)
                requires
                    rows == 1,
            ;
        }
    }
    if r == rows - 1 {
        assert(r * x_count + c - prev.len() == c) by (nonlinear_arith)
            requires
                r == rows - 1,
                prev.len() == (rows - 1) * x_count,
        ;
    } else {
        lemma_mul_inequality(r + 1, rows - 1, x_count);
        assert((r + 1) * x_count == r * x_count + x_count) by (nonlinear_arith);
        assert(r * x_count + c < (rows - 1) * x_count);
        lemma_window_entry(full, nx, y_start, x_start, x_count, (rows - 1) as nat, r, c);
    }
}

/// The values of the window, row by row, from a row-major buffer whose rows are
/// `nx` values long. Slicing past the buffer panics, so `requires` keeps every
/// row of the window inside `full`.
pub fn extract_window<T: Copy>(
    full: &Vec<T>,
    nx: usize,
    y_start: usize,
    y_count: usize,
    x_start: usize,
    x_count: usize,
) -> (values: Vec<T>)
    requires
        y_start + y_count <= usize::MAX,
        window_fits(full.len() as int, nx as int, y_start as int, y_count as int, x_start as int, x_count as int),
    ensures
        values@ == window_rows(full@, nx as int, y_start as int, x_start as int, x_count as int, y_count as nat),
        values.len() == y_count * x_count,
{
    let mut values: Vec<T> = Vec::new();
    let mut y: usize = y_start;
    while y < y_start + y_count
        invariant
            y_start <= y <= y_start + y_count,
            y_start + y_count <= usize::MAX,
            window_fits(full.len() as int, nx as int, y_start as int, y_count as int, x_start as int, x_count as int),
            values@ == window_rows(full@, nx as int, y_start as int, x_start as int, x_count as int, (y - y_start) as nat),
        decreases y_start + y_count - y,
    {
        proof {
            lemma_mul_inequality(y as int, (y_start + y_count - 1) as int, nx as int);
            assert(0 <= y * nx) by (nonlinear_arith)
                requires
                    y >= 0,
                    nx >= 0,
            ;
        }
        let row_start = y * nx + x_start;
        let ghost before = values@;
        let mut x: usize = 0;
        while x < x_count
            invariant
                x <= x_count,
                row_start + x_count <= full.len(),
                values@ == before + full@.subrange(row_start as int, row_start + x),
            decreases x_count - x,
        {
            values.push(full[row_start + x]);
            x = x + 1;
            assert(values@ =~= before + full@.subrange(row_start as int, row_start + x));
        }
        y = y + 1;
        assert(values@ =~= window_rows(full@, nx as int, y_start as int, x_start as int, x_count as int, (y - y_start) as nat));
    }
    proof {
        lemma_window_rows_len(full@, nx as int, y_start as int, x_start as int, x_count as int, y_count as nat);
    }
    values
}

/// The text-bearing forms of a NetCDF attribute value; numeric forms are `Other`.
#[derive(Debug, PartialEq, Eq)]
pub enum AttrText {
    Text(String),
    TextList(Vec<String>),
    Other,
}

/// The string an attribute holds: its text, or the first entry of a text list.
pub open spec fn spec_attr_string(value: AttrText) -> Option<Seq<char>> {
    match value {
        AttrText::Text(s) => Some(s@),
        AttrText::TextList(list) => if list.len() > 0 {
            Some(list@[0]@)
        } else {
            None
        },
        AttrText::Other => None,
    }
}

/// The string held by an attribute, if there is one and it holds text.
pub fn attr_string(value: Option<&AttrText>) -> (res: Option<String>)
    ensures
        match value {
            Some(v) => match spec_attr_string(*v) {
                Some(s) => res matches Some(r) && r@ == s,
                None => res is None,
            },
            None => res is None,
        },
{
    match value {
        Some(AttrText::Text(s)) => Some(s.clone()),
        Some(AttrText::TextList(list)) => {
            if list.len() > 0 {
                Some(list[0].clone())
            } else {
                None
            }
        },
        _ => None,
    }
}

} // verus!
