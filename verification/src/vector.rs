//! Small fixed-size integer vectors and the index arithmetic of cubic grids.

use vstd::prelude::*;

verus! {

/// Two components.
#[derive(Copy, Debug, PartialEq, Eq)]
pub struct Vector2<S> {
    pub x: S,
    pub y: S,
}

/// Three components.
#[derive(Copy, Debug, PartialEq, Eq)]
pub struct Vector3<S> {
    pub x: S,
    pub y: S,
    pub z: S,
}

/// Four components.
#[derive(Copy, Debug, PartialEq, Eq)]
pub struct Vector4<S> {
    pub x: S,
    pub y: S,
    pub z: S,
    pub w: S,
}

impl<S: Copy> Clone for Vector2<S> {
    fn clone(&self) -> (r: Self)
        ensures
            r == *self,
    {
        *self
    }
}

impl<S: Copy> Clone for Vector3<S> {
    fn clone(&self) -> (r: Self)
        ensures
            r == *self,
    {
        *self
    }
}

impl<S: Copy> Clone for Vector4<S> {
    fn clone(&self) -> (r: Self)
        ensures
            r == *self,
    {
        *self
    }
}

impl<S> Vector2<S> {
    /// The vector of the given components.
    pub fn new(x: S, y: S) -> (r: Self)
        ensures
            r == (Vector2 { x, y }),
    {
        Vector2 { x, y }
    }
}

impl<S> Vector3<S> {
    /// The vector of the given components.
    pub fn new(x: S, y: S, z: S) -> (r: Self)
        ensures
            r == (Vector3 { x, y, z }),
    {
        Vector3 { x, y, z }
    }
}

impl<S> Vector4<S> {
    /// The vector of the given components.
    pub fn new(x: S, y: S, z: S, w: S) -> (r: Self)
        ensures
            r == (Vector4 { x, y, z, w }),
    {
        Vector4 { x, y, z, w }
    }

    /// The first three components.
    pub fn truncate(self) -> (r: Vector3<S>)
        ensures
            r == (Vector3 { x: self.x, y: self.y, z: self.z }),
    {
        Vector3 { x: self.x, y: self.y, z: self.z }
    }
}

/// The quotient of `a` by a positive `d`, rounded toward zero, as the
/// machine's `/` gives it.
pub open spec fn quot_toward_zero(a: int, d: int) -> int {
    if a >= 0 {
        a / d
    } else {
        -((-a) / d)
    }
}

/// The `i64` nearest to `v`.
pub open spec fn clamped(v: int) -> i64 {
    if v > i64::MAX {
        i64::MAX
    } else if v < i64::MIN {
        i64::MIN
    } else {
        v as i64
    }
}

/// The sum of `a` and `b`, held at the ends of the `i64` range.
pub fn saturating_sum(a: i64, b: i64) -> (r: i64)
    ensures
        r == clamped(a + b),
{
    if b >= 0 {
        if a > i64::MAX - b {
            i64::MAX
        } else {
            a + b
        }
    } else {
        if a < i64::MIN - b {
            i64::MIN
        } else {
            a + b
        }
    }
}

impl Vector4<i64> {
    /// Each component's remainder by `m`, with the component's sign.
    pub open spec fn rem_spec(self, m: i64) -> Self {
        Vector4 {
            x: rem_toward_zero(self.x as int, m as int) as i64,
            y: rem_toward_zero(self.y as int, m as int) as i64,
            z: rem_toward_zero(self.z as int, m as int) as i64,
            w: rem_toward_zero(self.w as int, m as int) as i64,
        }
    }

    /// Each component's quotient by `d`, rounded toward zero.
    pub open spec fn quot_spec(self, d: i64) -> Self {
        Vector4 {
            x: quot_toward_zero(self.x as int, d as int) as i64,
            y: quot_toward_zero(self.y as int, d as int) as i64,
            z: quot_toward_zero(self.z as int, d as int) as i64,
            w: quot_toward_zero(self.w as int, d as int) as i64,
        }
    }

    /// The sum of two vectors, each component held at the ends of the `i64`
    /// range.
    pub open spec fn saturating_add_spec(self, other: Self) -> Self {
        Vector4 {
            x: clamped(self.x + other.x),
            y: clamped(self.y + other.y),
            z: clamped(self.z + other.z),
            w: clamped(self.w + other.w),
        }
    }

    /// Whether `self + other` can be computed axis by axis.
    pub open spec fn sum_fits(self, other: Self) -> bool {
        &&& i64::MIN <= self.x + other.x <= i64::MAX
        &&& i64::MIN <= self.y + other.y <= i64::MAX
        &&& i64::MIN <= self.z + other.z <= i64::MAX
        &&& i64::MIN <= self.w + other.w <= i64::MAX
    }

    /// Whether `self - other` can be computed axis by axis.
    pub open spec fn difference_fits(self, other: Self) -> bool {
        &&& i64::MIN <= self.x - other.x <= i64::MAX
        &&& i64::MIN <= self.y - other.y <= i64::MAX
        &&& i64::MIN <= self.z - other.z <= i64::MAX
        &&& i64::MIN <= self.w - other.w <= i64::MAX
    }

    /// The sum of two vectors, axis by axis.
    pub open spec fn plus_spec(self, other: Self) -> Self {
        Vector4 {
            x: (self.x + other.x) as i64,
            y: (self.y + other.y) as i64,
            z: (self.z + other.z) as i64,
            w: (self.w + other.w) as i64,
        }
    }

    /// The difference of two vectors, axis by axis.
    pub open spec fn minus_spec(self, other: Self) -> Self {
        Vector4 {
            x: (self.x - other.x) as i64,
            y: (self.y - other.y) as i64,
            z: (self.z - other.z) as i64,
            w: (self.w - other.w) as i64,
        }
    }

    /// The vector with `value` on every axis.
    pub open spec fn splat_spec(value: i64) -> Self {
        Vector4 { x: value, y: value, z: value, w: value }
    }

    /// The vector with `value` on every axis.
    pub fn splat(value: i64) -> (r: Self)
        ensures
            r == Self::splat_spec(value),
    {
        Vector4 { x: value, y: value, z: value, w: value }
    }

    /// Each component's remainder by `m`, with the component's sign.
    pub fn rem(self, m: i64) -> (r: Self)
        requires
            0 < m,
        ensures
            r == self.rem_spec(m),
    {
        Vector4 { x: self.x % m, y: self.y % m, z: self.z % m, w: self.w % m }
    }

    /// Each component's quotient by `d`, rounded toward zero.
    pub fn quot(self, d: i64) -> (r: Self)
        requires
            0 < d,
        ensures
            r == self.quot_spec(d),
    {
        Vector4 { x: self.x / d, y: self.y / d, z: self.z / d, w: self.w / d }
    }

    /// The sum of two vectors, each component held at the ends of the `i64`
    /// range.
    pub fn saturating_add(self, other: Self) -> (r: Self)
        ensures
            r == self.saturating_add_spec(other),
    {
        Vector4 {
            x: saturating_sum(self.x, other.x),
            y: saturating_sum(self.y, other.y),
            z: saturating_sum(self.z, other.z),
            w: saturating_sum(self.w, other.w),
        }
    }

    /// The sum of two vectors, axis by axis.
    pub fn plus(self, other: Self) -> (r: Self)
        requires
            self.sum_fits(other),
        ensures
            r == self.plus_spec(other),
    {
        Vector4 {
            x: self.x + other.x,
            y: self.y + other.y,
            z: self.z + other.z,
            w: self.w + other.w,
        }
    }

    /// The difference of two vectors, axis by axis.
    pub fn minus(self, other: Self) -> (r: Self)
        requires
            self.difference_fits(other),
        ensures
            r == self.minus_spec(other),
    {
        Vector4 {
            x: self.x - other.x,
            y: self.y - other.y,
            z: self.z - other.z,
            w: self.w - other.w,
        }
    }
}

/// The remainder of `a` by a positive `m` with the sign of `a`, as the
/// machine's `%` gives it.
pub open spec fn rem_toward_zero(a: int, m: int) -> int {
    if a >= 0 {
        a % m
    } else {
        -((-a) % m)
    }
}

/// The place of the cell `(x, y, z)` in a cubic grid of edge `side_len`, each
/// coordinate reduced by `side_len`: `x` runs fastest, then `z`, then `y`.
pub open spec fn grid_index(x: int, y: int, z: int, side_len: int) -> int {
    rem_toward_zero(x, side_len) + rem_toward_zero(y, side_len) * side_len * side_len
        + rem_toward_zero(z, side_len) * side_len
}

/// The cell `(x, y, z)` at place `index` of a cubic grid of edge `side_len`.
pub open spec fn grid_cell(index: int, side_len: int) -> (int, int, int) {
    (
        (index % (side_len * side_len)) % side_len,
        index / (side_len * side_len),
        (index % (side_len * side_len)) / side_len,
    )
}

/// Whether a grid of edge `side_len` can be indexed by a `usize` and its
/// index computed in an `i64`.
pub open spec fn grid_fits(side_len: int) -> bool {
    &&& 0 < side_len
    &&& side_len * side_len * side_len <= i64::MAX
    &&& side_len * side_len * side_len <= usize::MAX
}

/// Cells of a cubic grid and their places in its linear order.
pub trait Mask: Sized {
    spec fn index_fits(&self, side_len: i64) -> bool;

    spec fn index_spec(&self, side_len: i64) -> int;

    spec fn cell_fits(index: usize, side_len: i64) -> bool;

    spec fn cell_spec(index: usize, side_len: i64) -> Self;

    spec fn dir_fits(&self, dir: Self) -> bool;

    spec fn dir_spec(&self, dir: Self) -> Self;

    /// The place of this cell in a grid of edge `side_len`.
    fn to_index(&self, side_len: i64) -> (r: usize)
        requires
            self.index_fits(side_len),
        ensures
            r == self.index_spec(side_len),
    ;

    /// The cell at place `index` in a grid of edge `side_len`.
    fn from_index(index: usize, side_len: i64) -> (r: Self)
        requires
            Self::cell_fits(index, side_len),
        ensures
            r == Self::cell_spec(index, side_len),
    ;

    /// The distance from `dir`, axis by axis.
    fn add_dir(&self, dir: Self) -> (r: Self)
        requires
            self.dir_fits(dir),
        ensures
            r == self.dir_spec(dir),
    ;
}

proof fn lemma_rem_toward_zero_bounds(a: int, m: int)
    by (nonlinear_arith)
    requires
        0 < m,
    ensures
        -m < rem_toward_zero(a, m) < m,
        a >= 0 ==> 0 <= rem_toward_zero(a, m),
        a <= 0 ==> rem_toward_zero(a, m) <= 0,
{
}

proof fn lemma_index_terms(rx: int, ry: int, rz: int, l: int)
    by (nonlinear_arith)
    requires
        0 < l,
        -l < rx < l,
        -l < ry < l,
        -l < rz < l,
    ensures
        -(l * l * l) < ry * l < l * l * l,
        -(l * l * l) < ry * l * l < l * l * l,
        -(l * l * l) < rz * l < l * l * l,
        -(l * l * l) < rx + ry * l * l < l * l * l,
        -(l * l * l) < rx + ry * l * l + rz * l < l * l * l,
{
    assert(-(l - 1) <= ry <= l - 1);
    assert(-(l - 1) * l <= ry * l <= (l - 1) * l);
    assert(-(l - 1) * l * l <= ry * l * l <= (l - 1) * l * l);
    assert(-(l - 1) * l <= rz * l <= (l - 1) * l);
    assert(l * l * l == (l - 1) * l * l + (l - 1) * l + l);
    assert(l <= l * l);
    assert(l * l <= l * l * l);
}

fn abs_diff(a: i64, b: i64) -> (r: i64)
    requires
        i64::MIN < a - b <= i64::MAX,
    ensures
        r == if a >= b { a - b } else { b - a },
{
    if a >= b {
        a - b
    } else {
        b - a
    }
}

impl Mask for Vector3<i64> {
    open spec fn index_fits(&self, side_len: i64) -> bool {
        grid_fits(side_len as int)
    }

    /// A sum below zero, which only coordinates below zero give, counts as
    /// place 0.
    open spec fn index_spec(&self, side_len: i64) -> int {
        let sum = grid_index(self.x as int, self.y as int, self.z as int, side_len as int);
        if sum < 0 {
            0
        } else {
            sum
        }
    }

    open spec fn cell_fits(index: usize, side_len: i64) -> bool {
        &&& 0 < side_len
        &&& side_len * side_len <= i64::MAX
        &&& index <= i64::MAX
    }

    open spec fn cell_spec(index: usize, side_len: i64) -> Self {
        let cell = grid_cell(index as int, side_len as int);
        Vector3 { x: cell.0 as i64, y: cell.1 as i64, z: cell.2 as i64 }
    }

    open spec fn dir_fits(&self, dir: Self) -> bool {
        &&& i64::MIN < self.x - dir.x <= i64::MAX
        &&& i64::MIN < self.y - dir.y <= i64::MAX
        &&& i64::MIN < self.z - dir.z <= i64::MAX
    }

    open spec fn dir_spec(&self, dir: Self) -> Self {
        Vector3 {
            x: (if self.x >= dir.x { self.x - dir.x } else { dir.x - self.x }) as i64,
            y: (if self.y >= dir.y { self.y - dir.y } else { dir.y - self.y }) as i64,
            z: (if self.z >= dir.z { self.z - dir.z } else { dir.z - self.z }) as i64,
        }
    }

    fn to_index(&self, side_len: i64) -> (r: usize) {
        let rx: i64 = self.x % side_len;
        let ry: i64 = self.y % side_len;
        let rz: i64 = self.z % side_len;
        proof {
            lemma_rem_toward_zero_bounds(self.x as int, side_len as int);
            lemma_rem_toward_zero_bounds(self.y as int, side_len as int);
            lemma_rem_toward_zero_bounds(self.z as int, side_len as int);
            lemma_index_terms(rx as int, ry as int, rz as int, side_len as int);
        }
        let sum: i64 = rx + ry * side_len * side_len + rz * side_len;
        if sum < 0 {
            0
        } else {
            sum as usize
        }
    }

    fn from_index(index: usize, side_len: i64) -> (r: Self) {
        let i: i64 = index as i64;
        let square: i64 = side_len * side_len;
        assert(0 < square) by (nonlinear_arith)
            requires
                square == side_len * side_len,
                0 < side_len,
        ;
        Vector3 { x: (i % square) % side_len, y: i / square, z: (i % square) / side_len }
    }

    fn add_dir(&self, dir: Self) -> (r: Self) {
        Vector3 {
            x: abs_diff(self.x, dir.x),
            y: abs_diff(self.y, dir.y),
            z: abs_diff(self.z, dir.z),
        }
    }
}

/// A cell of the grid of edge 2: each coordinate is 0 or 1.
pub open spec fn is_octant(x: int, y: int, z: int) -> bool {
    &&& 0 <= x <= 1
    &&& 0 <= y <= 1
    &&& 0 <= z <= 1
}

/// Going from a place of the grid to its cell and back gives the place
/// again: the cell lies inside the grid, and its place is `index`.
pub proof fn lemma_index_of_cell(index: int, side_len: int)
    requires
        0 < side_len,
        0 <= index < side_len * side_len * side_len,
    ensures
        ({
            let cell = grid_cell(index, side_len);
            &&& 0 <= cell.0 < side_len
            &&& 0 <= cell.1 < side_len
            &&& 0 <= cell.2 < side_len
            &&& grid_index(cell.0, cell.1, cell.2, side_len) == index
        }),
{
    let square = side_len * side_len;
    let layer = index % square;
    assert(0 < square && index < side_len * square) by (nonlinear_arith)
        requires
            0 < side_len,
            square == side_len * side_len,
            index < side_len * side_len * side_len,
    ;
    assert(0 <= index / square < side_len && 0 <= layer < square && index == square * (index
        / square) + layer) by (nonlinear_arith)
        requires
            0 < square,
            0 <= index < side_len * square,
            layer == index % square,
    ;
    assert(0 <= layer / side_len < side_len && 0 <= layer % side_len < side_len && layer
        == side_len * (layer / side_len) + layer % side_len) by (nonlinear_arith)
        requires
            0 < side_len,
            0 <= layer < square,
            square == side_len * side_len,
    ;
    let cell = grid_cell(index, side_len);
    assert(cell.0 % side_len == cell.0 && cell.1 % side_len == cell.1 && cell.2 % side_len
        == cell.2) by (nonlinear_arith)
        requires
            0 < side_len,
            0 <= cell.0 < side_len,
            0 <= cell.1 < side_len,
            0 <= cell.2 < side_len,
    ;
    assert(cell.0 + cell.1 * side_len * side_len + cell.2 * side_len == index)
        by (nonlinear_arith)
        requires
            square == side_len * side_len,
            index == square * cell.1 + layer,
            layer == side_len * cell.2 + cell.0,
    ;
}

/// The same law over the vectors of this library: `to_index` undoes
/// `from_index` on every place of a grid that fits the machine's integers.
pub proof fn lemma_to_index_of_from_index(index: usize, side_len: i64)
    requires
        grid_fits(side_len as int),
        index < side_len * side_len * side_len,
    ensures
        Vector3::<i64>::cell_fits(index, side_len),
        Vector3::<i64>::cell_spec(index, side_len).index_fits(side_len),
        Vector3::<i64>::cell_spec(index, side_len).index_spec(side_len) == index,
{
    lemma_index_of_cell(index as int, side_len as int);
    assert(side_len * side_len <= side_len * side_len * side_len) by (nonlinear_arith)
        requires
            0 < side_len,
    ;
}

proof fn lemma_octant_index(x: int, y: int, z: int)
    requires
        is_octant(x, y, z),
    ensures
        grid_index(x, y, z, 2) == x + 4 * y + 2 * z,
{
    assert(rem_toward_zero(x, 2) == x);
    assert(rem_toward_zero(y, 2) == y);
    assert(rem_toward_zero(z, 2) == z);
}

/// On the grid of edge 2, the eight octants and the eight places `0..8`
/// correspond one to one: the place of an octant is `x + 4 y + 2 z`, two
/// octants with one place are one octant, and every place below 8 is the
/// place of the octant that `grid_cell` gives for it.
pub proof fn lemma_octant_places(a: Vector3<i64>, b: Vector3<i64>, place: int)
    requires
        is_octant(a.x as int, a.y as int, a.z as int),
        is_octant(b.x as int, b.y as int, b.z as int),
        0 <= place < 8,
    ensures
        a.index_spec(2) == a.x + 4 * a.y + 2 * a.z,
        0 <= a.index_spec(2) < 8,
        a.index_spec(2) == b.index_spec(2) ==> a == b,
        ({
            let cell = grid_cell(place, 2);
            &&& is_octant(cell.0, cell.1, cell.2)
            &&& grid_index(cell.0, cell.1, cell.2, 2) == place
        }),
{
    lemma_octant_index(a.x as int, a.y as int, a.z as int);
    lemma_octant_index(b.x as int, b.y as int, b.z as int);
    lemma_index_of_cell(place, 2);
}

/// A table of `side_len` rows.
pub type TwoDeeVec<Type> = Vec<Vec<Type>>;

/// A table of `side_len` layers.
pub type ThreeDeeVec<Type> = Vec<Vec<Vec<Type>>>;

/// A row of `side_len` clones of `content`.
fn vec_one_dee<Type: Clone>(side_len: usize, content: &Type) -> (r: Vec<Type>)
    ensures
        r@.len() == side_len,
        forall|i: int| 0 <= i < side_len ==> cloned(*content, #[trigger] r@[i]),
{
    let mut row: Vec<Type> = Vec::new();
    for done in 0..side_len
        invariant
            row@.len() == done,
            forall|i: int| 0 <= i < done ==> cloned(*content, #[trigger] row@[i]),
    {
        row.push(content.clone());
    }
    row
}

/// A square table of edge `side_len`, every cell a clone of `content`.
pub fn vec_two_dee<Type: Clone>(side_len: usize, content: Type) -> (r: TwoDeeVec<Type>)
    ensures
        r@.len() == side_len,
        forall|i: int| 0 <= i < side_len ==> (#[trigger] r@[i])@.len() == side_len,
        forall|i: int, j: int|
            0 <= i < side_len && 0 <= j < side_len ==> cloned(content, #[trigger] r@[i]@[j]),
{
    let mut table: Vec<Vec<Type>> = Vec::new();
    for done in 0..side_len
        invariant
            table@.len() == done,
            forall|i: int| 0 <= i < done ==> (#[trigger] table@[i])@.len() == side_len,
            forall|i: int, j: int|
                0 <= i < done && 0 <= j < side_len ==> cloned(content, #[trigger] table@[i]@[j]),
    {
        table.push(vec_one_dee(side_len, &content));
    }
    table
}

/// A cubic table of edge `side_len`, every cell a clone of `content`.
pub fn vec_three_dee<Type: Clone>(side_len: usize, content: Type) -> (r: ThreeDeeVec<Type>)
    ensures
        r@.len() == side_len,
        forall|i: int| 0 <= i < side_len ==> (#[trigger] r@[i])@.len() == side_len,
        forall|i: int, j: int|
            0 <= i < side_len && 0 <= j < side_len ==> (#[trigger] r@[i]@[j])@.len() == side_len,
        forall|i: int, j: int, k: int|
            0 <= i < side_len && 0 <= j < side_len && 0 <= k < side_len ==> cloned(
                content,
                #[trigger] r@[i]@[j]@[k],
            ),
{
    let mut table: Vec<Vec<Vec<Type>>> = Vec::new();
    for done in 0..side_len
        invariant
            table@.len() == done,
            forall|i: int| 0 <= i < done ==> (#[trigger] table@[i])@.len() == side_len,
            forall|i: int, j: int|
                0 <= i < done && 0 <= j < side_len ==> (#[trigger] table@[i]@[j])@.len()
                    == side_len,
            forall|i: int, j: int, k: int|
                0 <= i < done && 0 <= j < side_len && 0 <= k < side_len ==> cloned(
                    content,
                    #[trigger] table@[i]@[j]@[k],
                ),
    {
        let mut layer: Vec<Vec<Type>> = Vec::new();
        for rows in 0..side_len
            invariant
                layer@.len() == rows,
                forall|j: int| 0 <= j < rows ==> (#[trigger] layer@[j])@.len() == side_len,
                forall|j: int, k: int|
                    0 <= j < rows && 0 <= k < side_len ==> cloned(
                        content,
                        #[trigger] layer@[j]@[k],
                    ),
        {
            layer.push(vec_one_dee(side_len, &content));
        }
        table.push(layer);
    }
    table
}

/// `value` moved back into `min..=max`; where the two ends cross, `max`
/// wins above it and `min` below.
pub open spec fn bounded(value: i64, min: i64, max: i64) -> i64 {
    if value > max {
        max
    } else if value < min {
        min
    } else {
        value
    }
}

/// 1 where `edge` lies below `value`, else 0.
pub open spec fn stepped_over(value: i64, edge: i64) -> i64 {
    if edge < value {
        1
    } else {
        0
    }
}

/// The sign of `value`: -1, 0 or 1.
pub open spec fn sign_of(value: i64) -> i64 {
    if value > 0 {
        1i64
    } else if value < 0 {
        (-1i64) as i64
    } else {
        0i64
    }
}

fn boundary(value: i64, min: i64, max: i64) -> (r: i64)
    ensures
        r == bounded(value, min, max),
{
    let mut corrected = value;
    if value < min {
        corrected = min
    }
    if value > max {
        max
    } else {
        corrected
    }
}

fn step_over(value: i64, edge: i64) -> (r: i64)
    ensures
        r == stepped_over(value, edge),
{
    if edge < value {
        1
    } else {
        0
    }
}

fn signum(value: i64) -> (r: i64)
    ensures
        r == sign_of(value),
{
    if value > 0 {
        1
    } else if value < 0 {
        -1
    } else {
        0
    }
}

/// What the vectors of two, three and four components share, axis by axis.
pub trait Vector: Sized {
    /// The components, in order.
    spec fn components(&self) -> Seq<i64>;

    /// The vector of the given components.
    spec fn of_components(components: Seq<i64>) -> Self;

    /// Per axis, 1 where `edge` lies below this vector, else 0.
    fn step(&self, edge: Self) -> (r: Self)
        ensures
            r == Self::of_components(
                Seq::new(
                    self.components().len(),
                    |i: int| stepped_over(self.components()[i], edge.components()[i]),
                ),
            ),
    ;

    /// Per axis, the sign: -1, 0 or 1.
    fn sign(&self) -> (r: Self)
        ensures
            r == Self::of_components(
                Seq::new(self.components().len(), |i: int| sign_of(self.components()[i])),
            ),
    ;

    /// Per axis, the component moved back into `min..=max`.
    fn boundary(&self, min: Self, max: Self) -> (r: Self)
        ensures
            r == Self::of_components(
                Seq::new(
                    self.components().len(),
                    |i: int| bounded(self.components()[i], min.components()[i], max.components()[i]),
                ),
            ),
    ;

    /// The vector of zeros.
    fn default() -> (r: Self)
        ensures
            r == Self::of_components(Seq::new(r.components().len(), |i: int| 0i64)),
    ;

    /// Whether `condition` holds of some component. The components are
    /// asked in order, up to the first of which it holds.
    fn any<F: Fn(i64) -> bool>(&self, condition: F) -> (r: bool)
        requires
            forall|i: int|
                0 <= i < self.components().len() ==> call_requires(
                    condition,
                    (#[trigger] self.components()[i],),
                ),
        ensures
            r ==> exists|i: int|
                0 <= i < self.components().len() && call_ensures(
                    condition,
                    (#[trigger] self.components()[i],),
                    true,
                ),
            !r ==> forall|i: int|
                0 <= i < self.components().len() ==> call_ensures(
                    condition,
                    (#[trigger] self.components()[i],),
                    false,
                ),
    ;
}

impl Vector for Vector4<i64> {
    open spec fn components(&self) -> Seq<i64> {
        seq![self.x, self.y, self.z, self.w]
    }

    open spec fn of_components(components: Seq<i64>) -> Self {
        Vector4 { x: components[0], y: components[1], z: components[2], w: components[3] }
    }

    fn step(&self, edge: Self) -> (r: Self) {
        Vector4 {
            x: step_over(self.x, edge.x),
            y: step_over(self.y, edge.y),
            z: step_over(self.z, edge.z),
            w: step_over(self.w, edge.w),
        }
    }

    fn sign(&self) -> (r: Self) {
        Vector4 { x: signum(self.x), y: signum(self.y), z: signum(self.z), w: signum(self.w) }
    }

    fn boundary(&self, min: Self, max: Self) -> (r: Self) {
        Vector4 {
            x: boundary(self.x, min.x, max.x),
            y: boundary(self.y, min.y, max.y),
            z: boundary(self.z, min.z, max.z),
            w: boundary(self.w, min.w, max.w),
        }
    }

    fn default() -> (r: Self) {
        Vector4 { x: 0, y: 0, z: 0, w: 0 }
    }

    fn any<F: Fn(i64) -> bool>(&self, condition: F) -> (r: bool) {
        proof {
            let parts = self.components();
            assert(parts[0] == self.x && parts[1] == self.y && parts[2] == self.z && parts[3]
                == self.w);
        }
        let hit = condition(self.x) || condition(self.y) || condition(self.z) || condition(self.w);
        hit
    }
}

impl Vector for Vector3<i64> {
    open spec fn components(&self) -> Seq<i64> {
        seq![self.x, self.y, self.z]
    }

    open spec fn of_components(components: Seq<i64>) -> Self {
        Vector3 { x: components[0], y: components[1], z: components[2] }
    }

    fn step(&self, edge: Self) -> (r: Self) {
        Vector3 {
            x: step_over(self.x, edge.x),
            y: step_over(self.y, edge.y),
            z: step_over(self.z, edge.z),
        }
    }

    fn sign(&self) -> (r: Self) {
        Vector3 { x: signum(self.x), y: signum(self.y), z: signum(self.z) }
    }

    fn boundary(&self, min: Self, max: Self) -> (r: Self) {
        Vector3 {
            x: boundary(self.x, min.x, max.x),
            y: boundary(self.y, min.y, max.y),
            z: boundary(self.z, min.z, max.z),
        }
    }

    fn default() -> (r: Self) {
        Vector3 { x: 0, y: 0, z: 0 }
    }

    fn any<F: Fn(i64) -> bool>(&self, condition: F) -> (r: bool) {
        proof {
            let parts = self.components();
            assert(parts[0] == self.x && parts[1] == self.y && parts[2] == self.z);
        }
        let hit = condition(self.x) || condition(self.y) || condition(self.z);
        hit
    }
}

impl Vector for Vector2<i64> {
    open spec fn components(&self) -> Seq<i64> {
        seq![self.x, self.y]
    }

    open spec fn of_components(components: Seq<i64>) -> Self {
        Vector2 { x: components[0], y: components[1] }
    }

    fn step(&self, edge: Self) -> (r: Self) {
        Vector2 { x: step_over(self.x, edge.x), y: step_over(self.y, edge.y) }
    }

    fn sign(&self) -> (r: Self) {
        Vector2 { x: signum(self.x), y: signum(self.y) }
    }

    fn boundary(&self, min: Self, max: Self) -> (r: Self) {
        Vector2 { x: boundary(self.x, min.x, max.x), y: boundary(self.y, min.y, max.y) }
    }

    fn default() -> (r: Self) {
        Vector2 { x: 0, y: 0 }
    }

    fn any<F: Fn(i64) -> bool>(&self, condition: F) -> (r: bool) {
        proof {
            let parts = self.components();
            assert(parts[0] == self.x && parts[1] == self.y);
        }
        let hit = condition(self.x) || condition(self.y);
        hit
    }
}

} // verus!
