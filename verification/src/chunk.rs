//! A fixed-size, lazily expanding dense block of optional tiles.
//!
//! A chunk owns a three-dimensional growable array addressed `[z][y][x]`.
//! Axes only ever grow, and every slot below the current extent is
//! populated (with `None` if never written). A `None` entry means "no
//! explicit data here, defer to the generator", which is distinct from an
//! explicit tile whose channels are both `None`.

use vstd::arithmetic::div_mod::lemma_fundamental_div_mod_converse;
use vstd::prelude::*;

use crate::cell::Cell;
use crate::cell::CellVal;
use crate::cell::DataError;
use crate::cell::cells_view;
use crate::cell::rows_view;
use crate::codec::CHUNKSIZE;
use crate::tile::Tile;

verus! {

pub struct Chunk {
    pub tiles: Vec<Vec<Vec<Option<Tile>>>>,
}

/// Length of the row of `tiles` at height `z`, taking rows outside the
/// current extent as empty.
pub open spec fn row_len(tiles: Seq<Vec<Vec<Option<Tile>>>>, z: int) -> int {
    if 0 <= z < tiles.len() {
        tiles[z]@.len() as int
    } else {
        0
    }
}

/// Length of the line of `tiles` at height `z` and depth `y`, taking lines
/// outside the current extent as empty.
pub open spec fn line_len(tiles: Seq<Vec<Vec<Option<Tile>>>>, z: int, y: int) -> int {
    if 0 <= z < tiles.len() && 0 <= y < tiles[z]@.len() {
        tiles[z]@[y]@.len() as int
    } else {
        0
    }
}

impl Chunk {
    /// The tile recorded at local coordinates: `None` outside the
    /// currently allocated extent or where nothing was ever written.
    pub open spec fn spec_tile(self, x: int, y: int, z: int) -> Option<Tile> {
        if 0 <= z < self.tiles@.len() && 0 <= y < self.tiles@[z]@.len() && 0 <= x
            < self.tiles@[z]@[y]@.len() {
            self.tiles@[z]@[y]@[x]
        } else {
            None
        }
    }

    /// All three axes lie within the fixed chunk edge length.
    pub open spec fn bounded(self) -> bool {
        &&& self.tiles@.len() <= CHUNKSIZE
        &&& forall|z: int| 0 <= z < self.tiles@.len() ==> row_len(self.tiles@, z) <= CHUNKSIZE
        &&& forall|z: int, y: int|
            0 <= z < self.tiles@.len() && 0 <= y < row_len(self.tiles@, z) ==> line_len(
                self.tiles@,
                z,
                y,
            ) <= CHUNKSIZE
    }

    /// Every axis spans the full chunk edge length and every cell holds an
    /// explicit tile; generated chunks have this shape.
    pub open spec fn full(self) -> bool {
        &&& self.tiles@.len() == CHUNKSIZE
        &&& forall|z: int| 0 <= z < CHUNKSIZE ==> row_len(self.tiles@, z) == CHUNKSIZE
        &&& forall|z: int, y: int|
            0 <= z < CHUNKSIZE && 0 <= y < CHUNKSIZE ==> line_len(self.tiles@, z, y) == CHUNKSIZE
        &&& forall|x: int, y: int, z: int|
            0 <= x < CHUNKSIZE && 0 <= y < CHUNKSIZE && 0 <= z < CHUNKSIZE ==> (
            #[trigger] self.spec_tile(x, y, z)) is Some
    }

    /// Edge length of every chunk.
    pub fn chunksize() -> (n: usize)
        ensures
            n == CHUNKSIZE,
    {
        CHUNKSIZE
    }

    /// A chunk with no data at all.
    pub fn new() -> (c: Chunk)
        ensures
            c.tiles@.len() == 0,
            forall|x: int, y: int, z: int| #[trigger] c.spec_tile(x, y, z) is None,
            c.bounded(),
    {
        Chunk { tiles: Vec::new() }
    }

    /// Whether any axis has ever been expanded; a generated chunk uses this
    /// to tell "already computed" from "never computed".
    pub fn has_data(&self) -> (b: bool)
        ensures
            b == (self.tiles@.len() != 0),
    {
        !self.tiles.is_empty()
    }

    /// The tile at local coordinates, `None` when out of the current
    /// bounds or never written.
    pub fn get(&self, x: usize, y: usize, z: usize) -> (t: Option<Tile>)
        ensures
            t == self.spec_tile(x as int, y as int, z as int),
    {
        if z < self.tiles.len() && y < self.tiles[z].len() && x < self.tiles[z][y].len() {
            self.tiles[z][y][x]
        } else {
            None
        }
    }

    /// Record a tile at local coordinates, growing the backing arrays as
    /// needed; every other slot keeps its previous value.
    pub fn set(&mut self, x: usize, y: usize, z: usize, tile: Tile)
        ensures
            final(self).spec_tile(x as int, y as int, z as int) == Some(tile),
            forall|a: int, b: int, c: int|
                !(a == x && b == y && c == z) ==> #[trigger] final(self).spec_tile(a, b, c)
                    == old(self).spec_tile(a, b, c),
            final(self).tiles@.len() != 0,
            old(self).bounded() && x < CHUNKSIZE && y < CHUNKSIZE && z < CHUNKSIZE
                ==> final(self).bounded(),
            old(self).tiles@.len() <= final(self).tiles@.len(),
            forall|zz: int|
                #[trigger] row_len(old(self).tiles@, zz) <= row_len(final(self).tiles@, zz),
            forall|zz: int, yy: int|
                #[trigger] line_len(old(self).tiles@, zz, yy) <= line_len(
                    final(self).tiles@,
                    zz,
                    yy,
                ),
    {
        self.expand(x, y, z);
        let ghost mid = *self;
        let line = &mut self.tiles[z][y];
        line.set(x, Some(tile));
        proof {
            assert forall|a: int, b: int, c: int| !(a == x && b == y && c == z) implies self
                .spec_tile(a, b, c) == old(self).spec_tile(a, b, c) by {
                assert(mid.spec_tile(a, b, c) == old(self).spec_tile(a, b, c));
                if c == z && 0 <= c < self.tiles@.len() && b == y && 0 <= b
                    < self.tiles@[c]@.len() {
                    assert(self.tiles@[c]@[b]@ == mid.tiles@[c]@[b]@.update(x as int, Some(tile)));
                }
            }
            assert forall|zz: int| #[trigger] row_len(old(self).tiles@, zz) <= row_len(
                self.tiles@,
                zz,
            ) by {
                if 0 <= zz < self.tiles@.len() {
                    if zz != z {
                        assert(self.tiles@[zz] == mid.tiles@[zz]);
                    } else {
                        assert(self.tiles@[zz]@.len() == mid.tiles@[zz]@.len());
                    }
                    assert(row_len(mid.tiles@, zz) == row_len(self.tiles@, zz));
                } else {
                    assert(row_len(old(self).tiles@, zz) == 0);
                }
            }
            assert forall|zz: int, yy: int| #[trigger] line_len(old(self).tiles@, zz, yy)
                <= line_len(self.tiles@, zz, yy) by {
                if 0 <= zz < self.tiles@.len() && 0 <= yy < self.tiles@[zz]@.len() {
                    if zz != z {
                        assert(self.tiles@[zz] == mid.tiles@[zz]);
                    } else if yy != y {
                        assert(self.tiles@[zz]@[yy] == mid.tiles@[zz]@[yy]);
                        assert(self.tiles@[zz]@.len() == mid.tiles@[zz]@.len());
                    } else {
                        assert(self.tiles@[zz]@[yy]@.len() == mid.tiles@[zz]@[yy]@.len());
                        assert(self.tiles@[zz]@.len() == mid.tiles@[zz]@.len());
                    }
                    assert(line_len(mid.tiles@, zz, yy) == line_len(self.tiles@, zz, yy));
                    assert(row_len(mid.tiles@, zz) >= row_len(old(self).tiles@, zz));
                } else {
                    assert(line_len(old(self).tiles@, zz, yy) == 0) by {
                        if 0 <= zz < old(self).tiles@.len() {
                            assert(row_len(old(self).tiles@, zz) <= row_len(mid.tiles@, zz));
                            if zz != z {
                                assert(self.tiles@[zz] == mid.tiles@[zz]);
                            } else {
                                assert(self.tiles@[zz]@.len() == mid.tiles@[zz]@.len());
                            }
                        }
                    }
                }
            }
            if old(self).bounded() && x < CHUNKSIZE && y < CHUNKSIZE && z < CHUNKSIZE {
                assert forall|zz: int| 0 <= zz < self.tiles@.len() implies row_len(self.tiles@, zz)
                    <= CHUNKSIZE by {
                    assert(row_len(mid.tiles@, zz) <= CHUNKSIZE);
                }
                assert forall|zz: int, yy: int|
                    0 <= zz < self.tiles@.len() && 0 <= yy < row_len(self.tiles@, zz) implies
                    line_len(self.tiles@, zz, yy) <= CHUNKSIZE by {
                    assert(line_len(mid.tiles@, zz, yy) <= CHUNKSIZE);
                    if zz == z && yy == y {
                        assert(self.tiles@[zz]@[yy]@.len() == mid.tiles@[zz]@[yy]@.len());
                    }
                }
                assert(self.bounded());
            }
        }
    }

    /// Grow the backing arrays until `(x, y, z)` is inside the extent,
    /// filling every newly created slot with `None`.
    fn expand(&mut self, x: usize, y: usize, z: usize)
        ensures
            z < final(self).tiles@.len(),
            y < final(self).tiles@[z as int]@.len(),
            x < final(self).tiles@[z as int]@[y as int]@.len(),
            final(self).tiles@.len() == if old(self).tiles@.len() > z + 1 {
                old(self).tiles@.len() as int
            } else {
                z + 1
            },
            forall|zz: int|
                0 <= zz < final(self).tiles@.len() ==> #[trigger] row_len(final(self).tiles@, zz)
                    == if zz == z {
                    if row_len(old(self).tiles@, zz) > y + 1 {
                        row_len(old(self).tiles@, zz)
                    } else {
                        y + 1
                    }
                } else {
                    row_len(old(self).tiles@, zz)
                },
            forall|zz: int, yy: int|
                0 <= zz < final(self).tiles@.len() && 0 <= yy < row_len(final(self).tiles@, zz)
                    ==> #[trigger] line_len(final(self).tiles@, zz, yy) == if zz == z && yy == y {
                    if line_len(old(self).tiles@, zz, yy) > x + 1 {
                        line_len(old(self).tiles@, zz, yy)
                    } else {
                        x + 1
                    }
                } else {
                    line_len(old(self).tiles@, zz, yy)
                },
            forall|a: int, b: int, c: int|
                #[trigger] final(self).spec_tile(a, b, c) == old(self).spec_tile(a, b, c),
    {
        while self.tiles.len() <= z
            invariant
                old(self).tiles@.len() <= self.tiles@.len(),
                self.tiles@.len() <= z + 1 || self.tiles@.len() == old(self).tiles@.len(),
                forall|zz: int|
                    0 <= zz < old(self).tiles@.len() ==> #[trigger] self.tiles@[zz]
                        == old(self).tiles@[zz],
                forall|zz: int|
                    old(self).tiles@.len() <= zz < self.tiles@.len() ==> (
                    #[trigger] self.tiles@[zz])@.len() == 0,
            decreases z + 1 - self.tiles@.len(),
        {
            self.tiles.push(Vec::new());
        }
        while self.tiles[z].len() <= y
            invariant
                z < self.tiles@.len(),
                self.tiles@.len() == if old(self).tiles@.len() > z + 1 {
                    old(self).tiles@.len() as int
                } else {
                    z + 1
                },
                forall|zz: int|
                    0 <= zz < self.tiles@.len() && zz != z ==> #[trigger] row_len(self.tiles@, zz)
                        == row_len(old(self).tiles@, zz),
                forall|zz: int|
                    0 <= zz < self.tiles@.len() && zz != z ==> #[trigger] self.tiles@[zz]
                        == if zz < old(self).tiles@.len() {
                        old(self).tiles@[zz]
                    } else {
                        self.tiles@[zz]
                    },
                forall|zz: int|
                    old(self).tiles@.len() <= zz < self.tiles@.len() && zz != z ==> (
                    #[trigger] self.tiles@[zz])@.len() == 0,
                row_len(old(self).tiles@, z as int) <= row_len(self.tiles@, z as int),
                row_len(self.tiles@, z as int) <= y + 1 || row_len(self.tiles@, z as int)
                    == row_len(old(self).tiles@, z as int),
                forall|yy: int|
                    0 <= yy < row_len(old(self).tiles@, z as int) ==> #[trigger] self.tiles@[z as int]@[yy]
                        == old(self).tiles@[z as int]@[yy],
                forall|yy: int|
                    row_len(old(self).tiles@, z as int) <= yy < row_len(self.tiles@, z as int)
                        ==> (#[trigger] self.tiles@[z as int]@[yy])@.len() == 0,
            decreases y + 1 - self.tiles@[z as int]@.len(),
        {
            let row = &mut self.tiles[z];
            row.push(Vec::new());
        }
        while self.tiles[z][y].len() <= x
            invariant
                z < self.tiles@.len(),
                y < self.tiles@[z as int]@.len(),
                self.tiles@.len() == if old(self).tiles@.len() > z + 1 {
                    old(self).tiles@.len() as int
                } else {
                    z + 1
                },
                forall|zz: int|
                    0 <= zz < self.tiles@.len() && zz != z ==> #[trigger] self.tiles@[zz]
                        == if zz < old(self).tiles@.len() {
                        old(self).tiles@[zz]
                    } else {
                        self.tiles@[zz]
                    },
                forall|zz: int|
                    old(self).tiles@.len() <= zz < self.tiles@.len() && zz != z ==> (
                    #[trigger] self.tiles@[zz])@.len() == 0,
                row_len(self.tiles@, z as int) == if row_len(old(self).tiles@, z as int) > y + 1 {
                    row_len(old(self).tiles@, z as int)
                } else {
                    y + 1
                },
                forall|yy: int|
                    0 <= yy < row_len(self.tiles@, z as int) && yy != y ==> #[trigger] self.tiles@[z as int]@[yy]
                        == if yy < row_len(old(self).tiles@, z as int) {
                        old(self).tiles@[z as int]@[yy]
                    } else {
                        self.tiles@[z as int]@[yy]
                    },
                forall|yy: int|
                    row_len(old(self).tiles@, z as int) <= yy < row_len(self.tiles@, z as int)
                        && yy != y ==> (#[trigger] self.tiles@[z as int]@[yy])@.len() == 0,
                line_len(old(self).tiles@, z as int, y as int) <= line_len(
                    self.tiles@,
                    z as int,
                    y as int,
                ),
                line_len(self.tiles@, z as int, y as int) <= x + 1 || line_len(
                    self.tiles@,
                    z as int,
                    y as int,
                ) == line_len(old(self).tiles@, z as int, y as int),
                forall|xx: int|
                    0 <= xx < line_len(old(self).tiles@, z as int, y as int)
                        ==> #[trigger] self.tiles@[z as int]@[y as int]@[xx]
                        == old(self).tiles@[z as int]@[y as int]@[xx],
                forall|xx: int|
                    line_len(old(self).tiles@, z as int, y as int) <= xx < line_len(
                        self.tiles@,
                        z as int,
                        y as int,
                    ) ==> #[trigger] self.tiles@[z as int]@[y as int]@[xx] is None,
            decreases x + 1 - self.tiles@[z as int]@[y as int]@.len(),
        {
            let line = &mut self.tiles[z][y];
            line.push(None);
        }
    }
}

/// One recorded set step: the relation `Chunk::set` establishes between
/// the chunk before and after the call, for an operation
/// `(x, y, z, tile)`.
pub open spec fn set_step(c0: Chunk, c1: Chunk, op: (usize, usize, usize, Tile)) -> bool {
    &&& c1.spec_tile(op.0 as int, op.1 as int, op.2 as int) == Some(op.3)
    &&& forall|a: int, b: int, c: int|
        !(a == op.0 && b == op.1 && c == op.2) ==> #[trigger] c1.spec_tile(a, b, c)
            == c0.spec_tile(a, b, c)
}

/// The tile the first `n` set operations leave at `(x, y, z)`: the last
/// one aimed there, or `None` if none was.
pub open spec fn tiles_after(
    ops: Seq<(usize, usize, usize, Tile)>,
    n: nat,
    x: int,
    y: int,
    z: int,
) -> Option<Tile>
    decreases n,
{
    if n == 0 {
        None
    } else {
        let op = ops[n - 1];
        if x == op.0 && y == op.1 && z == op.2 {
            Some(op.3)
        } else {
            tiles_after(ops, (n - 1) as nat, x, y, z)
        }
    }
}

/// The set/get law: a chunk built from `new` by any sequence of `set`
/// calls reads back, at every coordinate, the last tile set there, and
/// `None` at every coordinate where nothing was ever set.
pub proof fn lemma_chunk_set_get(
    states: Seq<Chunk>,
    ops: Seq<(usize, usize, usize, Tile)>,
    x: int,
    y: int,
    z: int,
)
    requires
        states.len() == ops.len() + 1,
        states[0].tiles@.len() == 0,
        forall|i: int| 0 <= i < ops.len() ==> set_step(#[trigger] states[i], states[i + 1], ops[i]),
    ensures
        states[ops.len() as int].spec_tile(x, y, z) == tiles_after(ops, ops.len(), x, y, z),
    decreases ops.len(),
{
    if ops.len() == 0 {
        assert(states[0].spec_tile(x, y, z) is None);
    } else {
        let n = ops.len() as int;
        let prev = states.subrange(0, n);
        let front = ops.subrange(0, n - 1);
        assert(prev[0] == states[0]);
        assert forall|i: int| 0 <= i < front.len() implies set_step(
            #[trigger] prev[i],
            prev[i + 1],
            front[i],
        ) by {
            assert(prev[i] == states[i] && prev[i + 1] == states[i + 1] && front[i] == ops[i]);
        }
        lemma_chunk_set_get(prev, front, x, y, z);
        assert(tiles_after(front, front.len(), x, y, z) == tiles_after(
            ops,
            (n - 1) as nat,
            x,
            y,
            z,
        )) by {
            lemma_tiles_after_prefix(ops, (n - 1) as nat, x, y, z);
        }
        assert(set_step(states[n - 1], states[n], ops[n - 1]));
    }
}

/// A prefix of the operations leaves the same tile as the same count of
/// the full sequence.
proof fn lemma_tiles_after_prefix(
    ops: Seq<(usize, usize, usize, Tile)>,
    n: nat,
    x: int,
    y: int,
    z: int,
)
    requires
        n <= ops.len(),
    ensures
        tiles_after(ops.subrange(0, n as int), n, x, y, z) == tiles_after(ops, n, x, y, z),
    decreases n,
{
    if n > 0 {
        let front = ops.subrange(0, n as int);
        assert(front[n - 1] == ops[n - 1]);
        assert(front.subrange(0, n - 1) =~= ops.subrange(0, n - 1));
        lemma_tiles_after_prefix(ops, (n - 1) as nat, x, y, z);
        assert(tiles_after(front.subrange(0, n - 1), (n - 1) as nat, x, y, z) == tiles_after(
            ops.subrange(0, n - 1),
            (n - 1) as nat,
            x,
            y,
            z,
        ));
        lemma_tiles_after_prefix(front, (n - 1) as nat, x, y, z);
    }
}

/// Cell value persisted for one tile channel: the image id as an integer,
/// or the dash sentinel for an explicitly empty channel.
pub open spec fn chan_cell(o: Option<u16>) -> CellVal {
    match o {
        Some(id) => CellVal::Int(id as i64),
        None => CellVal::Dash,
    }
}

/// Cell `k` of the persisted row for the line of `c` at `(z, y)`: the
/// chunk coordinates in decoded signed form, the line's own coordinates,
/// then one (bg, fg) cell pair per x, with both cells empty where no tile
/// is recorded.
pub open spec fn row_cell(c: Chunk, cx: int, cy: int, cz: int, z: int, y: int, k: int) -> CellVal {
    if k == 0 {
        CellVal::Int(cx as i64)
    } else if k == 1 {
        CellVal::Int(cy as i64)
    } else if k == 2 {
        CellVal::Int(cz as i64)
    } else if k == 3 {
        CellVal::Int(z as i64)
    } else if k == 4 {
        CellVal::Int(y as i64)
    } else {
        let x = (k - 5) / 2;
        match c.spec_tile(x, y, z) {
            None => CellVal::Empty,
            Some(t) => if (k - 5) % 2 == 0 {
                chan_cell(t.bg)
            } else {
                chan_cell(t.fg)
            },
        }
    }
}

/// The full persisted row for the line of `c` at `(z, y)`.
pub open spec fn row_of(c: Chunk, cx: int, cy: int, cz: int, z: int, y: int) -> Seq<CellVal> {
    Seq::new((5 + 2 * CHUNKSIZE) as nat, |k: int| row_cell(c, cx, cy, cz, z, y, k))
}

/// Whether the line of `c` at `(z, y)` holds at least one tile.
pub open spec fn line_nonempty(c: Chunk, z: int, y: int) -> bool {
    exists|x: int| 0 <= x < CHUNKSIZE && (#[trigger] c.spec_tile(x, y, z)) is Some
}

/// The rows persisted for the first `n` lines of a chunk, lines ordered by
/// `z` first and `y` second; a line without tiles produces no row.
pub open spec fn rows_upto(c: Chunk, cx: int, cy: int, cz: int, n: nat) -> Seq<Seq<CellVal>>
    decreases n,
{
    if n == 0 {
        Seq::empty()
    } else {
        let m = (n - 1) as nat;
        let z = m as int / (CHUNKSIZE as int);
        let y = m as int % (CHUNKSIZE as int);
        rows_upto(c, cx, cy, cz, m) + if line_nonempty(c, z, y) {
            seq![row_of(c, cx, cy, cz, z, y)]
        } else {
            Seq::empty()
        }
    }
}

/// Every row a chunk persists.
pub open spec fn chunk_rows(c: Chunk, cx: int, cy: int, cz: int) -> Seq<Seq<CellVal>> {
    rows_upto(c, cx, cy, cz, (CHUNKSIZE * CHUNKSIZE) as nat)
}

/// Every row among the first `n` lines' persisted rows that names line
/// `(z, y)` comes from a line that holds a tile.
proof fn lemma_rows_upto_lines(c: Chunk, cx: int, cy: int, cz: int, n: nat, z: int, y: int)
    requires
        0 <= z < CHUNKSIZE,
        0 <= y < CHUNKSIZE,
        n <= CHUNKSIZE * CHUNKSIZE,
    ensures
        forall|i: int|
            0 <= i < rows_upto(c, cx, cy, cz, n).len() && (#[trigger] rows_upto(
                c,
                cx,
                cy,
                cz,
                n,
            )[i])[3] == CellVal::Int(z as i64) && rows_upto(c, cx, cy, cz, n)[i][4] == CellVal::Int(
                y as i64,
            ) ==> line_nonempty(c, z, y),
    decreases n,
{
    if n > 0 {
        let m = (n - 1) as nat;
        lemma_rows_upto_lines(c, cx, cy, cz, m, z, y);
        let z2 = m as int / (CHUNKSIZE as int);
        let y2 = m as int % (CHUNKSIZE as int);
        vstd::arithmetic::div_mod::lemma_mod_bound(m as int, CHUNKSIZE as int);
        assert(0 <= z2 < CHUNKSIZE);
        if line_nonempty(c, z2, y2) {
            let rv = row_of(c, cx, cy, cz, z2, y2);
            assert(rv[3] == CellVal::Int(z2 as i64));
            assert(rv[4] == CellVal::Int(y2 as i64));
            if z2 == z && y2 == y {
                assert(line_nonempty(c, z, y));
            }
        }
    }
}

/// Sparse-row omission: a `(z, y)` line with no tile at all produces no
/// persisted row, so no emitted row names that line.
pub proof fn lemma_sparse_row_omission(c: Chunk, cx: int, cy: int, cz: int, z: int, y: int)
    requires
        0 <= z < CHUNKSIZE,
        0 <= y < CHUNKSIZE,
        forall|x: int| 0 <= x < CHUNKSIZE ==> (#[trigger] c.spec_tile(x, y, z)) is None,
    ensures
        forall|i: int|
            0 <= i < chunk_rows(c, cx, cy, cz).len() ==> !((#[trigger] chunk_rows(
                c,
                cx,
                cy,
                cz,
            )[i])[3] == CellVal::Int(z as i64) && chunk_rows(c, cx, cy, cz)[i][4] == CellVal::Int(
                y as i64,
            )),
{
    lemma_rows_upto_lines(c, cx, cy, cz, (CHUNKSIZE * CHUNKSIZE) as nat, z, y);
    assert(!line_nonempty(c, z, y));
}

/// Image channel read from a cell value: an integer is an image id
/// (truncated to the id width, as the table store keeps wider integers),
/// anything else is an empty channel.
pub open spec fn chan_of(cv: CellVal) -> Option<u16> {
    match cv {
        CellVal::Int(v) => Some(v as u16),
        _ => None,
    }
}

/// The integer a cell value carries, 0 when it is not an integer.
pub open spec fn cell_int(cv: CellVal) -> i64 {
    match cv {
        CellVal::Int(v) => v,
        _ => 0,
    }
}

/// Whether the (bg, fg) cell pair for `x` in a row is well formed: both
/// cells empty (no tile recorded), or a bg that is an integer or the dash
/// sentinel together with an fg that is an integer, the sentinel, or
/// empty.
pub open spec fn pair_valid(rv: Seq<CellVal>, x: int) -> bool {
    let bg = rv[5 + 2 * x];
    let fg = rv[6 + 2 * x];
    ||| (bg is Empty && fg is Empty)
    ||| ((bg is Int || bg is Dash) && (fg is Int || fg is Dash || fg is Empty))
}

/// Whether a persisted row parses: it is long enough, its `z` and `y`
/// fields are integers naming a line inside a chunk, and every cell pair
/// is well formed.
pub open spec fn row_parses(rv: Seq<CellVal>) -> bool {
    &&& rv.len() >= 5 + 2 * CHUNKSIZE
    &&& rv[3] is Int && 0 <= cell_int(rv[3]) < CHUNKSIZE
    &&& rv[4] is Int && 0 <= cell_int(rv[4]) < CHUNKSIZE
    &&& forall|x: int| 0 <= x < CHUNKSIZE ==> pair_valid(rv, x)
}

/// The `z` line coordinate a row names.
pub open spec fn row_z(rv: Seq<CellVal>) -> int {
    cell_int(rv[3]) as int
}

/// The `y` line coordinate a row names.
pub open spec fn row_y(rv: Seq<CellVal>) -> int {
    cell_int(rv[4]) as int
}

/// The tile the cell pair for `x` records, `None` where both cells are
/// empty.
pub open spec fn row_tile(rv: Seq<CellVal>, x: int) -> Option<Tile> {
    let bg = rv[5 + 2 * x];
    let fg = rv[6 + 2 * x];
    if bg is Empty && fg is Empty {
        None
    } else {
        Some(Tile { bg: chan_of(bg), fg: chan_of(fg) })
    }
}

/// Which data-format error a malformed row reports: a bad length or line
/// coordinate is a malformed row; otherwise some cell pair is malformed.
pub open spec fn row_error(rv: Seq<CellVal>) -> DataError {
    if !(rv.len() >= 5 + 2 * CHUNKSIZE && rv[3] is Int && 0 <= cell_int(rv[3]) < CHUNKSIZE
        && rv[4] is Int && 0 <= cell_int(rv[4]) < CHUNKSIZE) {
        DataError::MalformedRow
    } else {
        DataError::MalformedCell
    }
}

/// Validate one persisted row without writing anything; on success return
/// the line coordinates it names.
pub fn row_check(row: &Vec<Cell>) -> (r: Result<(usize, usize), DataError>)
    ensures
        r is Ok <==> row_parses(cells_view(row@)),
        r matches Ok(zy) ==> zy.1 == row_z(cells_view(row@)) && zy.0 == row_y(cells_view(row@))
            && zy.0 < CHUNKSIZE && zy.1 < CHUNKSIZE,
        r is Err ==> r->Err_0 == row_error(cells_view(row@)),
{
    let ghost rv = cells_view(row@);
    if row.len() < 5 + 2 * Chunk::chunksize() {
        return Err(DataError::MalformedRow);
    }
    let zc = row[3].classify();
    let yc = row[4].classify();
    let cs64: i64 = CHUNKSIZE as i64;
    let (z, y): (usize, usize) = match (zc, yc) {
        (CellVal::Int(zv), CellVal::Int(yv)) => {
            if zv < 0 || zv >= cs64 || yv < 0 || yv >= cs64 {
                return Err(DataError::MalformedRow);
            }
            (zv as usize, yv as usize)
        },
        _ => {
            return Err(DataError::MalformedRow);
        },
    };
    let mut x: usize = 0;
    while x < CHUNKSIZE
        invariant
            x <= CHUNKSIZE,
            row@.len() >= 5 + 2 * CHUNKSIZE,
            rv == cells_view(row@),
            rv[3] is Int && 0 <= cell_int(rv[3]) < CHUNKSIZE,
            rv[4] is Int && 0 <= cell_int(rv[4]) < CHUNKSIZE,
            forall|xx: int| 0 <= xx < x ==> pair_valid(rv, xx),
        decreases CHUNKSIZE - x,
    {
        let bg = row[5 + 2 * x].classify();
        let fg = row[6 + 2 * x].classify();
        proof {
            assert(rv[5 + 2 * x] == row@[5 + 2 * x]@);
            assert(rv[6 + 2 * x] == row@[6 + 2 * x]@);
        }
        let valid = (matches!(bg, CellVal::Empty) && matches!(fg, CellVal::Empty)) || ((matches!(
            bg,
            CellVal::Int(_),
        ) || matches!(bg, CellVal::Dash)) && (matches!(fg, CellVal::Int(_)) || matches!(
            fg,
            CellVal::Dash,
        ) || matches!(fg, CellVal::Empty)));
        if !valid {
            proof {
                assert(!pair_valid(rv, x as int));
            }
            return Err(DataError::MalformedCell);
        }
        proof {
            assert(pair_valid(rv, x as int));
        }
        x = x + 1;
    }
    Ok((y, z))
}

impl Chunk {
    /// Parse one persisted row into this chunk: the inverse of `store` for
    /// a single row. The whole row is validated before anything is
    /// written, so a malformed row leaves the chunk untouched.
    pub fn parse_row(&mut self, row: &Vec<Cell>) -> (r: Result<(), DataError>)
        ensures
            r is Ok <==> row_parses(cells_view(row@)),
            r is Err ==> *final(self) == *old(self),
            r is Ok ==> forall|a: int, b: int, c: int|
                #[trigger] final(self).spec_tile(a, b, c) == (if c == row_z(cells_view(row@)) && b
                    == row_y(cells_view(row@)) && 0 <= a < CHUNKSIZE && row_tile(
                    cells_view(row@),
                    a,
                ) is Some {
                    row_tile(cells_view(row@), a)
                } else {
                    old(self).spec_tile(a, b, c)
                }),
            r is Ok && old(self).bounded() ==> final(self).bounded(),
            r is Err ==> r->Err_0 == row_error(cells_view(row@)),
    {
        let ghost rv = cells_view(row@);
        let (y, z): (usize, usize) = match row_check(row) {
            Ok(yz) => yz,
            Err(e) => {
                return Err(e);
            },
        };
        assert(row_parses(rv));
        self.expand(CHUNKSIZE - 1, y, z);
        proof {
            if old(self).bounded() {
                assert forall|zz: int| 0 <= zz < self.tiles@.len() implies row_len(self.tiles@, zz)
                    <= CHUNKSIZE by {}
                assert forall|zz: int, yy: int|
                    0 <= zz < self.tiles@.len() && 0 <= yy < row_len(self.tiles@, zz) implies
                    line_len(self.tiles@, zz, yy) <= CHUNKSIZE by {}
                assert(self.bounded());
            }
        }
        let ghost mid = *self;
        let mut x2: usize = 0;
        while x2 < CHUNKSIZE
            invariant
                x2 <= CHUNKSIZE,
                row@.len() >= 5 + 2 * CHUNKSIZE,
                rv == cells_view(row@),
                row_parses(rv),
                z < CHUNKSIZE,
                y < CHUNKSIZE,
                z == row_z(rv),
                y == row_y(rv),
                mid.bounded() ==> self.bounded(),
                forall|a: int, b: int, c: int|
                    #[trigger] self.spec_tile(a, b, c) == (if c == z && b == y && 0 <= a < x2
                        && row_tile(rv, a) is Some {
                        row_tile(rv, a)
                    } else {
                        mid.spec_tile(a, b, c)
                    }),
            decreases CHUNKSIZE - x2,
        {
            let bg = row[5 + 2 * x2].classify();
            let fg = row[6 + 2 * x2].classify();
            proof {
                assert(rv[5 + 2 * x2] == row@[5 + 2 * x2]@);
                assert(rv[6 + 2 * x2] == row@[6 + 2 * x2]@);
            }
            let defined = !(matches!(bg, CellVal::Empty) && matches!(fg, CellVal::Empty));
            if defined {
                let bg_id: Option<u16> = match bg {
                    CellVal::Int(v) => Some(#[verifier::truncate] (v as u16)),
                    _ => None,
                };
                let fg_id: Option<u16> = match fg {
                    CellVal::Int(v) => Some(#[verifier::truncate] (v as u16)),
                    _ => None,
                };
                self.set(x2, y, z, Tile { bg: bg_id, fg: fg_id });
            }
            x2 = x2 + 1;
        }
        Ok(())
    }

    /// Append to `rows` one persisted row for every `(z, y)` line of this
    /// chunk that holds at least one tile; lines with no tile are omitted
    /// entirely (sparse storage).
    pub fn store(&self, rows: &mut Vec<Vec<Cell>>, chunk_x: i32, chunk_y: i32, chunk_z: i32)
        ensures
            rows_view(final(rows)@) == rows_view(old(rows)@) + chunk_rows(
                *self,
                chunk_x as int,
                chunk_y as int,
                chunk_z as int,
            ),
    {
        let mut z: usize = 0;
        while z < CHUNKSIZE
            invariant
                z <= CHUNKSIZE,
                rows_view(rows@) == rows_view(old(rows)@) + rows_upto(
                    *self,
                    chunk_x as int,
                    chunk_y as int,
                    chunk_z as int,
                    (z * CHUNKSIZE) as nat,
                ),
            decreases CHUNKSIZE - z,
        {
            let mut y: usize = 0;
            while y < CHUNKSIZE
                invariant
                    z < CHUNKSIZE,
                    y <= CHUNKSIZE,
                    rows_view(rows@) == rows_view(old(rows)@) + rows_upto(
                        *self,
                        chunk_x as int,
                        chunk_y as int,
                        chunk_z as int,
                        (z * CHUNKSIZE + y) as nat,
                    ),
                decreases CHUNKSIZE - y,
            {
                let mut any = false;
                let mut x: usize = 0;
                while x < CHUNKSIZE
                    invariant
                        x <= CHUNKSIZE,
                        any == exists|xx: int|
                            0 <= xx < x && (#[trigger] self.spec_tile(xx, y as int, z as int))
                                is Some,
                    decreases CHUNKSIZE - x,
                {
                    if self.get(x, y, z).is_some() {
                        any = true;
                        proof {
                            assert(self.spec_tile(x as int, y as int, z as int) is Some);
                        }
                    }
                    x = x + 1;
                }
                let ghost n: nat = (z * CHUNKSIZE + y) as nat;
                proof {
                    lemma_fundamental_div_mod_converse(n as int, CHUNKSIZE as int, z as int, y as int);
                    assert(n + 1 > 0);
                    assert(rows_upto(*self, chunk_x as int, chunk_y as int, chunk_z as int, n + 1)
                        == rows_upto(*self, chunk_x as int, chunk_y as int, chunk_z as int, n)
                        + if line_nonempty(*self, z as int, y as int) {
                        seq![row_of(*self, chunk_x as int, chunk_y as int, chunk_z as int, z as int, y as int)]
                    } else {
                        Seq::empty()
                    });
                }
                if any {
                    let ghost target = row_of(
                        *self,
                        chunk_x as int,
                        chunk_y as int,
                        chunk_z as int,
                        z as int,
                        y as int,
                    );
                    let mut data: Vec<Cell> = Vec::new();
                    data.push(Cell::Int(chunk_x as i64));
                    data.push(Cell::Int(chunk_y as i64));
                    data.push(Cell::Int(chunk_z as i64));
                    data.push(Cell::Int(z as i64));
                    data.push(Cell::Int(y as i64));
                    let mut x2: usize = 0;
                    while x2 < CHUNKSIZE
                        invariant
                            x2 <= CHUNKSIZE,
                            z < CHUNKSIZE,
                            y < CHUNKSIZE,
                            target == row_of(
                                *self,
                                chunk_x as int,
                                chunk_y as int,
                                chunk_z as int,
                                z as int,
                                y as int,
                            ),
                            data@.len() == 5 + 2 * x2,
                            forall|k: int|
                                0 <= k < data@.len() ==> (#[trigger] data@[k])@ == target[k],
                        decreases CHUNKSIZE - x2,
                    {
                        match self.get(x2, y, z) {
                            Some(tile) => {
                                match tile.bg {
                                    Some(id) => data.push(Cell::Int(id as i64)),
                                    None => data.push(Cell::dash()),
                                }
                                match tile.fg {
                                    Some(id) => data.push(Cell::Int(id as i64)),
                                    None => data.push(Cell::dash()),
                                }
                            },
                            None => {
                                data.push(Cell::Empty);
                                data.push(Cell::Empty);
                            },
                        }
                        proof {
                            assert((2 * x2) / 2 == x2 && (2 * x2) % 2 == 0) by {
                                lemma_fundamental_div_mod_converse(2 * x2, 2, x2 as int, 0);
                            }
                            assert((2 * x2 + 1) / 2 == x2 && (2 * x2 + 1) % 2 == 1) by {
                                lemma_fundamental_div_mod_converse(2 * x2 + 1, 2, x2 as int, 1);
                            }
                            assert(target[5 + 2 * x2] == row_cell(
                                *self,
                                chunk_x as int,
                                chunk_y as int,
                                chunk_z as int,
                                z as int,
                                y as int,
                                5 + 2 * x2,
                            ));
                            assert(target[6 + 2 * x2] == row_cell(
                                *self,
                                chunk_x as int,
                                chunk_y as int,
                                chunk_z as int,
                                z as int,
                                y as int,
                                6 + 2 * x2,
                            ));
                        }
                        x2 = x2 + 1;
                    }
                    proof {
                        assert(cells_view(data@) =~= target);
                    }
                    let ghost pre_rows = rows@;
                    rows.push(data);
                    proof {
                        assert(line_nonempty(*self, z as int, y as int));
                        assert(rows_upto(*self, chunk_x as int, chunk_y as int, chunk_z as int, n + 1)
                            =~= rows_upto(
                            *self,
                            chunk_x as int,
                            chunk_y as int,
                            chunk_z as int,
                            n,
                        ).push(target));
                        assert(rows_view(rows@) =~= rows_view(pre_rows).push(cells_view(data@)));
                        assert(rows_view(rows@) =~= rows_view(old(rows)@) + rows_upto(
                            *self,
                            chunk_x as int,
                            chunk_y as int,
                            chunk_z as int,
                            n + 1,
                        ));
                    }
                } else {
                    proof {
                        assert(!line_nonempty(*self, z as int, y as int));
                        assert(rows_upto(*self, chunk_x as int, chunk_y as int, chunk_z as int, n + 1)
                            =~= rows_upto(*self, chunk_x as int, chunk_y as int, chunk_z as int, n));
                        assert(rows_view(rows@) =~= rows_view(old(rows)@) + rows_upto(
                            *self,
                            chunk_x as int,
                            chunk_y as int,
                            chunk_z as int,
                            n + 1,
                        ));
                    }
                }
                y = y + 1;
            }
            z = z + 1;
        }
    }
}

} // verus!
