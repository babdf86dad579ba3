//! The persistence round-trip law.
//!
//! `World::store` serializes the edited grid into rows, and
//! `World::parse_table` replays rows into a world. This module proves that
//! the two compose: every row that `store` emits parses, and replaying the
//! whole output into an empty world reproduces the stored edits at every
//! world position. Together with the exact contracts of `store` and
//! `parse_table`, storing a world and parsing the result into a fresh
//! world yields identical explicit tiles everywhere.

use vstd::arithmetic::div_mod::lemma_fundamental_div_mod_converse;
use vstd::arithmetic::div_mod::lemma_mod_bound;
use vstd::prelude::*;

use crate::cell::CellVal;
use crate::chunk::Chunk;
use crate::chunk::cell_int;
use crate::chunk::chan_cell;
use crate::chunk::chunk_rows;
use crate::chunk::line_nonempty;
use crate::chunk::pair_valid;
use crate::chunk::row_cell;
use crate::chunk::row_of;
use crate::chunk::row_tile;
use crate::chunk::row_y;
use crate::chunk::row_z;
use crate::chunk::rows_upto;
use crate::codec::CHUNKSIZE;
use crate::codec::decode;
use crate::codec::encode;
use crate::codec::lemma_decode_encode;
use crate::codec::lemma_decode_range;
use crate::codec::lemma_encode_decode;
use crate::map::World;
use crate::map::applied_tile;
use crate::map::grid_chunk;
use crate::map::grid_dims_ok;
use crate::map::grid_in_bounds;
use crate::map::layer_chunks_rows;
use crate::map::line_chunks_rows;
use crate::map::row_covers;
use crate::map::table_row_ok;
use crate::map::world_rows;
use crate::map::world_rows_upto;
use crate::tile::Tile;

verus! {

/// Replaying rows reads only the first `n` of them, so two row sequences
/// that agree on that prefix replay alike.
proof fn lemma_applied_agree(
    s1: Seq<Seq<CellVal>>,
    s2: Seq<Seq<CellVal>>,
    n: nat,
    base: Option<Tile>,
    a: int,
    b: int,
    c: int,
)
    requires
        n <= s1.len(),
        n <= s2.len(),
        forall|i: int| 0 <= i < n ==> s1[i] == s2[i],
    ensures
        applied_tile(s1, n, base, a, b, c) == applied_tile(s2, n, base, a, b, c),
    decreases n,
{
    if n > 0 {
        lemma_applied_agree(s1, s2, (n - 1) as nat, base, a, b, c);
    }
}

/// Replaying a concatenation replays the first part, then the second on
/// top of its outcome.
proof fn lemma_applied_concat(
    r1: Seq<Seq<CellVal>>,
    r2: Seq<Seq<CellVal>>,
    base: Option<Tile>,
    a: int,
    b: int,
    c: int,
)
    ensures
        applied_tile(r1 + r2, (r1.len() + r2.len()) as nat, base, a, b, c) == applied_tile(
            r2,
            r2.len(),
            applied_tile(r1, r1.len(), base, a, b, c),
            a,
            b,
            c,
        ),
    decreases r2.len(),
{
    let total = r1 + r2;
    if r2.len() == 0 {
        assert(total =~= r1);
        lemma_applied_agree(total, r1, r1.len(), base, a, b, c);
    } else {
        let n = r1.len() + r2.len();
        let front = r2.drop_last();
        lemma_applied_concat(r1, front, base, a, b, c);
        lemma_applied_agree(total, r1 + front, (n - 1) as nat, base, a, b, c);
        let inner = applied_tile(r1, r1.len(), base, a, b, c);
        lemma_applied_agree(r2, front, (r2.len() - 1) as nat, inner, a, b, c);
        assert(total[n - 1] == r2[r2.len() - 1]);
    }
}

/// The row a chunk emits for one line is well formed, names exactly that
/// line, and records exactly the line's tiles.
proof fn lemma_row_of_facts(ch: Chunk, dx: int, dy: int, dz: int, z: int, y: int)
    requires
        0 <= z < CHUNKSIZE,
        0 <= y < CHUNKSIZE,
        -0x8000_0000 <= dx <= 0x7fff_ffff,
        -0x8000_0000 <= dy <= 0x7fff_ffff,
        -0x8000_0000 <= dz <= 0x7fff_ffff,
    ensures
        table_row_ok(row_of(ch, dx, dy, dz, z, y)),
        cell_int(row_of(ch, dx, dy, dz, z, y)[0]) == dx,
        cell_int(row_of(ch, dx, dy, dz, z, y)[1]) == dy,
        cell_int(row_of(ch, dx, dy, dz, z, y)[2]) == dz,
        row_z(row_of(ch, dx, dy, dz, z, y)) == z,
        row_y(row_of(ch, dx, dy, dz, z, y)) == y,
        forall|la: int|
            0 <= la < CHUNKSIZE ==> #[trigger] row_tile(row_of(ch, dx, dy, dz, z, y), la)
                == ch.spec_tile(la, y, z),
{
    let rv = row_of(ch, dx, dy, dz, z, y);
    assert(rv[0] == row_cell(ch, dx, dy, dz, z, y, 0));
    assert(rv[1] == row_cell(ch, dx, dy, dz, z, y, 1));
    assert(rv[2] == row_cell(ch, dx, dy, dz, z, y, 2));
    assert(rv[3] == row_cell(ch, dx, dy, dz, z, y, 3));
    assert(rv[4] == row_cell(ch, dx, dy, dz, z, y, 4));
    assert forall|x: int| 0 <= x < CHUNKSIZE implies pair_valid(rv, x) by {
        lemma_pair_cells(ch, dx, dy, dz, z, y, x);
    }
    assert forall|la: int| 0 <= la < CHUNKSIZE implies #[trigger] row_tile(rv, la) == ch.spec_tile(
        la,
        y,
        z,
    ) by {
        lemma_pair_cells(ch, dx, dy, dz, z, y, la);
        match ch.spec_tile(la, y, z) {
            None => {},
            Some(t) => {
                match t.bg {
                    Some(id) => {
                        assert(chan_cell(t.bg) == CellVal::Int(id as i64));
                    },
                    None => {},
                }
            },
        }
    }
}

/// The two cells of the pair for `x` in a line's row are the encodings of
/// the tile's channels, or both empty where no tile is recorded.
proof fn lemma_pair_cells(ch: Chunk, dx: int, dy: int, dz: int, z: int, y: int, x: int)
    requires
        0 <= x < CHUNKSIZE,
    ensures
        row_of(ch, dx, dy, dz, z, y)[5 + 2 * x] == (match ch.spec_tile(x, y, z) {
            None => CellVal::Empty,
            Some(t) => chan_cell(t.bg),
        }),
        row_of(ch, dx, dy, dz, z, y)[6 + 2 * x] == (match ch.spec_tile(x, y, z) {
            None => CellVal::Empty,
            Some(t) => chan_cell(t.fg),
        }),
{
    let rv = row_of(ch, dx, dy, dz, z, y);
    assert((2 * x) / 2 == x && (2 * x) % 2 == 0) by {
        lemma_fundamental_div_mod_converse(2 * x, 2, x, 0);
    }
    assert((2 * x + 1) / 2 == x && (2 * x + 1) % 2 == 1) by {
        lemma_fundamental_div_mod_converse(2 * x + 1, 2, x, 1);
    }
    assert(rv[5 + 2 * x] == row_cell(ch, dx, dy, dz, z, y, 5 + 2 * x));
    assert(rv[6 + 2 * x] == row_cell(ch, dx, dy, dz, z, y, 6 + 2 * x));
}

/// Replaying the rows of one chunk's first `n` lines on top of `base`
/// leaves, at every position inside that chunk whose line was processed
/// and holds a tile, exactly that tile, and `base` everywhere else.
proof fn lemma_chunk_rows_applied(
    ch: Chunk,
    dx: int,
    dy: int,
    dz: int,
    n: nat,
    base: Option<Tile>,
    a: int,
    b: int,
    c: int,
)
    requires
        ch.bounded(),
        n <= CHUNKSIZE * CHUNKSIZE,
        -0x8000_0000 <= dx <= 0x7fff_ffff,
        -0x8000_0000 <= dy <= 0x7fff_ffff,
        -0x8000_0000 <= dz <= 0x7fff_ffff,
    ensures
        applied_tile(
            rows_upto(ch, dx, dy, dz, n),
            rows_upto(ch, dx, dy, dz, n).len(),
            base,
            a,
            b,
            c,
        ) == (if a / (CHUNKSIZE as int) == dx && b / (CHUNKSIZE as int) == dy && c / (
        CHUNKSIZE as int) == dz && (c % (CHUNKSIZE as int)) * (CHUNKSIZE as int) + (b % (
        CHUNKSIZE as int)) < n && ch.spec_tile(
            a % (CHUNKSIZE as int),
            b % (CHUNKSIZE as int),
            c % (CHUNKSIZE as int),
        ) is Some {
            ch.spec_tile(a % (CHUNKSIZE as int), b % (CHUNKSIZE as int), c % (CHUNKSIZE as int))
        } else {
            base
        }),
        forall|i: int|
            0 <= i < rows_upto(ch, dx, dy, dz, n).len() ==> table_row_ok(
                #[trigger] rows_upto(ch, dx, dy, dz, n)[i],
            ),
    decreases n,
{
    let cs = CHUNKSIZE as int;
    lemma_mod_bound(a, cs);
    lemma_mod_bound(b, cs);
    lemma_mod_bound(c, cs);
    if n > 0 {
        let m = (n - 1) as nat;
        lemma_chunk_rows_applied(ch, dx, dy, dz, m, base, a, b, c);
        let z2 = m as int / cs;
        let y2 = m as int % cs;
        lemma_mod_bound(m as int, cs);
        assert(0 <= z2 < CHUNKSIZE);
        lemma_row_of_facts(ch, dx, dy, dz, z2, y2);
        let prev = rows_upto(ch, dx, dy, dz, m);
        let tail: Seq<Seq<CellVal>> = if line_nonempty(ch, z2, y2) {
            seq![row_of(ch, dx, dy, dz, z2, y2)]
        } else {
            Seq::empty()
        };
        assert(rows_upto(ch, dx, dy, dz, n) == prev + tail);
        lemma_applied_concat(prev, tail, base, a, b, c);
        let inner = applied_tile(prev, prev.len(), base, a, b, c);
        if line_nonempty(ch, z2, y2) {
            let rv = row_of(ch, dx, dy, dz, z2, y2);
            assert(tail[0] == rv);
            assert(applied_tile(tail, 0, inner, a, b, c) == inner);
            assert(applied_tile(tail, 1, inner, a, b, c) == (if row_covers(rv, a, b, c)
                && row_tile(rv, a - dx * cs) is Some {
                row_tile(rv, a - dx * cs)
            } else {
                inner
            }));
            if row_covers(rv, a, b, c) {
                lemma_fundamental_div_mod_converse(a, cs, dx, a - dx * cs);
                lemma_fundamental_div_mod_converse(b, cs, dy, y2);
                lemma_fundamental_div_mod_converse(c, cs, dz, z2);
                assert(a / cs == dx && a % cs == a - dx * cs);
                assert(b / cs == dy && b % cs == y2);
                assert(c / cs == dz && c % cs == z2);
                assert(row_tile(rv, a % cs) == ch.spec_tile(a % cs, y2, z2));
                assert((c % cs) * cs + (b % cs) == m);
            } else {
                if a / cs == dx && b / cs == dy && c / cs == dz && (c % cs) * cs + (b % cs) == m {
                    // the row does cover this position after all
                    assert(c % cs == z2 && b % cs == y2) by {
                        lemma_fundamental_div_mod_converse(
                            (c % cs) * cs + (b % cs),
                            cs,
                            c % cs,
                            b % cs,
                        );
                    }
                    assert(dx * cs <= a < dx * cs + cs) by {
                        vstd::arithmetic::div_mod::lemma_fundamental_div_mod(a, cs);
                    }
                    assert(b == dy * cs + y2) by {
                        vstd::arithmetic::div_mod::lemma_fundamental_div_mod(b, cs);
                    }
                    assert(c == dz * cs + z2) by {
                        vstd::arithmetic::div_mod::lemma_fundamental_div_mod(c, cs);
                    }
                    assert(row_covers(rv, a, b, c));
                    assert(false);
                }
            }
        } else {
            assert(rows_upto(ch, dx, dy, dz, n) =~= prev);
            if a / cs == dx && b / cs == dy && c / cs == dz && (c % cs) * cs + (b % cs) == m {
                assert(c % cs == z2 && b % cs == y2) by {
                    lemma_fundamental_div_mod_converse(
                        (c % cs) * cs + (b % cs),
                        cs,
                        c % cs,
                        b % cs,
                    );
                }
                assert(ch.spec_tile(a % cs, b % cs, c % cs) is None) by {
                    assert(!line_nonempty(ch, z2, y2));
                }
            }
        }
    }
}

/// Replaying the rows of the first `n` chunks of grid line `(cz, cy)`.
proof fn lemma_line_rows_applied(
    g: Seq<Vec<Vec<Chunk>>>,
    cz: int,
    cy: int,
    n: nat,
    base: Option<Tile>,
    a: int,
    b: int,
    c: int,
)
    requires
        grid_dims_ok(g),
        forall|i: int, j: int, k: int|
            grid_in_bounds(g, i, j, k) ==> (#[trigger] grid_chunk(g, i, j, k)).bounded(),
        0 <= cz < g.len(),
        0 <= cy < g[cz]@.len(),
        n <= g[cz]@[cy]@.len(),
    ensures
        applied_tile(
            line_chunks_rows(g, cz, cy, n),
            line_chunks_rows(g, cz, cy, n).len(),
            base,
            a,
            b,
            c,
        ) == (if encode(b / (CHUNKSIZE as int)) == cy && encode(c / (CHUNKSIZE as int)) == cz
            && encode(a / (CHUNKSIZE as int)) < n && grid_chunk(
            g,
            encode(a / (CHUNKSIZE as int)),
            cy,
            cz,
        ).spec_tile(a % (CHUNKSIZE as int), b % (CHUNKSIZE as int), c % (CHUNKSIZE as int))
            is Some {
            grid_chunk(g, encode(a / (CHUNKSIZE as int)), cy, cz).spec_tile(
                a % (CHUNKSIZE as int),
                b % (CHUNKSIZE as int),
                c % (CHUNKSIZE as int),
            )
        } else {
            base
        }),
        forall|i: int|
            0 <= i < line_chunks_rows(g, cz, cy, n).len() ==> table_row_ok(
                #[trigger] line_chunks_rows(g, cz, cy, n)[i],
            ),
    decreases n,
{
    let cs = CHUNKSIZE as int;
    if n > 0 {
        let m = (n - 1) as int;
        lemma_line_rows_applied(g, cz, cy, (n - 1) as nat, base, a, b, c);
        let prev = line_chunks_rows(g, cz, cy, (n - 1) as nat);
        let ch = grid_chunk(g, m, cy, cz);
        let tail = chunk_rows(ch, decode(m), decode(cy), decode(cz));
        lemma_applied_concat(prev, tail, base, a, b, c);
        lemma_decode_range(m);
        lemma_decode_range(cy);
        lemma_decode_range(cz);
        assert(ch.bounded()) by {
            assert(grid_in_bounds(g, m, cy, cz));
        }
        let inner = applied_tile(prev, prev.len(), base, a, b, c);
        lemma_chunk_rows_applied(
            ch,
            decode(m),
            decode(cy),
            decode(cz),
            (CHUNKSIZE * CHUNKSIZE) as nat,
            inner,
            a,
            b,
            c,
        );
        lemma_encode_decode(m);
        lemma_encode_decode(cy);
        lemma_encode_decode(cz);
        lemma_decode_encode(a / cs);
        lemma_decode_encode(b / cs);
        lemma_decode_encode(c / cs);
        lemma_mod_bound(b, cs);
        lemma_mod_bound(c, cs);
        assert((c % cs) * cs + (b % cs) < CHUNKSIZE * CHUNKSIZE);
    }
}

/// Replaying the rows of the first `n` lines of grid layer `cz`.
proof fn lemma_layer_rows_applied(
    g: Seq<Vec<Vec<Chunk>>>,
    cz: int,
    n: nat,
    base: Option<Tile>,
    a: int,
    b: int,
    c: int,
)
    requires
        grid_dims_ok(g),
        forall|i: int, j: int, k: int|
            grid_in_bounds(g, i, j, k) ==> (#[trigger] grid_chunk(g, i, j, k)).bounded(),
        0 <= cz < g.len(),
        n <= g[cz]@.len(),
    ensures
        applied_tile(
            layer_chunks_rows(g, cz, n),
            layer_chunks_rows(g, cz, n).len(),
            base,
            a,
            b,
            c,
        ) == (if encode(c / (CHUNKSIZE as int)) == cz && encode(b / (CHUNKSIZE as int)) < n
            && grid_in_bounds(
            g,
            encode(a / (CHUNKSIZE as int)),
            encode(b / (CHUNKSIZE as int)),
            cz,
        ) && grid_chunk(g, encode(a / (CHUNKSIZE as int)), encode(b / (CHUNKSIZE as int)), cz)
            .spec_tile(a % (CHUNKSIZE as int), b % (CHUNKSIZE as int), c % (CHUNKSIZE as int))
            is Some {
            grid_chunk(g, encode(a / (CHUNKSIZE as int)), encode(b / (CHUNKSIZE as int)), cz)
                .spec_tile(a % (CHUNKSIZE as int), b % (CHUNKSIZE as int), c % (CHUNKSIZE as int))
        } else {
            base
        }),
        forall|i: int|
            0 <= i < layer_chunks_rows(g, cz, n).len() ==> table_row_ok(
                #[trigger] layer_chunks_rows(g, cz, n)[i],
            ),
    decreases n,
{
    if n > 0 {
        let m = (n - 1) as int;
        lemma_layer_rows_applied(g, cz, (n - 1) as nat, base, a, b, c);
        let prev = layer_chunks_rows(g, cz, (n - 1) as nat);
        let tail = line_chunks_rows(g, cz, m, g[cz]@[m]@.len());
        lemma_applied_concat(prev, tail, base, a, b, c);
        let inner = applied_tile(prev, prev.len(), base, a, b, c);
        lemma_line_rows_applied(g, cz, m, g[cz]@[m]@.len(), inner, a, b, c);
    }
}

/// Replaying the rows of the first `n` layers of the grid.
proof fn lemma_world_rows_applied(
    g: Seq<Vec<Vec<Chunk>>>,
    n: nat,
    base: Option<Tile>,
    a: int,
    b: int,
    c: int,
)
    requires
        grid_dims_ok(g),
        forall|i: int, j: int, k: int|
            grid_in_bounds(g, i, j, k) ==> (#[trigger] grid_chunk(g, i, j, k)).bounded(),
        n <= g.len(),
    ensures
        applied_tile(world_rows_upto(g, n), world_rows_upto(g, n).len(), base, a, b, c) == (if
            encode(c / (CHUNKSIZE as int)) < n && grid_in_bounds(
            g,
            encode(a / (CHUNKSIZE as int)),
            encode(b / (CHUNKSIZE as int)),
            encode(c / (CHUNKSIZE as int)),
        ) && grid_chunk(
            g,
            encode(a / (CHUNKSIZE as int)),
            encode(b / (CHUNKSIZE as int)),
            encode(c / (CHUNKSIZE as int)),
        ).spec_tile(a % (CHUNKSIZE as int), b % (CHUNKSIZE as int), c % (CHUNKSIZE as int))
            is Some {
            grid_chunk(
                g,
                encode(a / (CHUNKSIZE as int)),
                encode(b / (CHUNKSIZE as int)),
                encode(c / (CHUNKSIZE as int)),
            ).spec_tile(a % (CHUNKSIZE as int), b % (CHUNKSIZE as int), c % (CHUNKSIZE as int))
        } else {
            base
        }),
        forall|i: int|
            0 <= i < world_rows_upto(g, n).len() ==> table_row_ok(
                #[trigger] world_rows_upto(g, n)[i],
            ),
    decreases n,
{
    if n > 0 {
        let m = (n - 1) as int;
        lemma_world_rows_applied(g, (n - 1) as nat, base, a, b, c);
        let prev = world_rows_upto(g, (n - 1) as nat);
        let tail = layer_chunks_rows(g, m, g[m]@.len());
        lemma_applied_concat(prev, tail, base, a, b, c);
        let inner = applied_tile(prev, prev.len(), base, a, b, c);
        lemma_layer_rows_applied(g, m, g[m]@.len(), inner, a, b, c);
    }
}

/// Persistence round trip: every row `store` emits for a well-formed world
/// is a table row that parses, and replaying the full output into an empty
/// world reproduces the stored explicit tiles at every world position.
pub proof fn lemma_persistence_round_trip(m: World, a: int, b: int, c: int)
    requires
        m.wf(),
    ensures
        applied_tile(
            world_rows(m.chunks_modified@),
            world_rows(m.chunks_modified@).len(),
            None,
            a,
            b,
            c,
        ) == m.modified_tile(a, b, c),
        forall|i: int|
            0 <= i < world_rows(m.chunks_modified@).len() ==> table_row_ok(
                #[trigger] world_rows(m.chunks_modified@)[i],
            ),
{
    let g = m.chunks_modified@;
    lemma_world_rows_applied(g, g.len(), None, a, b, c);
    let cs = CHUNKSIZE as int;
    let ca = encode(a / cs);
    let cb = encode(b / cs);
    let cc = encode(c / cs);
    crate::codec::lemma_decode_encode(c / cs);
    if grid_in_bounds(g, ca, cb, cc) {
        assert(cc < g.len());
    }
}

} // verus!
