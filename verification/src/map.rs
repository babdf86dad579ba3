//! The world map: two parallel chunk grids and the terrain composer.
//!
//! A `World` owns two independent growable 3D grids of chunks, indexed by
//! zigzag-encoded chunk coordinates: `chunks_modified` holds explicit
//! edits and is authoritative, `chunks_generated` memoizes procedural
//! terrain. A lookup consults the edits first and falls back to the
//! generated terrain; a chunk of terrain is composed at most once from the
//! integer noise buffers handed in by the caller and then cached for the
//! life of the map. Editing never touches the generated grid, and
//! generation never touches the edits.

use vstd::prelude::*;

use crate::cell::Cell;
use crate::cell::CellVal;
use crate::cell::DataError;
use crate::cell::cells_view;
use crate::cell::rows_view;
use crate::chunk::Chunk;
use crate::chunk::chunk_rows;
use crate::chunk::row_check;
use crate::chunk::row_error;
use crate::chunk::row_parses;
use crate::chunk::row_tile;
use crate::chunk::row_y;
use crate::chunk::row_z;
use crate::chunk::cell_int;
use crate::codec::CHUNKSIZE;
use crate::codec::chunkify;
use crate::codec::decode;
use crate::codec::encode;
use crate::codec::i_to_u;
use crate::codec::lemma_chunkify_round_trip;
use crate::codec::lemma_decode_encode;
use crate::codec::u_to_i;
use crate::image::GRASS;
use crate::image::IMAGES_X;
use crate::image::MultiImage;
use crate::noise::ChunkNoise;
use crate::noise::compose;
use crate::noise::gen_tile;
use crate::noise::ore_count;
use crate::image::COPPER;
use crate::image::GOLD;
use crate::image::IRON;
use crate::tile::Tile;

verus! {

/// The volume of one chunk in cells, the most any single generation step
/// can add to a discovered-ore tally.
pub const CHUNK_VOLUME: usize = CHUNKSIZE * CHUNKSIZE * CHUNKSIZE;

/// Whether encoded chunk coordinates fall inside a grid's current extent.
pub open spec fn grid_in_bounds(g: Seq<Vec<Vec<Chunk>>>, cx: int, cy: int, cz: int) -> bool {
    0 <= cz < g.len() && 0 <= cy < g[cz]@.len() && 0 <= cx < g[cz]@[cy]@.len()
}

/// The chunk stored at encoded chunk coordinates.
pub open spec fn grid_chunk(g: Seq<Vec<Vec<Chunk>>>, cx: int, cy: int, cz: int) -> Chunk
    recommends
        grid_in_bounds(g, cx, cy, cz),
{
    g[cz]@[cy]@[cx]
}

/// The tile a grid records at encoded chunk coordinates and a local
/// offset, `None` outside the grid's extent.
pub open spec fn grid_tile(
    g: Seq<Vec<Vec<Chunk>>>,
    cx: int,
    cy: int,
    cz: int,
    lx: int,
    ly: int,
    lz: int,
) -> Option<Tile> {
    if grid_in_bounds(g, cx, cy, cz) {
        grid_chunk(g, cx, cy, cz).spec_tile(lx, ly, lz)
    } else {
        None
    }
}

/// Every axis of the grid stays within the range that decoded chunk
/// coordinates can express.
pub open spec fn grid_dims_ok(g: Seq<Vec<Vec<Chunk>>>) -> bool {
    &&& g.len() <= 0x1_0000_0000
    &&& forall|cz: int| 0 <= cz < g.len() ==> (#[trigger] g[cz])@.len() <= 0x1_0000_0000
    &&& forall|cz: int, cy: int|
        0 <= cz < g.len() && 0 <= cy < g[cz]@.len() ==> (#[trigger] g[cz]@[cy])@.len()
            <= 0x1_0000_0000
}

/// The world x coordinate where sprite `id` of a composite lands when the
/// composite is placed centered on world x coordinate `x`.
pub open spec fn multi_cell_x(m: MultiImage, x: int, id: u16) -> int {
    x - m.size_x as int / 2 + id as int % (IMAGES_X as int) - m.min_x as int
}

/// The world y coordinate where sprite `id` of a composite lands when the
/// composite is placed centered on world y coordinate `y`.
pub open spec fn multi_cell_y(m: MultiImage, y: int, id: u16) -> int {
    y - m.size_y as int / 2 + id as int / (IMAGES_X as int) - m.min_y as int
}

/// The tile the first `k` sprites of a composite place at world position
/// `(a, b, c)` when the composite is placed at `(x, y, z)`; sprites listed
/// later override earlier ones.
pub open spec fn placed_tile(
    m: MultiImage,
    x: int,
    y: int,
    z: int,
    a: int,
    b: int,
    c: int,
    k: nat,
) -> Option<Tile>
    decreases k,
{
    if k == 0 {
        None
    } else {
        let id = m.image_ids@[k - 1];
        if a == multi_cell_x(m, x, id) && b == multi_cell_y(m, y, id) && c == z {
            Some(Tile { bg: Some(GRASS), fg: Some(id) })
        } else {
            placed_tile(m, x, y, z, a, b, c, (k - 1) as nat)
        }
    }
}

pub struct World {
    /// Explicit user edits, authoritative over generated terrain.
    pub chunks_modified: Vec<Vec<Vec<Chunk>>>,
    /// Memoized procedural terrain, a cache keyed like `chunks_modified`.
    pub chunks_generated: Vec<Vec<Vec<Chunk>>>,
    /// Tally of iron cells discovered by generation, reset by its reader.
    pub iron_ore_count: usize,
    /// Tally of copper cells discovered by generation.
    pub copper_ore_count: usize,
    /// Tally of gold cells discovered by generation.
    pub gold_ore_count: usize,
}

impl World {
    /// The explicit edit recorded at a world position, if any.
    pub open spec fn modified_tile(self, x: int, y: int, z: int) -> Option<Tile> {
        grid_tile(
            self.chunks_modified@,
            encode(x / (CHUNKSIZE as int)),
            encode(y / (CHUNKSIZE as int)),
            encode(z / (CHUNKSIZE as int)),
            x % (CHUNKSIZE as int),
            y % (CHUNKSIZE as int),
            z % (CHUNKSIZE as int),
        )
    }

    /// The memoized generated tile at a world position, if its chunk was
    /// ever generated.
    pub open spec fn generated_tile(self, x: int, y: int, z: int) -> Option<Tile> {
        grid_tile(
            self.chunks_generated@,
            encode(x / (CHUNKSIZE as int)),
            encode(y / (CHUNKSIZE as int)),
            encode(z / (CHUNKSIZE as int)),
            x % (CHUNKSIZE as int),
            y % (CHUNKSIZE as int),
            z % (CHUNKSIZE as int),
        )
    }

    /// Whether the generated chunk holding a world position has been
    /// computed already.
    pub open spec fn generated_present(self, x: int, y: int, z: int) -> bool {
        let cx = encode(x / (CHUNKSIZE as int));
        let cy = encode(y / (CHUNKSIZE as int));
        let cz = encode(z / (CHUNKSIZE as int));
        grid_in_bounds(self.chunks_generated@, cx, cy, cz) && grid_chunk(
            self.chunks_generated@,
            cx,
            cy,
            cz,
        ).tiles@.len() != 0
    }

    /// What a lookup at a world position sees: the explicit edit if one
    /// exists, else the memoized generated tile if its chunk was computed.
    pub open spec fn lookup(self, x: int, y: int, z: int) -> Option<Tile> {
        match self.modified_tile(x, y, z) {
            Some(t) => Some(t),
            None => self.generated_tile(x, y, z),
        }
    }

    /// Structural invariant: both grids stay within addressable bounds,
    /// every edited chunk keeps its data inside the chunk edge length, and
    /// every generated chunk is either untouched or fully populated.
    pub open spec fn wf(self) -> bool {
        &&& grid_dims_ok(self.chunks_modified@)
        &&& grid_dims_ok(self.chunks_generated@)
        &&& forall|cx: int, cy: int, cz: int|
            grid_in_bounds(self.chunks_modified@, cx, cy, cz) ==> (#[trigger] grid_chunk(
                self.chunks_modified@,
                cx,
                cy,
                cz,
            )).bounded()
        &&& forall|cx: int, cy: int, cz: int|
            grid_in_bounds(self.chunks_generated@, cx, cy, cz) ==> ((#[trigger] grid_chunk(
                self.chunks_generated@,
                cx,
                cy,
                cz,
            )).tiles@.len() == 0 || grid_chunk(self.chunks_generated@, cx, cy, cz).full())
    }

    /// An empty world: no edits, no generated terrain, all tallies zero.
    pub fn new() -> (m: World)
        ensures
            m.wf(),
            m.chunks_modified@.len() == 0,
            m.chunks_generated@.len() == 0,
            forall|x: int, y: int, z: int| #[trigger] m.modified_tile(x, y, z) is None,
            forall|x: int, y: int, z: int| #[trigger] m.generated_tile(x, y, z) is None,
            forall|x: int, y: int, z: int| !(#[trigger] m.generated_present(x, y, z)),
            m.iron_ore_count == 0,
            m.copper_ore_count == 0,
            m.gold_ore_count == 0,
    {
        World {
            chunks_modified: Vec::new(),
            chunks_generated: Vec::new(),
            iron_ore_count: 0,
            copper_ore_count: 0,
            gold_ore_count: 0,
        }
    }

    /// Record an explicit edit at a world position. Edits only ever touch
    /// the modified grid; generated terrain and the ore tallies stay as
    /// they are.
    pub fn set(&mut self, x: i32, y: i32, z: i32, tile: Tile)
        requires
            old(self).wf(),
        ensures
            final(self).wf(),
            forall|a: int, b: int, c: int|
                #[trigger] final(self).modified_tile(a, b, c) == (if a == x && b == y && c == z {
                    Some(tile)
                } else {
                    old(self).modified_tile(a, b, c)
                }),
            forall|a: int, b: int, c: int|
                #[trigger] final(self).generated_tile(a, b, c) == old(self).generated_tile(a, b, c),
            forall|a: int, b: int, c: int|
                #[trigger] final(self).generated_present(a, b, c) == old(self).generated_present(
                    a,
                    b,
                    c,
                ),
            final(self).iron_ore_count == old(self).iron_ore_count,
            final(self).copper_ore_count == old(self).copper_ore_count,
            final(self).gold_ore_count == old(self).gold_ore_count,
    {
        let (cx, lx) = chunkify(x);
        let (cy, ly) = chunkify(y);
        let (cz, lz) = chunkify(z);
        ensure_chunk(&mut self.chunks_modified, cx, cy, cz);
        let ghost mid = self.chunks_modified@;
        proof {
            assert(grid_chunk(mid, cx as int, cy as int, cz as int).bounded()) by {
                if !grid_in_bounds(old(self).chunks_modified@, cx as int, cy as int, cz as int) {
                    assert(grid_chunk(mid, cx as int, cy as int, cz as int).tiles@.len() == 0);
                }
            }
        }
        let chunk = &mut self.chunks_modified[cz][cy][cx];
        chunk.set(lx, ly, lz, tile);
        proof {
            lemma_grid_set(
                mid,
                self.chunks_modified@,
                old(self).chunks_modified@,
                cx as int,
                cy as int,
                cz as int,
                lx as int,
                ly as int,
                lz as int,
                x as int,
                y as int,
                z as int,
                tile,
            );
            let g = self.chunks_modified@;
            assert(grid_dims_ok(g)) by {
                assert forall|c: int| 0 <= c < g.len() implies (#[trigger] g[c])@.len()
                    <= 0x1_0000_0000 by {
                    if c != cz {
                        assert(g[c] == mid[c]);
                    }
                }
                assert forall|c: int, b: int|
                    0 <= c < g.len() && 0 <= b < g[c]@.len() implies (#[trigger] g[c]@[b])@.len()
                    <= 0x1_0000_0000 by {
                    if c != cz {
                        assert(g[c] == mid[c]);
                    } else if b != cy {
                        assert(g[c]@[b] == mid[c]@[b]);
                    }
                }
            }
            assert forall|a: int, b: int, c: int|
                grid_in_bounds(g, a, b, c) implies (#[trigger] grid_chunk(g, a, b, c)).bounded() by {
                if a == cx && b == cy && c == cz {
                } else {
                    assert(grid_chunk(g, a, b, c) == grid_chunk(mid, a, b, c)) by {
                        if c != cz {
                            assert(g[c] == mid[c]);
                        } else if b != cy {
                            assert(g[c]@[b] == mid[c]@[b]);
                        } else {
                            assert(g[c]@[b]@[a] == mid[c]@[b]@[a]);
                        }
                    }
                    assert(grid_in_bounds(mid, a, b, c)) by {
                        if c != cz {
                            assert(g[c] == mid[c]);
                        } else if b != cy {
                            assert(g[c]@[b] == mid[c]@[b]);
                        }
                    }
                    if !grid_in_bounds(old(self).chunks_modified@, a, b, c) {
                        assert(grid_chunk(mid, a, b, c).tiles@.len() == 0);
                    }
                }
            }
        }
    }

    /// The tile a lookup sees without generating anything: the explicit
    /// edit if one exists, else the memoized generated tile, else `None`
    /// when the position's chunk was never generated.
    pub fn get_cached(&self, x: i32, y: i32, z: i32) -> (r: Option<Tile>)
        ensures
            r == self.lookup(x as int, y as int, z as int),
    {
        let (cx, lx) = chunkify(x);
        let (cy, ly) = chunkify(y);
        let (cz, lz) = chunkify(z);
        if cz < self.chunks_modified.len() && cy < self.chunks_modified[cz].len() && cx
            < self.chunks_modified[cz][cy].len() {
            if let Some(t) = self.chunks_modified[cz][cy][cx].get(lx, ly, lz) {
                return Some(t);
            }
        }
        if cz < self.chunks_generated.len() && cy < self.chunks_generated[cz].len() && cx
            < self.chunks_generated[cz][cy].len() {
            if let Some(t) = self.chunks_generated[cz][cy][cx].get(lx, ly, lz) {
                return Some(t);
            }
        }
        None
    }

    /// Terrain lookup at a world position. An explicit edit always wins;
    /// otherwise the memoized generated tile is returned, and a chunk that
    /// was never generated is first composed from `noise`, cached, and its
    /// discovered ore added to the tallies. The caller supplies the noise
    /// buffers sampled for the chunk holding the position.
    pub fn get(&mut self, x: i32, y: i32, z: i32, noise: &ChunkNoise) -> (t: Tile)
        requires
            old(self).wf(),
            noise.wf(),
            old(self).iron_ore_count + CHUNK_VOLUME <= usize::MAX,
            old(self).copper_ore_count + CHUNK_VOLUME <= usize::MAX,
            old(self).gold_ore_count + CHUNK_VOLUME <= usize::MAX,
        ensures
            final(self).wf(),
            final(self).lookup(x as int, y as int, z as int) == Some(t),
            forall|a: int, b: int, c: int|
                #[trigger] final(self).modified_tile(a, b, c) == old(self).modified_tile(a, b, c),
            old(self).modified_tile(x as int, y as int, z as int) is Some ==> Some(t) == old(
                self,
            ).modified_tile(x as int, y as int, z as int) && *final(self) == *old(self),
            old(self).modified_tile(x as int, y as int, z as int) is None && old(
                self,
            ).generated_present(x as int, y as int, z as int) ==> Some(t) == old(
                self,
            ).generated_tile(x as int, y as int, z as int) && *final(self) == *old(self),
            old(self).modified_tile(x as int, y as int, z as int) is None && !old(
                self,
            ).generated_present(x as int, y as int, z as int) ==> {
                &&& t == gen_tile(
                    *noise,
                    z as int / (CHUNKSIZE as int),
                    x as int % (CHUNKSIZE as int),
                    y as int % (CHUNKSIZE as int),
                    z as int % (CHUNKSIZE as int),
                )
                &&& forall|a: int, b: int, c: int|
                    #[trigger] final(self).generated_tile(a, b, c) == (if a / (CHUNKSIZE as int)
                        == x as int / (CHUNKSIZE as int) && b / (CHUNKSIZE as int) == y as int / (
                    CHUNKSIZE as int) && c / (CHUNKSIZE as int) == z as int / (CHUNKSIZE as int) {
                        Some(
                            gen_tile(
                                *noise,
                                z as int / (CHUNKSIZE as int),
                                a % (CHUNKSIZE as int),
                                b % (CHUNKSIZE as int),
                                c % (CHUNKSIZE as int),
                            ),
                        )
                    } else {
                        old(self).generated_tile(a, b, c)
                    })
                &&& final(self).iron_ore_count == old(self).iron_ore_count + ore_count(
                    *noise,
                    z as int / (CHUNKSIZE as int),
                    IRON,
                    (CHUNKSIZE * CHUNKSIZE * CHUNKSIZE) as nat,
                )
                &&& final(self).copper_ore_count == old(self).copper_ore_count + ore_count(
                    *noise,
                    z as int / (CHUNKSIZE as int),
                    COPPER,
                    (CHUNKSIZE * CHUNKSIZE * CHUNKSIZE) as nat,
                )
                &&& final(self).gold_ore_count == old(self).gold_ore_count + ore_count(
                    *noise,
                    z as int / (CHUNKSIZE as int),
                    GOLD,
                    (CHUNKSIZE * CHUNKSIZE * CHUNKSIZE) as nat,
                )
            },
    {
        let (cx, lx) = chunkify(x);
        let (cy, ly) = chunkify(y);
        let (cz, lz) = chunkify(z);
        if cz < self.chunks_modified.len() && cy < self.chunks_modified[cz].len() && cx
            < self.chunks_modified[cz][cy].len() {
            if let Some(t) = self.chunks_modified[cz][cy][cx].get(lx, ly, lz) {
                return t;
            }
        }
        if cz < self.chunks_generated.len() && cy < self.chunks_generated[cz].len() && cx
            < self.chunks_generated[cz][cy].len() {
            let chunk = &self.chunks_generated[cz][cy][cx];
            if chunk.has_data() {
                proof {
                    assert(grid_chunk(
                        self.chunks_generated@,
                        cx as int,
                        cy as int,
                        cz as int,
                    ).full());
                }
                let r = chunk.get(lx, ly, lz);
                return r.unwrap();
            }
        }
        ensure_chunk(&mut self.chunks_generated, cx, cy, cz);
        let ghost mid = self.chunks_generated@;
        proof {
            lemma_decode_encode(z as int / (CHUNKSIZE as int));
        }
        let dz = u_to_i(cz);
        let (tiles, di, dc, dg) = compose(noise, dz);
        let chunk = &mut self.chunks_generated[cz][cy][cx];
        chunk.tiles = tiles;
        self.iron_ore_count = self.iron_ore_count + di;
        self.copper_ore_count = self.copper_ore_count + dc;
        self.gold_ore_count = self.gold_ore_count + dg;
        proof {
            lemma_grid_gen(
                mid,
                self.chunks_generated@,
                old(self).chunks_generated@,
                *noise,
                cx as int,
                cy as int,
                cz as int,
                x as int,
                y as int,
                z as int,
            );
            assert(self.wf()) by {
                let g = self.chunks_generated@;
                assert(grid_dims_ok(g)) by {
                    assert forall|c: int| 0 <= c < g.len() implies (#[trigger] g[c])@.len()
                        <= 0x1_0000_0000 by {
                        if c != cz {
                            assert(g[c] == mid[c]);
                        }
                    }
                    assert forall|c: int, b: int|
                        0 <= c < g.len() && 0 <= b < g[c]@.len() implies (
                    #[trigger] g[c]@[b])@.len() <= 0x1_0000_0000 by {
                        if c != cz {
                            assert(g[c] == mid[c]);
                        } else if b != cy {
                            assert(g[c]@[b] == mid[c]@[b]);
                        }
                    }
                }
                assert forall|a: int, b: int, c: int|
                    grid_in_bounds(g, a, b, c) implies ((#[trigger] grid_chunk(
                    g,
                    a,
                    b,
                    c,
                )).tiles@.len() == 0 || grid_chunk(g, a, b, c).full()) by {
                    if a == cx && b == cy && c == cz {
                        assert(grid_chunk(g, a, b, c).full());
                    } else {
                        assert(grid_chunk(g, a, b, c) == grid_chunk(mid, a, b, c)) by {
                            if c != cz {
                                assert(g[c] == mid[c]);
                            } else if b != cy {
                                assert(g[c]@[b] == mid[c]@[b]);
                            } else {
                                assert(g[c]@[b]@[a] == mid[c]@[b]@[a]);
                            }
                        }
                        assert(grid_in_bounds(mid, a, b, c)) by {
                            if c != cz {
                                assert(g[c] == mid[c]);
                            } else if b != cy {
                                assert(g[c]@[b] == mid[c]@[b]);
                            }
                        }
                        if !grid_in_bounds(old(self).chunks_generated@, a, b, c) {
                            assert(grid_chunk(mid, a, b, c).tiles@.len() == 0);
                        }
                    }
                }
            }
        }
        let r = self.chunks_generated[cz][cy][cx].get(lx, ly, lz);
        r.unwrap()
    }

    /// Place a multi-cell composite image as explicit edits: the set of
    /// sprite offsets is centered on `(x, y)`, and each constituent sprite
    /// becomes a grass tile with that sprite in the foreground. Sprites
    /// listed later win where the composite overlaps itself.
    pub fn set_multi_fg(&mut self, x: i32, y: i32, z: i32, multi_image: MultiImage)
        requires
            old(self).wf(),
            forall|k: int|
                0 <= k < multi_image.image_ids@.len() ==> i32::MIN <= multi_cell_x(
                    multi_image,
                    x as int,
                    #[trigger] multi_image.image_ids@[k],
                ) <= i32::MAX && i32::MIN <= multi_cell_y(
                    multi_image,
                    y as int,
                    multi_image.image_ids@[k],
                ) <= i32::MAX,
        ensures
            final(self).wf(),
            forall|a: int, b: int, c: int|
                #[trigger] final(self).modified_tile(a, b, c) == (match placed_tile(
                    multi_image,
                    x as int,
                    y as int,
                    z as int,
                    a,
                    b,
                    c,
                    multi_image.image_ids@.len(),
                ) {
                    Some(t) => Some(t),
                    None => old(self).modified_tile(a, b, c),
                }),
            forall|a: int, b: int, c: int|
                #[trigger] final(self).generated_tile(a, b, c) == old(self).generated_tile(a, b, c),
            forall|a: int, b: int, c: int|
                #[trigger] final(self).generated_present(a, b, c) == old(self).generated_present(
                    a,
                    b,
                    c,
                ),
            final(self).iron_ore_count == old(self).iron_ore_count,
            final(self).copper_ore_count == old(self).copper_ore_count,
            final(self).gold_ore_count == old(self).gold_ore_count,
    {
        let dx = (multi_image.size_x / 2) as i64;
        let dy = (multi_image.size_y / 2) as i64;
        let mut k: usize = 0;
        while k < multi_image.image_ids.len()
            invariant
                self.wf(),
                dx == multi_image.size_x as int / 2,
                dy == multi_image.size_y as int / 2,
                k <= multi_image.image_ids@.len(),
                forall|j: int|
                    0 <= j < multi_image.image_ids@.len() ==> i32::MIN <= multi_cell_x(
                        multi_image,
                        x as int,
                        #[trigger] multi_image.image_ids@[j],
                    ) <= i32::MAX && i32::MIN <= multi_cell_y(
                        multi_image,
                        y as int,
                        multi_image.image_ids@[j],
                    ) <= i32::MAX,
                forall|a: int, b: int, c: int|
                    #[trigger] self.modified_tile(a, b, c) == (match placed_tile(
                        multi_image,
                        x as int,
                        y as int,
                        z as int,
                        a,
                        b,
                        c,
                        k as nat,
                    ) {
                        Some(t) => Some(t),
                        None => old(self).modified_tile(a, b, c),
                    }),
                forall|a: int, b: int, c: int|
                    #[trigger] self.generated_tile(a, b, c) == old(self).generated_tile(a, b, c),
                forall|a: int, b: int, c: int|
                    #[trigger] self.generated_present(a, b, c) == old(self).generated_present(
                        a,
                        b,
                        c,
                    ),
                self.iron_ore_count == old(self).iron_ore_count,
                self.copper_ore_count == old(self).copper_ore_count,
                self.gold_ore_count == old(self).gold_ore_count,
            decreases multi_image.image_ids@.len() - k,
        {
            let id = multi_image.image_ids[k];
            let image_x = (id % IMAGES_X) as i64;
            let image_y = (id / IMAGES_X) as i64;
            let px = x as i64 - dx + image_x - multi_image.min_x as i64;
            let py = y as i64 - dy + image_y - multi_image.min_y as i64;
            proof {
                assert(px == multi_cell_x(multi_image, x as int, id));
                assert(py == multi_cell_y(multi_image, y as int, id));
            }
            let tile = Tile { bg: Some(GRASS), fg: Some(id) };
            self.set(px as i32, py as i32, z, tile);
            k = k + 1;
        }
    }

    /// Serialize every edited chunk into persisted rows, chunk by chunk in
    /// grid order; generated terrain is never persisted. Each chunk writes
    /// one row per `(z, y)` line that holds at least one tile.
    pub fn store(&self) -> (rows: Vec<Vec<Cell>>)
        requires
            self.wf(),
        ensures
            rows_view(rows@) == world_rows(self.chunks_modified@),
    {
        let ghost g = self.chunks_modified@;
        let mut rows: Vec<Vec<Cell>> = Vec::new();
        proof {
            assert(rows_view(rows@) =~= world_rows_upto(g, 0));
        }
        let mut cz: usize = 0;
        while cz < self.chunks_modified.len()
            invariant
                self.wf(),
                g == self.chunks_modified@,
                cz <= g.len(),
                rows_view(rows@) == world_rows_upto(g, cz as nat),
            decreases g.len() - cz,
        {
            let dz = u_to_i(cz);
            let mut cy: usize = 0;
            while cy < self.chunks_modified[cz].len()
                invariant
                    self.wf(),
                    g == self.chunks_modified@,
                    cz < g.len(),
                    dz == decode(cz as int),
                    cy <= g[cz as int]@.len(),
                    rows_view(rows@) == world_rows_upto(g, cz as nat) + layer_chunks_rows(
                        g,
                        cz as int,
                        cy as nat,
                    ),
                decreases g[cz as int]@.len() - cy,
            {
                let dy = u_to_i(cy);
                let mut cx: usize = 0;
                while cx < self.chunks_modified[cz][cy].len()
                    invariant
                        self.wf(),
                        g == self.chunks_modified@,
                        cz < g.len(),
                        cy < g[cz as int]@.len(),
                        dz == decode(cz as int),
                        dy == decode(cy as int),
                        cx <= g[cz as int]@[cy as int]@.len(),
                        rows_view(rows@) == world_rows_upto(g, cz as nat) + layer_chunks_rows(
                            g,
                            cz as int,
                            cy as nat,
                        ) + line_chunks_rows(g, cz as int, cy as int, cx as nat),
                    decreases g[cz as int]@[cy as int]@.len() - cx,
                {
                    let dx = u_to_i(cx);
                    let ghost pre = rows@;
                    self.chunks_modified[cz][cy][cx].store(&mut rows, dx, dy, dz);
                    proof {
                        assert(rows_view(rows@) =~= rows_view(pre) + chunk_rows_at(
                            g,
                            cx as int,
                            cy as int,
                            cz as int,
                        ));
                        assert(rows_view(rows@) =~= world_rows_upto(g, cz as nat)
                            + layer_chunks_rows(g, cz as int, cy as nat) + line_chunks_rows(
                            g,
                            cz as int,
                            cy as int,
                            (cx + 1) as nat,
                        ));
                    }
                    cx = cx + 1;
                }
                proof {
                    assert(rows_view(rows@) =~= world_rows_upto(g, cz as nat) + layer_chunks_rows(
                        g,
                        cz as int,
                        (cy + 1) as nat,
                    ));
                }
                cy = cy + 1;
            }
            proof {
                assert(rows_view(rows@) =~= world_rows_upto(g, (cz + 1) as nat));
            }
            cz = cz + 1;
        }
        rows
    }

    /// Replay a persisted table into the edited grid, merging with any
    /// edits already present; later rows win where rows overlap. The whole
    /// table is validated before anything is written, so the load is
    /// all-or-nothing: the first malformed row aborts it with a
    /// data-format error and the world is left untouched.
    pub fn parse_table(&mut self, rows: &Vec<Vec<Cell>>) -> (r: Result<(), DataError>)
        requires
            old(self).wf(),
        ensures
            final(self).wf(),
            r is Ok <==> (forall|i: int|
                0 <= i < rows@.len() ==> table_row_ok(#[trigger] rows_view(rows@)[i])),
            r is Err ==> *final(self) == *old(self),
            r is Err ==> exists|i: int|
                0 <= i < rows@.len() && !table_row_ok(#[trigger] rows_view(rows@)[i]) && r->Err_0
                    == table_row_error(rows_view(rows@)[i]) && (forall|j: int|
                    0 <= j < i ==> table_row_ok(rows_view(rows@)[j])),
            r is Ok ==> forall|a: int, b: int, c: int|
                #[trigger] final(self).modified_tile(a, b, c) == applied_tile(
                    rows_view(rows@),
                    rows@.len(),
                    old(self).modified_tile(a, b, c),
                    a,
                    b,
                    c,
                ),
            forall|a: int, b: int, c: int|
                #[trigger] final(self).generated_tile(a, b, c) == old(self).generated_tile(a, b, c),
            forall|a: int, b: int, c: int|
                #[trigger] final(self).generated_present(a, b, c) == old(self).generated_present(
                    a,
                    b,
                    c,
                ),
            final(self).iron_ore_count == old(self).iron_ore_count,
            final(self).copper_ore_count == old(self).copper_ore_count,
            final(self).gold_ore_count == old(self).gold_ore_count,
    {
        let ghost rvs = rows_view(rows@);
        let mut i: usize = 0;
        while i < rows.len()
            invariant
                *self == *old(self),
                old(self).wf(),
                rvs == rows_view(rows@),
                i <= rows@.len(),
                forall|j: int| 0 <= j < i ==> table_row_ok(#[trigger] rvs[j]),
            decreases rows@.len() - i,
        {
            let row = &rows[i];
            proof {
                assert(rvs[i as int] == cells_view(row@));
            }
            if let Err(e) = check_table_coords(row) {
                return Err(e);
            }
            if let Err(e) = row_check(row) {
                return Err(e);
            }
            proof {
                assert(table_row_ok(rvs[i as int]));
            }
            i = i + 1;
        }
        let mut k: usize = 0;
        while k < rows.len()
            invariant
                self.wf(),
                rvs == rows_view(rows@),
                k <= rows@.len(),
                forall|j: int| 0 <= j < rows@.len() ==> table_row_ok(#[trigger] rvs[j]),
                forall|a: int, b: int, c: int|
                    #[trigger] self.modified_tile(a, b, c) == applied_tile(
                        rvs,
                        k as nat,
                        old(self).modified_tile(a, b, c),
                        a,
                        b,
                        c,
                    ),
                self.chunks_generated == old(self).chunks_generated,
                self.iron_ore_count == old(self).iron_ore_count,
                self.copper_ore_count == old(self).copper_ore_count,
                self.gold_ore_count == old(self).gold_ore_count,
            decreases rows@.len() - k,
        {
            let row = &rows[k];
            proof {
                assert(rvs[k as int] == cells_view(row@));
                assert(table_row_ok(rvs[k as int]));
            }
            let (cxv, cyv, czv) = match check_table_coords(row) {
                Ok(t) => t,
                Err(_) => {
                    proof {
                        assert(false);
                    }
                    return Err(DataError::MalformedRow);
                },
            };
            let ccx = i_to_u(cxv);
            let ccy = i_to_u(cyv);
            let ccz = i_to_u(czv);
            let ghost pre_grid = self.chunks_modified@;
            let ghost pre_self = *self;
            ensure_chunk(&mut self.chunks_modified, ccx, ccy, ccz);
            let ghost mid = self.chunks_modified@;
            proof {
                assert(grid_chunk(mid, ccx as int, ccy as int, ccz as int).bounded()) by {
                    if !grid_in_bounds(pre_grid, ccx as int, ccy as int, ccz as int) {
                        assert(grid_chunk(mid, ccx as int, ccy as int, ccz as int).tiles@.len()
                            == 0);
                    }
                }
            }
            let chunk = &mut self.chunks_modified[ccz][ccy][ccx];
            let res = chunk.parse_row(row);
            if let Err(_) = res {
                proof {
                    assert(false);
                }
                return Err(DataError::MalformedRow);
            }
            proof {
                let g = self.chunks_modified@;
                lemma_grid_parse(
                    mid,
                    g,
                    pre_grid,
                    rvs[k as int],
                    ccx as int,
                    ccy as int,
                    ccz as int,
                    cxv as int,
                    cyv as int,
                    czv as int,
                );
                assert(grid_dims_ok(g)) by {
                    assert forall|c: int| 0 <= c < g.len() implies (#[trigger] g[c])@.len()
                        <= 0x1_0000_0000 by {
                        if c != ccz {
                            assert(g[c] == mid[c]);
                        }
                    }
                    assert forall|c: int, b: int|
                        0 <= c < g.len() && 0 <= b < g[c]@.len() implies (
                    #[trigger] g[c]@[b])@.len() <= 0x1_0000_0000 by {
                        if c != ccz {
                            assert(g[c] == mid[c]);
                        } else if b != ccy {
                            assert(g[c]@[b] == mid[c]@[b]);
                        }
                    }
                }
                assert forall|a: int, b: int, c: int|
                    grid_in_bounds(g, a, b, c) implies (#[trigger] grid_chunk(
                    g,
                    a,
                    b,
                    c,
                )).bounded() by {
                    if a == ccx && b == ccy && c == ccz {
                    } else {
                        assert(grid_chunk(g, a, b, c) == grid_chunk(mid, a, b, c)) by {
                            if c != ccz {
                                assert(g[c] == mid[c]);
                            } else if b != ccy {
                                assert(g[c]@[b] == mid[c]@[b]);
                            } else {
                                assert(g[c]@[b]@[a] == mid[c]@[b]@[a]);
                            }
                        }
                        assert(grid_in_bounds(mid, a, b, c)) by {
                            if c != ccz {
                                assert(g[c] == mid[c]);
                            } else if b != ccy {
                                assert(g[c]@[b] == mid[c]@[b]);
                            }
                        }
                        if !grid_in_bounds(pre_grid, a, b, c) {
                            assert(grid_chunk(mid, a, b, c).tiles@.len() == 0);
                        }
                    }
                }
                assert forall|a: int, b: int, c: int| true implies #[trigger] self.modified_tile(
                    a,
                    b,
                    c,
                ) == applied_tile(rvs, (k + 1) as nat, old(self).modified_tile(a, b, c), a, b, c) by {
                    assert(pre_self.modified_tile(a, b, c) == applied_tile(
                        rvs,
                        k as nat,
                        old(self).modified_tile(a, b, c),
                        a,
                        b,
                        c,
                    ));
                }
            }
            k = k + 1;
        }
        Ok(())
    }
}

/// The persisted rows of the chunk in slot `(cx, cy, cz)` of a grid, with
/// its coordinates written in decoded signed form.
pub open spec fn chunk_rows_at(g: Seq<Vec<Vec<Chunk>>>, cx: int, cy: int, cz: int) -> Seq<
    Seq<CellVal>,
> {
    chunk_rows(g[cz]@[cy]@[cx], decode(cx), decode(cy), decode(cz))
}

/// The persisted rows of the first `n` chunks in grid line `(cz, cy)`.
pub open spec fn line_chunks_rows(g: Seq<Vec<Vec<Chunk>>>, cz: int, cy: int, n: nat) -> Seq<
    Seq<CellVal>,
>
    decreases n,
{
    if n == 0 {
        Seq::empty()
    } else {
        line_chunks_rows(g, cz, cy, (n - 1) as nat) + chunk_rows_at(g, (n - 1) as int, cy, cz)
    }
}

/// The persisted rows of the first `n` lines of grid layer `cz`.
pub open spec fn layer_chunks_rows(g: Seq<Vec<Vec<Chunk>>>, cz: int, n: nat) -> Seq<Seq<CellVal>>
    decreases n,
{
    if n == 0 {
        Seq::empty()
    } else {
        layer_chunks_rows(g, cz, (n - 1) as nat) + line_chunks_rows(
            g,
            cz,
            (n - 1) as int,
            g[cz]@[n - 1]@.len(),
        )
    }
}

/// The persisted rows of the first `n` layers of a chunk grid.
pub open spec fn world_rows_upto(g: Seq<Vec<Vec<Chunk>>>, n: nat) -> Seq<Seq<CellVal>>
    decreases n,
{
    if n == 0 {
        Seq::empty()
    } else {
        world_rows_upto(g, (n - 1) as nat) + layer_chunks_rows(g, (n - 1) as int, g[n - 1]@.len())
    }
}

/// Every persisted row of a chunk grid, chunk by chunk in grid order.
pub open spec fn world_rows(g: Seq<Vec<Vec<Chunk>>>) -> Seq<Seq<CellVal>> {
    world_rows_upto(g, g.len())
}

/// Whether the first five cells of a table row name coordinates the world
/// can address: three chunk coordinates that fit a signed 32-bit chunk
/// index, with the row long enough to hold a full line.
pub open spec fn table_coords_ok(rv: Seq<CellVal>) -> bool {
    &&& rv.len() >= 5 + 2 * CHUNKSIZE
    &&& rv[0] is Int && i32::MIN <= cell_int(rv[0]) <= i32::MAX
    &&& rv[1] is Int && i32::MIN <= cell_int(rv[1]) <= i32::MAX
    &&& rv[2] is Int && i32::MIN <= cell_int(rv[2]) <= i32::MAX
}

/// Whether a full table row parses.
pub open spec fn table_row_ok(rv: Seq<CellVal>) -> bool {
    table_coords_ok(rv) && row_parses(rv)
}

/// Which data-format error a malformed table row reports.
pub open spec fn table_row_error(rv: Seq<CellVal>) -> DataError {
    if !table_coords_ok(rv) {
        DataError::MalformedRow
    } else {
        row_error(rv)
    }
}

/// Whether a table row's line covers world position `(a, b, c)`.
pub open spec fn row_covers(rv: Seq<CellVal>, a: int, b: int, c: int) -> bool {
    &&& cell_int(rv[0]) * (CHUNKSIZE as int) <= a < cell_int(rv[0]) * (CHUNKSIZE as int) + (
    CHUNKSIZE as int)
    &&& b == cell_int(rv[1]) * (CHUNKSIZE as int) + row_y(rv)
    &&& c == cell_int(rv[2]) * (CHUNKSIZE as int) + row_z(rv)
}

/// The tile at world position `(a, b, c)` after replaying the first `n`
/// table rows on top of `base`; a later row wins where rows overlap.
pub open spec fn applied_tile(
    rows: Seq<Seq<CellVal>>,
    n: nat,
    base: Option<Tile>,
    a: int,
    b: int,
    c: int,
) -> Option<Tile>
    decreases n,
{
    if n == 0 {
        base
    } else {
        let rv = rows[n - 1];
        if row_covers(rv, a, b, c) && row_tile(rv, a - cell_int(rv[0]) * (CHUNKSIZE as int))
            is Some {
            row_tile(rv, a - cell_int(rv[0]) * (CHUNKSIZE as int))
        } else {
            applied_tile(rows, (n - 1) as nat, base, a, b, c)
        }
    }
}

/// Read and range-check the three chunk coordinates of a table row.
fn check_table_coords(row: &Vec<Cell>) -> (r: Result<(i32, i32, i32), DataError>)
    ensures
        r is Ok <==> table_coords_ok(cells_view(row@)),
        r matches Ok(t) ==> t.0 == cell_int(cells_view(row@)[0]) && t.1 == cell_int(
            cells_view(row@)[1],
        ) && t.2 == cell_int(cells_view(row@)[2]),
        r is Err ==> r->Err_0 == DataError::MalformedRow,
{
    let ghost rv = cells_view(row@);
    if row.len() < 5 + 2 * Chunk::chunksize() {
        return Err(DataError::MalformedRow);
    }
    let c0 = row[0].classify();
    let c1 = row[1].classify();
    let c2 = row[2].classify();
    proof {
        assert(rv[0] == row@[0]@);
        assert(rv[1] == row@[1]@);
        assert(rv[2] == row@[2]@);
    }
    match (c0, c1, c2) {
        (CellVal::Int(a), CellVal::Int(b), CellVal::Int(c)) => {
            if a < i32::MIN as i64 || a > i32::MAX as i64 || b < i32::MIN as i64 || b > i32::MAX
                as i64 || c < i32::MIN as i64 || c > i32::MAX as i64 {
                Err(DataError::MalformedRow)
            } else {
                Ok((a as i32, b as i32, c as i32))
            }
        },
        _ => Err(DataError::MalformedRow),
    }
}

/// Grow a chunk grid until the encoded coordinates are inside its extent;
/// chunks already present are untouched and every new slot holds an empty
/// chunk.
fn ensure_chunk(g: &mut Vec<Vec<Vec<Chunk>>>, cx: usize, cy: usize, cz: usize)
    requires
        cx < 0x1_0000_0000,
        cy < 0x1_0000_0000,
        cz < 0x1_0000_0000,
        grid_dims_ok(old(g)@),
    ensures
        grid_dims_ok(final(g)@),
        grid_in_bounds(final(g)@, cx as int, cy as int, cz as int),
        forall|a: int, b: int, c: int|
            grid_in_bounds(old(g)@, a, b, c) ==> grid_in_bounds(final(g)@, a, b, c),
        forall|a: int, b: int, c: int|
            #[trigger] grid_in_bounds(final(g)@, a, b, c) ==> (if grid_in_bounds(old(g)@, a, b, c) {
                grid_chunk(final(g)@, a, b, c) == grid_chunk(old(g)@, a, b, c)
            } else {
                grid_chunk(final(g)@, a, b, c).tiles@.len() == 0
            }),
{
    while g.len() <= cz
        invariant
            cz < 0x1_0000_0000,
            old(g)@.len() <= g@.len(),
            g@.len() <= cz + 1 || g@.len() == old(g)@.len(),
            forall|c: int| 0 <= c < old(g)@.len() ==> #[trigger] g@[c] == old(g)@[c],
            forall|c: int| old(g)@.len() <= c < g@.len() ==> (#[trigger] g@[c])@.len() == 0,
        decreases cz + 1 - g@.len(),
    {
        g.push(Vec::new());
    }
    let ghost g1 = g@;
    while g[cz].len() <= cy
        invariant
            cy < 0x1_0000_0000,
            cz < g@.len(),
            g@.len() == g1.len(),
            forall|c: int| 0 <= c < g@.len() && c != cz ==> #[trigger] g@[c] == g1[c],
            g1[cz as int]@.len() <= g@[cz as int]@.len(),
            g@[cz as int]@.len() <= cy + 1 || g@[cz as int]@.len() == g1[cz as int]@.len(),
            forall|b: int|
                0 <= b < g1[cz as int]@.len() ==> #[trigger] g@[cz as int]@[b] == g1[cz as int]@[b],
            forall|b: int|
                g1[cz as int]@.len() <= b < g@[cz as int]@.len() ==> (
                #[trigger] g@[cz as int]@[b])@.len() == 0,
        decreases cy + 1 - g@[cz as int]@.len(),
    {
        let row = &mut g[cz];
        row.push(Vec::new());
    }
    let ghost g2 = g@;
    while g[cz][cy].len() <= cx
        invariant
            cx < 0x1_0000_0000,
            cz < g@.len(),
            cy < g@[cz as int]@.len(),
            g@.len() == g2.len(),
            forall|c: int| 0 <= c < g@.len() && c != cz ==> #[trigger] g@[c] == g2[c],
            g@[cz as int]@.len() == g2[cz as int]@.len(),
            forall|b: int|
                0 <= b < g@[cz as int]@.len() && b != cy ==> #[trigger] g@[cz as int]@[b]
                    == g2[cz as int]@[b],
            g2[cz as int]@[cy as int]@.len() <= g@[cz as int]@[cy as int]@.len(),
            g@[cz as int]@[cy as int]@.len() <= cx + 1 || g@[cz as int]@[cy as int]@.len()
                == g2[cz as int]@[cy as int]@.len(),
            forall|a: int|
                0 <= a < g2[cz as int]@[cy as int]@.len() ==> #[trigger] g@[cz as int]@[cy as int]@[a]
                    == g2[cz as int]@[cy as int]@[a],
            forall|a: int|
                g2[cz as int]@[cy as int]@.len() <= a < g@[cz as int]@[cy as int]@.len() ==> (
                #[trigger] g@[cz as int]@[cy as int]@[a]).tiles@.len() == 0,
        decreases cx + 1 - g@[cz as int]@[cy as int]@.len(),
    {
        let line = &mut g[cz][cy];
        line.push(Chunk::new());
    }
    proof {
        assert forall|a: int, b: int, c: int| #[trigger]
            grid_in_bounds(g@, a, b, c) implies (if grid_in_bounds(old(g)@, a, b, c) {
            grid_chunk(g@, a, b, c) == grid_chunk(old(g)@, a, b, c)
        } else {
            grid_chunk(g@, a, b, c).tiles@.len() == 0
        }) by {
            if c != cz {
                assert(g@[c] == g1[c]);
                assert(g1[c] == old(g)@[c] || (c >= old(g)@.len() && g1[c]@.len() == 0));
            } else {
                if b != cy {
                    assert(g@[c]@[b] == g2[c]@[b]);
                } else {
                }
            }
        }
    }
}

/// Edit precedence: wherever an explicit edit is recorded, a lookup
/// returns that edit and never the generated tile underneath, whether or
/// not the position's chunk was generated.
pub proof fn lemma_edit_precedence(m: World, x: int, y: int, z: int, tile: Tile)
    requires
        m.modified_tile(x, y, z) == Some(tile),
    ensures
        m.lookup(x, y, z) == Some(tile),
{
}

/// How one `Chunk::set` inside a grid slot shows up at the level of
/// world-coordinate tile lookups: the world position that decomposes to
/// that slot and local offset now holds the tile, and every other world
/// position reads what it read before.
proof fn lemma_grid_set(
    mid: Seq<Vec<Vec<Chunk>>>,
    after: Seq<Vec<Vec<Chunk>>>,
    orig: Seq<Vec<Vec<Chunk>>>,
    cx: int,
    cy: int,
    cz: int,
    lx: int,
    ly: int,
    lz: int,
    x: int,
    y: int,
    z: int,
    tile: Tile,
)
    requires
        cx == encode(x / (CHUNKSIZE as int)),
        cy == encode(y / (CHUNKSIZE as int)),
        cz == encode(z / (CHUNKSIZE as int)),
        lx == x % (CHUNKSIZE as int),
        ly == y % (CHUNKSIZE as int),
        lz == z % (CHUNKSIZE as int),
        grid_in_bounds(mid, cx, cy, cz),
        // the grid before the write: expanded, with old chunks preserved
        forall|a: int, b: int, c: int|
            grid_in_bounds(orig, a, b, c) ==> grid_in_bounds(mid, a, b, c),
        forall|a: int, b: int, c: int|
            #[trigger] grid_in_bounds(mid, a, b, c) ==> (if grid_in_bounds(orig, a, b, c) {
                grid_chunk(mid, a, b, c) == grid_chunk(orig, a, b, c)
            } else {
                grid_chunk(mid, a, b, c).tiles@.len() == 0
            }),
        // the write itself: one slot's chunk updated pointwise
        after.len() == mid.len(),
        forall|c: int| 0 <= c < mid.len() && c != cz ==> #[trigger] after[c] == mid[c],
        after[cz]@.len() == mid[cz]@.len(),
        forall|b: int|
            0 <= b < mid[cz]@.len() && b != cy ==> #[trigger] after[cz]@[b] == mid[cz]@[b],
        after[cz]@[cy]@.len() == mid[cz]@[cy]@.len(),
        forall|a: int|
            0 <= a < mid[cz]@[cy]@.len() && a != cx ==> #[trigger] after[cz]@[cy]@[a]
                == mid[cz]@[cy]@[a],
        grid_chunk(after, cx, cy, cz).spec_tile(lx, ly, lz) == Some(tile),
        forall|la: int, lb: int, lc: int|
            !(la == lx && lb == ly && lc == lz) ==> #[trigger] grid_chunk(
                after,
                cx,
                cy,
                cz,
            ).spec_tile(la, lb, lc) == grid_chunk(mid, cx, cy, cz).spec_tile(la, lb, lc),
    ensures
        forall|a: int, b: int, c: int|
            #[trigger] grid_tile(
                after,
                encode(a / (CHUNKSIZE as int)),
                encode(b / (CHUNKSIZE as int)),
                encode(c / (CHUNKSIZE as int)),
                a % (CHUNKSIZE as int),
                b % (CHUNKSIZE as int),
                c % (CHUNKSIZE as int),
            ) == (if a == x && b == y && c == z {
                Some(tile)
            } else {
                grid_tile(
                    orig,
                    encode(a / (CHUNKSIZE as int)),
                    encode(b / (CHUNKSIZE as int)),
                    encode(c / (CHUNKSIZE as int)),
                    a % (CHUNKSIZE as int),
                    b % (CHUNKSIZE as int),
                    c % (CHUNKSIZE as int),
                )
            }),
{
    let cs = CHUNKSIZE as int;
    assert forall|a: int, b: int, c: int| true implies #[trigger] grid_tile(
        after,
        encode(a / cs),
        encode(b / cs),
        encode(c / cs),
        a % cs,
        b % cs,
        c % cs,
    ) == (if a == x && b == y && c == z {
        Some(tile)
    } else {
        grid_tile(orig, encode(a / cs), encode(b / cs), encode(c / cs), a % cs, b % cs, c % cs)
    }) by {
        let ca = encode(a / cs);
        let cb = encode(b / cs);
        let cc = encode(c / cs);
        lemma_chunkify_round_trip(a);
        lemma_chunkify_round_trip(b);
        lemma_chunkify_round_trip(c);
        lemma_chunkify_round_trip(x);
        lemma_chunkify_round_trip(y);
        lemma_chunkify_round_trip(z);
        lemma_decode_encode(a / cs);
        lemma_decode_encode(b / cs);
        lemma_decode_encode(c / cs);
        lemma_decode_encode(x / cs);
        lemma_decode_encode(y / cs);
        lemma_decode_encode(z / cs);
        assert(grid_in_bounds(after, ca, cb, cc) == grid_in_bounds(mid, ca, cb, cc)) by {
            if 0 <= cc < after.len() {
                if cc != cz {
                    assert(after[cc] == mid[cc]);
                } else if 0 <= cb < after[cc]@.len() && cb != cy {
                    assert(after[cc]@[cb] == mid[cc]@[cb]);
                }
            }
        }
        if ca == cx && cb == cy && cc == cz {
            // same chunk slot: the slot's chunk changed at exactly one
            // local offset
            if a == x && b == y && c == z {
            } else {
                assert(!(a % cs == lx && b % cs == ly && c % cs == lz));
                assert(grid_chunk(after, cx, cy, cz).spec_tile(a % cs, b % cs, c % cs)
                    == grid_chunk(mid, cx, cy, cz).spec_tile(a % cs, b % cs, c % cs));
                if !grid_in_bounds(orig, ca, cb, cc) {
                    assert(grid_chunk(mid, ca, cb, cc).tiles@.len() == 0);
                    assert(grid_chunk(mid, ca, cb, cc).spec_tile(a % cs, b % cs, c % cs) is None);
                }
            }
        } else {
            // a different slot: its chunk is what it was, or a fresh empty
            // chunk where the grid grew
            if grid_in_bounds(after, ca, cb, cc) {
                assert(grid_chunk(after, ca, cb, cc) == grid_chunk(mid, ca, cb, cc)) by {
                    if cc != cz {
                        assert(after[cc] == mid[cc]);
                    } else if cb != cy {
                        assert(after[cc]@[cb] == mid[cc]@[cb]);
                    } else {
                        assert(after[cc]@[cb]@[ca] == mid[cc]@[cb]@[ca]);
                    }
                }
                if !grid_in_bounds(orig, ca, cb, cc) {
                    assert(grid_chunk(mid, ca, cb, cc).tiles@.len() == 0);
                }
            }
        }
    }
}

/// How replacing one grid slot with a freshly composed chunk shows up at
/// the level of world-coordinate tile lookups: every world position inside
/// that chunk now reads its generated tile, and every other world position
/// reads what it read before.
proof fn lemma_grid_gen(
    mid: Seq<Vec<Vec<Chunk>>>,
    after: Seq<Vec<Vec<Chunk>>>,
    orig: Seq<Vec<Vec<Chunk>>>,
    n: ChunkNoise,
    cx: int,
    cy: int,
    cz: int,
    x: int,
    y: int,
    z: int,
)
    requires
        cx == encode(x / (CHUNKSIZE as int)),
        cy == encode(y / (CHUNKSIZE as int)),
        cz == encode(z / (CHUNKSIZE as int)),
        grid_in_bounds(mid, cx, cy, cz),
        forall|a: int, b: int, c: int|
            grid_in_bounds(orig, a, b, c) ==> grid_in_bounds(mid, a, b, c),
        forall|a: int, b: int, c: int|
            #[trigger] grid_in_bounds(mid, a, b, c) ==> (if grid_in_bounds(orig, a, b, c) {
                grid_chunk(mid, a, b, c) == grid_chunk(orig, a, b, c)
            } else {
                grid_chunk(mid, a, b, c).tiles@.len() == 0
            }),
        after.len() == mid.len(),
        forall|c: int| 0 <= c < mid.len() && c != cz ==> #[trigger] after[c] == mid[c],
        after[cz]@.len() == mid[cz]@.len(),
        forall|b: int|
            0 <= b < mid[cz]@.len() && b != cy ==> #[trigger] after[cz]@[b] == mid[cz]@[b],
        after[cz]@[cy]@.len() == mid[cz]@[cy]@.len(),
        forall|a: int|
            0 <= a < mid[cz]@[cy]@.len() && a != cx ==> #[trigger] after[cz]@[cy]@[a]
                == mid[cz]@[cy]@[a],
        grid_chunk(after, cx, cy, cz).tiles@.len() == CHUNKSIZE,
        forall|lz: int|
            0 <= lz < CHUNKSIZE ==> (#[trigger] grid_chunk(after, cx, cy, cz).tiles@[lz])@.len()
                == CHUNKSIZE,
        forall|lz: int, ly: int|
            0 <= lz < CHUNKSIZE && 0 <= ly < CHUNKSIZE ==> (#[trigger] grid_chunk(
                after,
                cx,
                cy,
                cz,
            ).tiles@[lz]@[ly])@.len() == CHUNKSIZE,
        forall|lx: int, ly: int, lz: int|
            0 <= lx < CHUNKSIZE && 0 <= ly < CHUNKSIZE && 0 <= lz < CHUNKSIZE
                ==> #[trigger] grid_chunk(after, cx, cy, cz).tiles@[lz]@[ly]@[lx] == Some(
                gen_tile(n, z / (CHUNKSIZE as int), lx, ly, lz),
            ),
    ensures
        grid_chunk(after, cx, cy, cz).full(),
        forall|a: int, b: int, c: int|
            #[trigger] grid_tile(
                after,
                encode(a / (CHUNKSIZE as int)),
                encode(b / (CHUNKSIZE as int)),
                encode(c / (CHUNKSIZE as int)),
                a % (CHUNKSIZE as int),
                b % (CHUNKSIZE as int),
                c % (CHUNKSIZE as int),
            ) == (if a / (CHUNKSIZE as int) == x / (CHUNKSIZE as int) && b / (CHUNKSIZE as int) == y
                / (CHUNKSIZE as int) && c / (CHUNKSIZE as int) == z / (CHUNKSIZE as int) {
                Some(
                    gen_tile(
                        n,
                        z / (CHUNKSIZE as int),
                        a % (CHUNKSIZE as int),
                        b % (CHUNKSIZE as int),
                        c % (CHUNKSIZE as int),
                    ),
                )
            } else {
                grid_tile(
                    orig,
                    encode(a / (CHUNKSIZE as int)),
                    encode(b / (CHUNKSIZE as int)),
                    encode(c / (CHUNKSIZE as int)),
                    a % (CHUNKSIZE as int),
                    b % (CHUNKSIZE as int),
                    c % (CHUNKSIZE as int),
                )
            }),
{
    let cs = CHUNKSIZE as int;
    let fresh = grid_chunk(after, cx, cy, cz);
    assert(fresh.full()) by {
        assert forall|lx: int, ly: int, lz: int|
            0 <= lx < CHUNKSIZE && 0 <= ly < CHUNKSIZE && 0 <= lz < CHUNKSIZE implies (
        #[trigger] fresh.spec_tile(lx, ly, lz)) is Some by {
            assert(fresh.tiles@[lz]@[ly]@[lx] == Some(gen_tile(n, z / cs, lx, ly, lz)));
        }
    }
    assert forall|a: int, b: int, c: int| true implies #[trigger] grid_tile(
        after,
        encode(a / cs),
        encode(b / cs),
        encode(c / cs),
        a % cs,
        b % cs,
        c % cs,
    ) == (if a / cs == x / cs && b / cs == y / cs && c / cs == z / cs {
        Some(gen_tile(n, z / cs, a % cs, b % cs, c % cs))
    } else {
        grid_tile(orig, encode(a / cs), encode(b / cs), encode(c / cs), a % cs, b % cs, c % cs)
    }) by {
        let ca = encode(a / cs);
        let cb = encode(b / cs);
        let cc = encode(c / cs);
        lemma_chunkify_round_trip(a);
        lemma_chunkify_round_trip(b);
        lemma_chunkify_round_trip(c);
        lemma_decode_encode(a / cs);
        lemma_decode_encode(b / cs);
        lemma_decode_encode(c / cs);
        lemma_decode_encode(x / cs);
        lemma_decode_encode(y / cs);
        lemma_decode_encode(z / cs);
        vstd::arithmetic::div_mod::lemma_mod_bound(a, cs);
        vstd::arithmetic::div_mod::lemma_mod_bound(b, cs);
        vstd::arithmetic::div_mod::lemma_mod_bound(c, cs);
        assert(grid_in_bounds(after, ca, cb, cc) == grid_in_bounds(mid, ca, cb, cc)) by {
            if 0 <= cc < after.len() {
                if cc != cz {
                    assert(after[cc] == mid[cc]);
                } else if 0 <= cb < after[cc]@.len() && cb != cy {
                    assert(after[cc]@[cb] == mid[cc]@[cb]);
                }
            }
        }
        if ca == cx && cb == cy && cc == cz {
            assert(a / cs == x / cs && b / cs == y / cs && c / cs == z / cs);
            assert(fresh.spec_tile(a % cs, b % cs, c % cs) == Some(
                gen_tile(n, z / cs, a % cs, b % cs, c % cs),
            )) by {
                assert(fresh.tiles@[c % cs]@[b % cs]@[a % cs] == Some(
                    gen_tile(n, z / cs, a % cs, b % cs, c % cs),
                ));
            }
        } else {
            assert(!(a / cs == x / cs && b / cs == y / cs && c / cs == z / cs));
            if grid_in_bounds(after, ca, cb, cc) {
                assert(grid_chunk(after, ca, cb, cc) == grid_chunk(mid, ca, cb, cc)) by {
                    if cc != cz {
                        assert(after[cc] == mid[cc]);
                    } else if cb != cy {
                        assert(after[cc]@[cb] == mid[cc]@[cb]);
                    } else {
                        assert(after[cc]@[cb]@[ca] == mid[cc]@[cb]@[ca]);
                    }
                }
                if !grid_in_bounds(orig, ca, cb, cc) {
                    assert(grid_chunk(mid, ca, cb, cc).tiles@.len() == 0);
                }
            }
        }
    }
}

/// How parsing one table row into a grid slot shows up at the level of
/// world-coordinate tile lookups: every world position the row's line
/// covers with a recorded tile now holds that tile, and every other world
/// position reads what it read before.
proof fn lemma_grid_parse(
    mid: Seq<Vec<Vec<Chunk>>>,
    after: Seq<Vec<Vec<Chunk>>>,
    orig: Seq<Vec<Vec<Chunk>>>,
    rv: Seq<CellVal>,
    ccx: int,
    ccy: int,
    ccz: int,
    cxv: int,
    cyv: int,
    czv: int,
)
    requires
        row_parses(rv),
        i32::MIN <= cxv <= i32::MAX,
        i32::MIN <= cyv <= i32::MAX,
        i32::MIN <= czv <= i32::MAX,
        cxv == cell_int(rv[0]),
        cyv == cell_int(rv[1]),
        czv == cell_int(rv[2]),
        ccx == encode(cxv),
        ccy == encode(cyv),
        ccz == encode(czv),
        grid_in_bounds(mid, ccx, ccy, ccz),
        forall|a: int, b: int, c: int|
            grid_in_bounds(orig, a, b, c) ==> grid_in_bounds(mid, a, b, c),
        forall|a: int, b: int, c: int|
            #[trigger] grid_in_bounds(mid, a, b, c) ==> (if grid_in_bounds(orig, a, b, c) {
                grid_chunk(mid, a, b, c) == grid_chunk(orig, a, b, c)
            } else {
                grid_chunk(mid, a, b, c).tiles@.len() == 0
            }),
        after.len() == mid.len(),
        forall|c: int| 0 <= c < mid.len() && c != ccz ==> #[trigger] after[c] == mid[c],
        after[ccz]@.len() == mid[ccz]@.len(),
        forall|b: int|
            0 <= b < mid[ccz]@.len() && b != ccy ==> #[trigger] after[ccz]@[b] == mid[ccz]@[b],
        after[ccz]@[ccy]@.len() == mid[ccz]@[ccy]@.len(),
        forall|a: int|
            0 <= a < mid[ccz]@[ccy]@.len() && a != ccx ==> #[trigger] after[ccz]@[ccy]@[a]
                == mid[ccz]@[ccy]@[a],
        forall|la: int, lb: int, lc: int|
            #[trigger] grid_chunk(after, ccx, ccy, ccz).spec_tile(la, lb, lc) == (if lc == row_z(rv)
                && lb == row_y(rv) && 0 <= la < CHUNKSIZE && row_tile(rv, la) is Some {
                row_tile(rv, la)
            } else {
                grid_chunk(mid, ccx, ccy, ccz).spec_tile(la, lb, lc)
            }),
    ensures
        forall|a: int, b: int, c: int|
            #[trigger] grid_tile(
                after,
                encode(a / (CHUNKSIZE as int)),
                encode(b / (CHUNKSIZE as int)),
                encode(c / (CHUNKSIZE as int)),
                a % (CHUNKSIZE as int),
                b % (CHUNKSIZE as int),
                c % (CHUNKSIZE as int),
            ) == (if row_covers(rv, a, b, c) && row_tile(
                rv,
                a - cell_int(rv[0]) * (CHUNKSIZE as int),
            ) is Some {
                row_tile(rv, a - cell_int(rv[0]) * (CHUNKSIZE as int))
            } else {
                grid_tile(
                    orig,
                    encode(a / (CHUNKSIZE as int)),
                    encode(b / (CHUNKSIZE as int)),
                    encode(c / (CHUNKSIZE as int)),
                    a % (CHUNKSIZE as int),
                    b % (CHUNKSIZE as int),
                    c % (CHUNKSIZE as int),
                )
            }),
{
    let cs = CHUNKSIZE as int;
    assert forall|a: int, b: int, c: int| true implies #[trigger] grid_tile(
        after,
        encode(a / cs),
        encode(b / cs),
        encode(c / cs),
        a % cs,
        b % cs,
        c % cs,
    ) == (if row_covers(rv, a, b, c) && row_tile(rv, a - cell_int(rv[0]) * cs) is Some {
        row_tile(rv, a - cell_int(rv[0]) * cs)
    } else {
        grid_tile(orig, encode(a / cs), encode(b / cs), encode(c / cs), a % cs, b % cs, c % cs)
    }) by {
        let ca = encode(a / cs);
        let cb = encode(b / cs);
        let cc = encode(c / cs);
        lemma_chunkify_round_trip(a);
        lemma_chunkify_round_trip(b);
        lemma_chunkify_round_trip(c);
        lemma_decode_encode(a / cs);
        lemma_decode_encode(b / cs);
        lemma_decode_encode(c / cs);
        lemma_decode_encode(cxv);
        lemma_decode_encode(cyv);
        lemma_decode_encode(czv);
        vstd::arithmetic::div_mod::lemma_mod_bound(a, cs);
        vstd::arithmetic::div_mod::lemma_mod_bound(b, cs);
        vstd::arithmetic::div_mod::lemma_mod_bound(c, cs);
        assert(grid_in_bounds(after, ca, cb, cc) == grid_in_bounds(mid, ca, cb, cc)) by {
            if 0 <= cc < after.len() {
                if cc != ccz {
                    assert(after[cc] == mid[cc]);
                } else if 0 <= cb < after[cc]@.len() && cb != ccy {
                    assert(after[cc]@[cb] == mid[cc]@[cb]);
                }
            }
        }
        if ca == ccx && cb == ccy && cc == ccz {
            assert(a / cs == cxv && b / cs == cyv && c / cs == czv);
            // covering is exactly: same chunk, and the row's line
            // coordinates match the locals
            assert(row_covers(rv, a, b, c) == (b % cs == row_y(rv) && c % cs == row_z(rv))) by {
                if b % cs == row_y(rv) && c % cs == row_z(rv) {
                    assert(b == cyv * cs + row_y(rv));
                    assert(c == czv * cs + row_z(rv));
                    assert(cxv * cs <= a < cxv * cs + cs);
                }
                if row_covers(rv, a, b, c) {
                    vstd::arithmetic::div_mod::lemma_fundamental_div_mod_converse(
                        b,
                        cs,
                        cyv,
                        row_y(rv),
                    );
                    vstd::arithmetic::div_mod::lemma_fundamental_div_mod_converse(
                        c,
                        cs,
                        czv,
                        row_z(rv),
                    );
                }
            }
            assert(a - cell_int(rv[0]) * cs == a % cs);
            assert(grid_chunk(after, ca, cb, cc).spec_tile(a % cs, b % cs, c % cs) == (if c % cs
                == row_z(rv) && b % cs == row_y(rv) && 0 <= a % cs < CHUNKSIZE && row_tile(
                rv,
                a % cs,
            ) is Some {
                row_tile(rv, a % cs)
            } else {
                grid_chunk(mid, ca, cb, cc).spec_tile(a % cs, b % cs, c % cs)
            }));
            if !(row_covers(rv, a, b, c) && row_tile(rv, a - cell_int(rv[0]) * cs) is Some) {
                if !grid_in_bounds(orig, ca, cb, cc) {
                    assert(grid_chunk(mid, ca, cb, cc).tiles@.len() == 0);
                    assert(grid_chunk(mid, ca, cb, cc).spec_tile(a % cs, b % cs, c % cs) is None);
                }
            }
        } else {
            // a different slot: the row cannot cover this position
            assert(!row_covers(rv, a, b, c)) by {
                if row_covers(rv, a, b, c) {
                    vstd::arithmetic::div_mod::lemma_fundamental_div_mod_converse(
                        a,
                        cs,
                        cxv,
                        a - cxv * cs,
                    );
                    vstd::arithmetic::div_mod::lemma_fundamental_div_mod_converse(
                        b,
                        cs,
                        cyv,
                        row_y(rv),
                    );
                    vstd::arithmetic::div_mod::lemma_fundamental_div_mod_converse(
                        c,
                        cs,
                        czv,
                        row_z(rv),
                    );
                }
            }
            if grid_in_bounds(after, ca, cb, cc) {
                assert(grid_chunk(after, ca, cb, cc) == grid_chunk(mid, ca, cb, cc)) by {
                    if cc != ccz {
                        assert(after[cc] == mid[cc]);
                    } else if cb != ccy {
                        assert(after[cc]@[cb] == mid[cc]@[cb]);
                    } else {
                        assert(after[cc]@[cb]@[ca] == mid[cc]@[cb]@[ca]);
                    }
                }
                if !grid_in_bounds(orig, ca, cb, cc) {
                    assert(grid_chunk(mid, ca, cb, cc).tiles@.len() == 0);
                }
            }
        }
    }
}

} // verus!
