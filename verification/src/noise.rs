//! Integer noise buffers and the terrain composition rules.
//!
//! Fractal noise is sampled per chunk and rescaled into integer buffers:
//! three 2D layers over the chunk's footprint (terrain height, soil
//! thickness, vegetation density) and three 3D layers over its volume
//! (iron, copper and gold ore presence). Composing those buffers into
//! tiles is pure integer logic: every cell of a chunk gets a background
//! from its height relative to the terrain surface, and grass surfaces get
//! a foliage foreground from the vegetation bucket.

use vstd::arithmetic::div_mod::lemma_fundamental_div_mod_converse;
use vstd::prelude::*;

use crate::codec::CHUNKSIZE;
use crate::image::COPPER;
use crate::image::DIRT;
use crate::image::GOLD;
use crate::image::GRASS;
use crate::image::IRON;
use crate::image::OAK_1_1;
use crate::image::OAK_1_1_RED;
use crate::image::OAK_1_1_SMALL;
use crate::image::PINE_1_1;
use crate::image::STONE;
use crate::image::WATER;
use crate::tile::Tile;

verus! {

/// The rescaled integer noise buffers for one chunk, 2D layers indexed
/// `x + y * CHUNKSIZE` and 3D layers `x + y * CHUNKSIZE + z * CHUNKSIZE²`.
pub struct ChunkNoise {
    /// Terrain surface height, one value per (x, y).
    pub terrain_height: Vec<i16>,
    /// Soil layer thickness, one value per (x, y).
    pub soil_thickness: Vec<i16>,
    /// Vegetation density, one value per (x, y).
    pub vegetation: Vec<i16>,
    /// Iron ore presence, one value per (x, y, z).
    pub iron: Vec<i16>,
    /// Copper ore presence, one value per (x, y, z).
    pub copper: Vec<i16>,
    /// Gold ore presence, one value per (x, y, z).
    pub gold: Vec<i16>,
}

impl ChunkNoise {
    /// The 2D buffers cover the chunk footprint and the 3D buffers its
    /// volume.
    pub open spec fn wf(self) -> bool {
        &&& self.terrain_height@.len() == CHUNKSIZE * CHUNKSIZE
        &&& self.soil_thickness@.len() == CHUNKSIZE * CHUNKSIZE
        &&& self.vegetation@.len() == CHUNKSIZE * CHUNKSIZE
        &&& self.iron@.len() == CHUNKSIZE * CHUNKSIZE * CHUNKSIZE
        &&& self.copper@.len() == CHUNKSIZE * CHUNKSIZE * CHUNKSIZE
        &&& self.gold@.len() == CHUNKSIZE * CHUNKSIZE * CHUNKSIZE
    }

    /// Assemble noise buffers, checking that each layer has the length the
    /// chunk volume asks for.
    pub fn new(
        terrain_height: Vec<i16>,
        soil_thickness: Vec<i16>,
        vegetation: Vec<i16>,
        iron: Vec<i16>,
        copper: Vec<i16>,
        gold: Vec<i16>,
    ) -> (r: Option<ChunkNoise>)
        ensures
            r is Some <==> {
                &&& terrain_height@.len() == CHUNKSIZE * CHUNKSIZE
                &&& soil_thickness@.len() == CHUNKSIZE * CHUNKSIZE
                &&& vegetation@.len() == CHUNKSIZE * CHUNKSIZE
                &&& iron@.len() == CHUNKSIZE * CHUNKSIZE * CHUNKSIZE
                &&& copper@.len() == CHUNKSIZE * CHUNKSIZE * CHUNKSIZE
                &&& gold@.len() == CHUNKSIZE * CHUNKSIZE * CHUNKSIZE
            },
            r matches Some(n) ==> n == (ChunkNoise {
                terrain_height,
                soil_thickness,
                vegetation,
                iron,
                copper,
                gold,
            }) && n.wf(),
    {
        let area = CHUNKSIZE * CHUNKSIZE;
        let volume = CHUNKSIZE * CHUNKSIZE * CHUNKSIZE;
        if terrain_height.len() == area && soil_thickness.len() == area && vegetation.len() == area
            && iron.len() == volume && copper.len() == volume && gold.len() == volume {
            Some(ChunkNoise { terrain_height, soil_thickness, vegetation, iron, copper, gold })
        } else {
            None
        }
    }
}

/// Index into a 2D noise buffer.
pub open spec fn idx2(x: int, y: int) -> int {
    x + y * (CHUNKSIZE as int)
}

/// Index into a 3D noise buffer.
pub open spec fn idx3(x: int, y: int, z: int) -> int {
    x + y * (CHUNKSIZE as int) + z * (CHUNKSIZE as int) * (CHUNKSIZE as int)
}

/// The ore kind of a rock cell: an ore is present where its noise value is
/// negative, and gold overrides copper, which overrides iron, which
/// overrides plain stone.
pub open spec fn ore_kind(iron: int, copper: int, gold: int) -> u16 {
    if gold < 0 {
        GOLD
    } else if copper < 0 {
        COPPER
    } else if iron < 0 {
        IRON
    } else {
        STONE
    }
}

/// Foliage for a grass surface, chosen by discrete vegetation buckets.
pub open spec fn veg_fg(v: int) -> Option<u16> {
    if 0 <= v <= 24 {
        Some(PINE_1_1)
    } else if v == 25 {
        Some(OAK_1_1)
    } else if v == 26 {
        Some(OAK_1_1_RED)
    } else if v == 27 {
        Some(OAK_1_1_SMALL)
    } else {
        None
    }
}

/// Background at world height `z_level` for a column with terrain height
/// `th` and soil thickness `soil`: above the surface lies air, or water
/// where the column is at or below sea level; the surface itself is grass,
/// or dirt under water; below it the soil layer is dirt, and everything
/// deeper is rock of the winning ore kind.
pub open spec fn gen_bg(
    z_level: int,
    th: int,
    soil: int,
    iron: int,
    copper: int,
    gold: int,
) -> Option<u16> {
    let distance = z_level - th;
    if distance > 0 {
        if th <= 0 && z_level <= 0 {
            Some(WATER)
        } else {
            None
        }
    } else if distance == 0 {
        if th >= 0 {
            Some(GRASS)
        } else {
            Some(DIRT)
        }
    } else if distance >= -soil {
        Some(DIRT)
    } else {
        Some(ore_kind(iron, copper, gold))
    }
}

/// The generated tile at local `(x, y, z)` of the chunk whose decoded
/// chunk coordinate on the z axis is `chunk_z`.
pub open spec fn gen_tile(n: ChunkNoise, chunk_z: int, x: int, y: int, z: int) -> Tile {
    let th = n.terrain_height@[idx2(x, y)] as int;
    let soil = n.soil_thickness@[idx2(x, y)] as int;
    let veg = n.vegetation@[idx2(x, y)] as int;
    let bg = gen_bg(
        chunk_z * (CHUNKSIZE as int) + z,
        th,
        soil,
        n.iron@[idx3(x, y, z)] as int,
        n.copper@[idx3(x, y, z)] as int,
        n.gold@[idx3(x, y, z)] as int,
    );
    Tile {
        bg,
        fg: if bg == Some(GRASS) {
            veg_fg(veg)
        } else {
            None
        },
    }
}

/// Number of cells among the first `m` of the chunk (x varying fastest,
/// then y, then z) whose generated background is the ore `kind`.
pub open spec fn ore_count(n: ChunkNoise, chunk_z: int, kind: u16, m: nat) -> nat
    decreases m,
{
    if m == 0 {
        0
    } else {
        let p = (m - 1) as nat;
        let x = p as int % (CHUNKSIZE as int);
        let y = (p as int / (CHUNKSIZE as int)) % (CHUNKSIZE as int);
        let z = p as int / ((CHUNKSIZE * CHUNKSIZE) as int);
        ore_count(n, chunk_z, kind, p) + if gen_tile(n, chunk_z, x, y, z).bg == Some(kind) {
            1nat
        } else {
            0nat
        }
    }
}

/// Generation determinism: the generated tile at a cell is a function of
/// the noise buffer contents and the coordinates alone, so composing equal
/// buffers — in one process or after a restart — yields identical tiles
/// everywhere.
pub proof fn lemma_generation_deterministic(
    n1: ChunkNoise,
    n2: ChunkNoise,
    chunk_z: int,
    x: int,
    y: int,
    z: int,
)
    requires
        n1.terrain_height@ == n2.terrain_height@,
        n1.soil_thickness@ == n2.soil_thickness@,
        n1.vegetation@ == n2.vegetation@,
        n1.iron@ == n2.iron@,
        n1.copper@ == n2.copper@,
        n1.gold@ == n2.gold@,
    ensures
        gen_tile(n1, chunk_z, x, y, z) == gen_tile(n2, chunk_z, x, y, z),
{
}

/// Ore precedence: an ore is present where its noise value is negative,
/// and gold beats copper, which beats iron, which beats plain stone.
pub proof fn lemma_ore_precedence(iron: int, copper: int, gold: int)
    ensures
        gold < 0 ==> ore_kind(iron, copper, gold) == GOLD,
        gold >= 0 && copper < 0 ==> ore_kind(iron, copper, gold) == COPPER,
        gold >= 0 && copper >= 0 && iron < 0 ==> ore_kind(iron, copper, gold) == IRON,
        gold >= 0 && copper >= 0 && iron >= 0 ==> ore_kind(iron, copper, gold) == STONE,
{
}

/// Compose the noise buffers of one chunk into its full block of generated
/// tiles, together with the number of iron, copper and gold cells
/// discovered.
#[verifier::rlimit(30)]
pub fn compose(noise: &ChunkNoise, chunk_z: i32) -> (r: (
    Vec<Vec<Vec<Option<Tile>>>>,
    usize,
    usize,
    usize,
))
    requires
        noise.wf(),
    ensures
        r.0@.len() == CHUNKSIZE,
        forall|z: int| 0 <= z < CHUNKSIZE ==> (#[trigger] r.0@[z])@.len() == CHUNKSIZE,
        forall|z: int, y: int|
            0 <= z < CHUNKSIZE && 0 <= y < CHUNKSIZE ==> (#[trigger] r.0@[z]@[y])@.len()
                == CHUNKSIZE,
        forall|x: int, y: int, z: int|
            0 <= x < CHUNKSIZE && 0 <= y < CHUNKSIZE && 0 <= z < CHUNKSIZE
                ==> #[trigger] r.0@[z]@[y]@[x] == Some(gen_tile(*noise, chunk_z as int, x, y, z)),
        r.1 == ore_count(*noise, chunk_z as int, IRON, (CHUNKSIZE * CHUNKSIZE * CHUNKSIZE) as nat),
        r.2 == ore_count(
            *noise,
            chunk_z as int,
            COPPER,
            (CHUNKSIZE * CHUNKSIZE * CHUNKSIZE) as nat,
        ),
        r.3 == ore_count(*noise, chunk_z as int, GOLD, (CHUNKSIZE * CHUNKSIZE * CHUNKSIZE) as nat),
        r.1 <= CHUNKSIZE * CHUNKSIZE * CHUNKSIZE,
        r.2 <= CHUNKSIZE * CHUNKSIZE * CHUNKSIZE,
        r.3 <= CHUNKSIZE * CHUNKSIZE * CHUNKSIZE,
{
    let mut iron_count: usize = 0;
    let mut copper_count: usize = 0;
    let mut gold_count: usize = 0;
    let mut tiles_z: Vec<Vec<Vec<Option<Tile>>>> = Vec::new();
    let mut z: usize = 0;
    while z < CHUNKSIZE
        invariant
            noise.wf(),
            z <= CHUNKSIZE,
            tiles_z@.len() == z,
            forall|zz: int| 0 <= zz < z ==> (#[trigger] tiles_z@[zz])@.len() == CHUNKSIZE,
            forall|zz: int, yy: int|
                0 <= zz < z && 0 <= yy < CHUNKSIZE ==> (#[trigger] tiles_z@[zz]@[yy])@.len()
                    == CHUNKSIZE,
            forall|xx: int, yy: int, zz: int|
                0 <= xx < CHUNKSIZE && 0 <= yy < CHUNKSIZE && 0 <= zz < z
                    ==> #[trigger] tiles_z@[zz]@[yy]@[xx] == Some(
                    gen_tile(*noise, chunk_z as int, xx, yy, zz),
                ),
            iron_count == ore_count(*noise, chunk_z as int, IRON, (z * CHUNKSIZE * CHUNKSIZE) as nat),
            copper_count == ore_count(
                *noise,
                chunk_z as int,
                COPPER,
                (z * CHUNKSIZE * CHUNKSIZE) as nat,
            ),
            gold_count == ore_count(
                *noise,
                chunk_z as int,
                GOLD,
                (z * CHUNKSIZE * CHUNKSIZE) as nat,
            ),
            iron_count <= z * CHUNKSIZE * CHUNKSIZE,
            copper_count <= z * CHUNKSIZE * CHUNKSIZE,
            gold_count <= z * CHUNKSIZE * CHUNKSIZE,
        decreases CHUNKSIZE - z,
    {
        let mut tiles_y: Vec<Vec<Option<Tile>>> = Vec::new();
        let mut y: usize = 0;
        while y < CHUNKSIZE
            invariant
                noise.wf(),
                z < CHUNKSIZE,
                y <= CHUNKSIZE,
                tiles_y@.len() == y,
                forall|yy: int| 0 <= yy < y ==> (#[trigger] tiles_y@[yy])@.len() == CHUNKSIZE,
                forall|xx: int, yy: int|
                    0 <= xx < CHUNKSIZE && 0 <= yy < y ==> #[trigger] tiles_y@[yy]@[xx] == Some(
                        gen_tile(*noise, chunk_z as int, xx, yy, z as int),
                    ),
                iron_count == ore_count(
                    *noise,
                    chunk_z as int,
                    IRON,
                    ((z * CHUNKSIZE + y) * CHUNKSIZE) as nat,
                ),
                copper_count == ore_count(
                    *noise,
                    chunk_z as int,
                    COPPER,
                    ((z * CHUNKSIZE + y) * CHUNKSIZE) as nat,
                ),
                gold_count == ore_count(
                    *noise,
                    chunk_z as int,
                    GOLD,
                    ((z * CHUNKSIZE + y) * CHUNKSIZE) as nat,
                ),
                iron_count <= (z * CHUNKSIZE + y) * CHUNKSIZE,
                copper_count <= (z * CHUNKSIZE + y) * CHUNKSIZE,
                gold_count <= (z * CHUNKSIZE + y) * CHUNKSIZE,
            decreases CHUNKSIZE - y,
        {
            let mut tiles_x: Vec<Option<Tile>> = Vec::new();
            let mut x: usize = 0;
            while x < CHUNKSIZE
                invariant
                    noise.wf(),
                    z < CHUNKSIZE,
                    y < CHUNKSIZE,
                    x <= CHUNKSIZE,
                    tiles_x@.len() == x,
                    forall|xx: int|
                        0 <= xx < x ==> #[trigger] tiles_x@[xx] == Some(
                            gen_tile(*noise, chunk_z as int, xx, y as int, z as int),
                        ),
                    iron_count == ore_count(
                        *noise,
                        chunk_z as int,
                        IRON,
                        ((z * CHUNKSIZE + y) * CHUNKSIZE + x) as nat,
                    ),
                    copper_count == ore_count(
                        *noise,
                        chunk_z as int,
                        COPPER,
                        ((z * CHUNKSIZE + y) * CHUNKSIZE + x) as nat,
                    ),
                    gold_count == ore_count(
                        *noise,
                        chunk_z as int,
                        GOLD,
                        ((z * CHUNKSIZE + y) * CHUNKSIZE + x) as nat,
                    ),
                    iron_count <= (z * CHUNKSIZE + y) * CHUNKSIZE + x,
                    copper_count <= (z * CHUNKSIZE + y) * CHUNKSIZE + x,
                    gold_count <= (z * CHUNKSIZE + y) * CHUNKSIZE + x,
                decreases CHUNKSIZE - x,
            {
                let i2 = x + y * CHUNKSIZE;
                let i3 = x + y * CHUNKSIZE + z * CHUNKSIZE * CHUNKSIZE;
                let th = noise.terrain_height[i2];
                let soil = noise.soil_thickness[i2];
                let veg = noise.vegetation[i2];
                let iron_n = noise.iron[i3];
                let copper_n = noise.copper[i3];
                let gold_n = noise.gold[i3];

                let mut ore: u16 = STONE;
                if iron_n < 0 {
                    ore = IRON;
                }
                if copper_n < 0 {
                    ore = COPPER;
                }
                if gold_n < 0 {
                    ore = GOLD;
                }

                proof {
                    assert(CHUNKSIZE as i64 == 32i64);
                    assert(-0x8000_0000i64 <= chunk_z as i64 <= 0x7fff_ffffi64);
                }
                let z_level: i64 = chunk_z as i64 * CHUNKSIZE as i64 + z as i64;
                let distance: i64 = z_level - th as i64;
                let bg: Option<u16> = if distance > 0 {
                    if th <= 0 && z_level <= 0 {
                        Some(WATER)
                    } else {
                        None
                    }
                } else if distance == 0 {
                    if th >= 0 {
                        Some(GRASS)
                    } else {
                        Some(DIRT)
                    }
                } else {
                    if distance >= -(soil as i64) {
                        Some(DIRT)
                    } else {
                        Some(ore)
                    }
                };
                let is_rock = distance < 0 && distance < -(soil as i64);
                if is_rock {
                    if ore == IRON {
                        iron_count = iron_count + 1;
                    } else if ore == COPPER {
                        copper_count = copper_count + 1;
                    } else if ore == GOLD {
                        gold_count = gold_count + 1;
                    }
                }
                let is_grass = distance == 0 && th >= 0;
                let fg: Option<u16> = if is_grass {
                    if veg >= 0 && veg <= 24 {
                        Some(PINE_1_1)
                    } else if veg == 25 {
                        Some(OAK_1_1)
                    } else if veg == 26 {
                        Some(OAK_1_1_RED)
                    } else if veg == 27 {
                        Some(OAK_1_1_SMALL)
                    } else {
                        None
                    }
                } else {
                    None
                };
                let tile = Tile { bg, fg };
                let ghost m: nat = ((z * CHUNKSIZE + y) * CHUNKSIZE + x) as nat;
                proof {
                    lemma_flat_index(x as int, y as int, z as int);
                    let t = gen_tile(*noise, chunk_z as int, x as int, y as int, z as int);
                    assert(tile == t);
                    assert(ore_count(*noise, chunk_z as int, IRON, m + 1) == ore_count(
                        *noise,
                        chunk_z as int,
                        IRON,
                        m,
                    ) + if t.bg == Some(IRON) {
                        1nat
                    } else {
                        0nat
                    });
                    assert(ore_count(*noise, chunk_z as int, COPPER, m + 1) == ore_count(
                        *noise,
                        chunk_z as int,
                        COPPER,
                        m,
                    ) + if t.bg == Some(COPPER) {
                        1nat
                    } else {
                        0nat
                    });
                    assert(ore_count(*noise, chunk_z as int, GOLD, m + 1) == ore_count(
                        *noise,
                        chunk_z as int,
                        GOLD,
                        m,
                    ) + if t.bg == Some(GOLD) {
                        1nat
                    } else {
                        0nat
                    });
                }
                tiles_x.push(Some(tile));
                x = x + 1;
            }
            tiles_y.push(tiles_x);
            y = y + 1;
        }
        tiles_z.push(tiles_y);
        z = z + 1;
    }
    (tiles_z, iron_count, copper_count, gold_count)
}

/// Decompose the flat cell index `(z * CHUNKSIZE + y) * CHUNKSIZE + x`
/// back into its three coordinates.
proof fn lemma_flat_index(x: int, y: int, z: int)
    requires
        0 <= x < CHUNKSIZE,
        0 <= y < CHUNKSIZE,
        0 <= z < CHUNKSIZE,
    ensures
        ((z * (CHUNKSIZE as int) + y) * (CHUNKSIZE as int) + x) % (CHUNKSIZE as int) == x,
        (((z * (CHUNKSIZE as int) + y) * (CHUNKSIZE as int) + x) / (CHUNKSIZE as int)) % (
        CHUNKSIZE as int) == y,
        ((z * (CHUNKSIZE as int) + y) * (CHUNKSIZE as int) + x) / ((CHUNKSIZE * CHUNKSIZE) as int)
            == z,
{
    let cs = CHUNKSIZE as int;
    let m = (z * cs + y) * cs + x;
    lemma_fundamental_div_mod_converse(m, cs, z * cs + y, x);
    lemma_fundamental_div_mod_converse(z * cs + y, cs, z, y);
    lemma_fundamental_div_mod_converse(m, cs * cs, z, y * cs + x);
}

} // verus!
