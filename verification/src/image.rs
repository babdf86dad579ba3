//! Image ids and multi-cell composite images.
//!
//! Image ids index a square sprite atlas of `IMAGES_X` columns: the id of
//! the sprite in grid cell `(x, y)` is `x + y * IMAGES_X`. A `MultiImage`
//! is a composite of several single-cell sprites placed together.

use vstd::prelude::*;

verus! {

/// An index into the sprite atlas.
pub type ImageId = u16;

/// Number of sprite columns in the atlas.
pub const IMAGES_X: ImageId = 16;

/// Number of sprite rows in the atlas.
pub const IMAGES_Y: ImageId = 16;

/// Total number of atlas cells.
pub const IMAGES_CNT: ImageId = IMAGES_X * IMAGES_Y;

/// Grass surface, atlas cell (0, 0).
pub const GRASS: ImageId = 0;

/// Iron ore rock, atlas cell (2, 0).
pub const IRON: ImageId = 2;

/// Plain stone, atlas cell (3, 0).
pub const STONE: ImageId = 3;

/// Gold ore rock, atlas cell (4, 0).
pub const GOLD: ImageId = 4;

/// Water surface, atlas cell (3, 1).
pub const WATER: ImageId = 19;

/// Copper ore rock, atlas cell (4, 1).
pub const COPPER: ImageId = 20;

/// Dirt, atlas cell (3, 2).
pub const DIRT: ImageId = 35;

/// Pine tree foliage, atlas cell (5, 0).
pub const PINE_1_1: ImageId = 5;

/// Oak tree foliage, atlas cell (5, 1).
pub const OAK_1_1: ImageId = 21;

/// Red oak foliage, atlas cell (5, 2).
pub const OAK_1_1_RED: ImageId = 37;

/// Small oak foliage, atlas cell (5, 3).
pub const OAK_1_1_SMALL: ImageId = 53;

/// One cell of a composite image: the index of the composite it belongs to
/// and the cell's offset from the composite's top-left corner.
#[derive(Clone, Copy, Debug, PartialEq)]
pub struct MultiImagePart {
    pub image_id: ImageId,
    pub dx: i32,
    pub dy: i32,
}

/// A composite image: the atlas ids of its cells together with the bounding
/// box of the atlas region they were taken from.
#[derive(Clone, Debug, PartialEq)]
pub struct MultiImage {
    pub image_ids: Vec<ImageId>,
    pub min_x: ImageId,
    pub min_y: ImageId,
    pub size_x: ImageId,
    pub size_y: ImageId,
}

/// Largest atlas column among the first `k` cells, seeded with 0.
pub open spec fn max_x_upto(xy: Seq<(u16, u16)>, k: nat) -> int
    decreases k,
{
    if k == 0 {
        0
    } else {
        let m = max_x_upto(xy, (k - 1) as nat);
        let v = xy[k - 1].0 as int;
        if v > m {
            v
        } else {
            m
        }
    }
}

/// Largest atlas row among the first `k` cells, seeded with 0.
pub open spec fn max_y_upto(xy: Seq<(u16, u16)>, k: nat) -> int
    decreases k,
{
    if k == 0 {
        0
    } else {
        let m = max_y_upto(xy, (k - 1) as nat);
        let v = xy[k - 1].1 as int;
        if v > m {
            v
        } else {
            m
        }
    }
}

/// Smallest atlas column among the first `k` cells of a composite, seeded
/// with `IMAGES_X`.
pub open spec fn multi_min_x(ids: Seq<u16>, k: nat) -> u16
    decreases k,
{
    if k == 0 {
        IMAGES_X
    } else {
        let m = multi_min_x(ids, (k - 1) as nat);
        let v = (ids[k - 1] % 16) as u16;
        if v < m {
            v
        } else {
            m
        }
    }
}

/// Smallest atlas row among the first `k` cells of a composite, seeded
/// with `IMAGES_Y`.
pub open spec fn multi_min_y(ids: Seq<u16>, k: nat) -> u16
    decreases k,
{
    if k == 0 {
        IMAGES_Y
    } else {
        let m = multi_min_y(ids, (k - 1) as nat);
        let v = (ids[k - 1] / 16) as u16;
        if v < m {
            v
        } else {
            m
        }
    }
}

/// The reverse-map part recorded for atlas cell `v` by the composite with
/// index `multi_index` and cells `ids`: the offsets are taken from the
/// composite's own smallest used column and row.
pub open spec fn part_of(ids: Seq<u16>, multi_index: u16, v: u16) -> MultiImagePart {
    MultiImagePart {
        image_id: multi_index,
        dx: (v % 16 - multi_min_x(ids, ids.len())) as i32,
        dy: (v / 16 - multi_min_y(ids, ids.len())) as i32,
    }
}

/// Reverse-map entry for atlas cell `v` after the first `n` composites
/// have been processed; a later composite overrides an earlier one.
pub open spec fn rev_entry(arr: Seq<MultiImage>, n: nat, v: u16) -> Option<MultiImagePart>
    decreases n,
{
    if n == 0 {
        None
    } else if arr[n - 1].image_ids@.contains(v) {
        Some(part_of(arr[n - 1].image_ids@, (n - 1) as u16, v))
    } else {
        rev_entry(arr, (n - 1) as nat, v)
    }
}

/// The running minima never grow past their atlas-sized seeds.
proof fn lemma_multi_min_seed(ids: Seq<u16>, k: nat)
    ensures
        multi_min_x(ids, k) <= IMAGES_X,
        multi_min_y(ids, k) <= IMAGES_Y,
    decreases k,
{
    if k > 0 {
        lemma_multi_min_seed(ids, (k - 1) as nat);
    }
}

/// The running minima never exceed the column and row of any listed cell.
proof fn lemma_multi_min_bounds(ids: Seq<u16>, k: nat, j: int)
    requires
        0 <= j < k <= ids.len(),
    ensures
        multi_min_x(ids, k) <= ids[j] % 16,
        multi_min_y(ids, k) <= ids[j] / 16,
    decreases k,
{
    if j < k - 1 {
        lemma_multi_min_bounds(ids, (k - 1) as nat, j);
    }
}

impl MultiImage {
    /// Build a composite from atlas grid positions. The bounding box is
    /// anchored at the atlas origin, so `min_x` and `min_y` come out 0 and
    /// the size spans from the origin to the largest used cell.
    pub fn new(image_ids_xy: Vec<(ImageId, ImageId)>) -> (m: MultiImage)
        requires
            forall|k: int|
                0 <= k < image_ids_xy@.len() ==> (#[trigger] image_ids_xy@[k]).0 < IMAGES_X
                    && image_ids_xy@[k].1 < IMAGES_Y,
        ensures
            m.image_ids@.len() == image_ids_xy@.len(),
            forall|k: int|
                0 <= k < image_ids_xy@.len() ==> #[trigger] m.image_ids@[k] == image_ids_xy@[k].0
                    + image_ids_xy@[k].1 * IMAGES_X,
            m.min_x == 0,
            m.min_y == 0,
            m.size_x == max_x_upto(image_ids_xy@, image_ids_xy@.len()) + 1,
            m.size_y == max_y_upto(image_ids_xy@, image_ids_xy@.len()) + 1,
    {
        let mut image_ids: Vec<ImageId> = Vec::new();
        let mut max_x: u16 = 0;
        let mut max_y: u16 = 0;
        let mut k: usize = 0;
        while k < image_ids_xy.len()
            invariant
                k <= image_ids_xy@.len(),
                forall|j: int|
                    0 <= j < image_ids_xy@.len() ==> (#[trigger] image_ids_xy@[j]).0 < IMAGES_X
                        && image_ids_xy@[j].1 < IMAGES_Y,
                image_ids@.len() == k,
                forall|j: int|
                    0 <= j < k ==> #[trigger] image_ids@[j] == image_ids_xy@[j].0
                        + image_ids_xy@[j].1 * IMAGES_X,
                max_x == max_x_upto(image_ids_xy@, k as nat),
                max_y == max_y_upto(image_ids_xy@, k as nat),
                max_x < IMAGES_X,
                max_y < IMAGES_Y,
            decreases image_ids_xy@.len() - k,
        {
            let (x, y) = image_ids_xy[k];
            if x > max_x {
                max_x = x;
            }
            if y > max_y {
                max_y = y;
            }
            image_ids.push(x + y * IMAGES_X);
            k = k + 1;
        }
        MultiImage { image_ids, min_x: 0, min_y: 0, size_x: max_x + 1, size_y: max_y + 1 }
    }

    /// Build the reverse lookup table from atlas cell to composite part.
    /// The table has one slot per atlas cell; a cell used by several
    /// composites keeps the part of the composite listed last.
    pub fn generate_multi_reverse_map(multi_array: &[MultiImage]) -> (r: Vec<
        Option<MultiImagePart>,
    >)
        requires
            multi_array@.len() < 0x10000,
            forall|i: int, k: int|
                0 <= i < multi_array@.len() && 0 <= k < (#[trigger] multi_array@[i]).image_ids@.len()
                    ==> (#[trigger] multi_array@[i].image_ids@[k]) < IMAGES_CNT,
        ensures
            r@.len() == IMAGES_CNT,
            forall|v: u16|
                v < IMAGES_CNT ==> #[trigger] r@[v as int] == rev_entry(
                    multi_array@,
                    multi_array@.len(),
                    v,
                ),
    {
        let mut map: Vec<Option<MultiImagePart>> = Vec::new();
        let mut v: usize = 0;
        while v < IMAGES_CNT as usize
            invariant
                v <= IMAGES_CNT,
                map@.len() == v,
                forall|w: int| 0 <= w < v ==> map@[w] is None,
            decreases IMAGES_CNT - v,
        {
            map.push(None);
            v = v + 1;
        }
        let mut i: usize = 0;
        while i < multi_array.len()
            invariant
                i <= multi_array@.len(),
                multi_array@.len() < 0x10000,
                forall|ii: int, k: int|
                    0 <= ii < multi_array@.len() && 0 <= k < (
                    #[trigger] multi_array@[ii]).image_ids@.len() ==> (
                    #[trigger] multi_array@[ii].image_ids@[k]) < IMAGES_CNT,
                map@.len() == IMAGES_CNT,
                forall|w: u16|
                    w < IMAGES_CNT ==> #[trigger] map@[w as int] == rev_entry(
                        multi_array@,
                        i as nat,
                        w,
                    ),
            decreases multi_array@.len() - i,
        {
            let ids = &multi_array[i].image_ids;
            let ghost full: nat = ids@.len();
            let mut min_x: u16 = IMAGES_X;
            let mut min_y: u16 = IMAGES_Y;
            let mut k: usize = 0;
            while k < ids.len()
                invariant
                    k <= ids@.len(),
                    min_x == multi_min_x(ids@, k as nat),
                    min_y == multi_min_y(ids@, k as nat),
                decreases ids@.len() - k,
            {
                let x = ids[k] % IMAGES_X;
                let y = ids[k] / IMAGES_X;
                if x < min_x {
                    min_x = x;
                }
                if y < min_y {
                    min_y = y;
                }
                k = k + 1;
            }
            let mut k2: usize = 0;
            while k2 < ids.len()
                invariant
                    i < multi_array@.len(),
                    multi_array@.len() < 0x10000,
                    ids@ == multi_array@[i as int].image_ids@,
                    forall|j: int| 0 <= j < ids@.len() ==> (#[trigger] ids@[j]) < IMAGES_CNT,
                    min_x == multi_min_x(ids@, ids@.len()),
                    min_y == multi_min_y(ids@, ids@.len()),
                    k2 <= ids@.len(),
                    map@.len() == IMAGES_CNT,
                    forall|w: u16|
                        w < IMAGES_CNT ==> #[trigger] map@[w as int] == (if (exists|j: int|
                            0 <= j < k2 && ids@[j] == w) {
                            Some(part_of(ids@, i as u16, w))
                        } else {
                            rev_entry(multi_array@, i as nat, w)
                        }),
                decreases ids@.len() - k2,
            {
                let id = ids[k2];
                let x = id % IMAGES_X;
                let y = id / IMAGES_X;
                proof {
                    lemma_multi_min_bounds(ids@, ids@.len(), k2 as int);
                }
                map.set(
                    id as usize,
                    Some(
                        MultiImagePart {
                            image_id: i as ImageId,
                            dx: (x - min_x) as i32,
                            dy: (y - min_y) as i32,
                        },
                    ),
                );
                proof {
                    assert(ids@[k2 as int] == id);
                }
                k2 = k2 + 1;
            }
            proof {
                assert forall|w: u16| w < IMAGES_CNT implies map@[w as int] == rev_entry(
                    multi_array@,
                    (i + 1) as nat,
                    w,
                ) by {
                    if ids@.contains(w) {
                        let j = choose|j: int| 0 <= j < ids@.len() && ids@[j] == w;
                        assert(exists|j: int| 0 <= j < ids@.len() && ids@[j] == w);
                    }
                }
            }
            i = i + 1;
        }
        map
    }

    /// Index of the first composite in `multi_array` that contains
    /// `image_id` among its cells, if any.
    pub fn multi_id_from_image_id(image_id: ImageId, multi_array: &[MultiImage]) -> (r: Option<
        usize,
    >)
        ensures
            match r {
                Some(i) => i < multi_array@.len() && multi_array@[i as int].image_ids@.contains(
                    image_id,
                ) && forall|j: int|
                    0 <= j < i ==> !(#[trigger] multi_array@[j]).image_ids@.contains(image_id),
                None => forall|j: int|
                    0 <= j < multi_array@.len() ==> !(#[trigger] multi_array@[j]).image_ids@.contains(
                        image_id,
                    ),
            },
    {
        let mut i: usize = 0;
        while i < multi_array.len()
            invariant
                i <= multi_array@.len(),
                forall|j: int|
                    0 <= j < i ==> !(#[trigger] multi_array@[j]).image_ids@.contains(image_id),
            decreases multi_array@.len() - i,
        {
            let ids = &multi_array[i].image_ids;
            let mut k: usize = 0;
            while k < ids.len()
                invariant
                    i < multi_array@.len(),
                    ids@ == multi_array@[i as int].image_ids@,
                    forall|j: int|
                        0 <= j < i ==> !(#[trigger] multi_array@[j]).image_ids@.contains(image_id),
                    k <= ids@.len(),
                    forall|j: int| 0 <= j < k ==> ids@[j] != image_id,
                decreases ids@.len() - k,
            {
                if ids[k] == image_id {
                    assert(multi_array@[i as int].image_ids@[k as int] == image_id);
                    return Some(i);
                }
                k = k + 1;
            }
            assert(!multi_array@[i as int].image_ids@.contains(image_id));
            i = i + 1;
        }
        None
    }
}

} // verus!
