//! Material tiles of the texture atlas: fixed material slots, a first-fit
//! rectangle packer that keeps a padding between tiles, and the atlas pixels
//! that the GPU texture is filled from.
use vstd::prelude::*;
use crate::text::str_eq;

verus! {

/// Most materials the atlas holds.
pub const MAX_MATERIALS: usize = 1024;

/// Pixels kept free around every tile, against bleeding when sampling.
pub const ATLAS_PADDING: u32 = 2;

pub type MaterialId = u32;

/// A material's rectangle in atlas pixels: `min` is its first pixel, `max` one
/// past its last. Divided by the atlas size it is the material's UV range.
#[derive(Debug, Clone, Copy, PartialEq, Eq, Structural)]
pub struct AtlasUV {
    pub min_x: u32,
    pub min_y: u32,
    pub max_x: u32,
    pub max_y: u32,
}

/// Where a material's pixels were placed (the padding lies around it).
#[derive(Debug, Clone, Copy, PartialEq, Eq, Structural)]
pub struct PackedRect {
    pub x: u32,
    pub y: u32,
    pub width: u32,
    pub height: u32,
    pub material_id: u32,
}

/// Size and fill of the atlas; the share in use is `used_area / total_area`.
#[derive(Debug, Clone, Copy, PartialEq, Eq, Structural)]
pub struct AtlasStats {
    pub atlas_size: u32,
    pub materials_count: usize,
    pub used_area: u128,
    pub total_area: u64,
}

/// The atlas as its contracts speak of it: its side in pixels, the names and
/// rectangles of its materials in the order they were added (the material id is
/// the position), its RGBA pixels row by row, and whether they changed since the
/// last upload.
pub struct AtlasModel {
    pub size: nat,
    pub names: Seq<Seq<char>>,
    pub rects: Seq<PackedRect>,
    pub pixels: Seq<u8>,
    pub dirty: bool,
}

/// The UV rectangle of a placed tile, in pixels.
pub open spec fn uv_of(r: PackedRect) -> AtlasUV {
    AtlasUV {
        min_x: r.x,
        min_y: r.y,
        max_x: (r.x + r.width) as u32,
        max_y: (r.y + r.height) as u32,
    }
}

/// The test that refuses a padded candidate of `w` by `h` at (`x`, `y`) because of
/// the placed tile `r`.
pub open spec fn overlaps(r: PackedRect, x: int, y: int, w: int, h: int, p: int) -> bool {
    &&& x < r.x + r.width + 2 * p
    &&& x + w > r.x
    &&& y < r.y + r.height + 2 * p
    &&& y + h > r.y
}

/// No placed tile refuses the candidate.
pub open spec fn can_place(rects: Seq<PackedRect>, x: int, y: int, w: int, h: int, p: int) -> bool {
    forall|i: int| 0 <= i < rects.len() ==> !overlaps(#[trigger] rects[i], x, y, w, h, p)
}

/// (`x`, `y`) is a corner that the packer tries for a padded tile of `w` by `h`
/// in an atlas of side `s`.
pub open spec fn candidate(s: int, x: int, y: int, w: int, h: int) -> bool {
    0 <= y < s - h && 0 <= x < s - w
}

/// (`x`, `y`) is the first corner, row by row and then column by column, where
/// the padded tile can go.
pub open spec fn first_fit(rects: Seq<PackedRect>, s: int, x: int, y: int, w: int, h: int, p: int) -> bool {
    &&& candidate(s, x, y, w, h)
    &&& can_place(rects, x, y, w, h, p)
    &&& forall|x2: int, y2: int|
        candidate(s, x2, y2, w, h) && (y2 < y || (y2 == y && x2 < x)) ==> !#[trigger] can_place(
            rects,
            x2,
            y2,
            w,
            h,
            p,
        )
}

/// Some corner takes the padded tile.
pub open spec fn any_fit(rects: Seq<PackedRect>, s: int, w: int, h: int, p: int) -> bool {
    exists|x: int, y: int| candidate(s, x, y, w, h) && #[trigger] can_place(rects, x, y, w, h, p)
}

/// The packer's search is defined for a tile of `w` by `h`: its padded height fits
/// the atlas, and so does its padded width unless no row is searched at all.
pub open spec fn pack_defined(s: int, w: int, h: int, p: int) -> bool {
    &&& h + 2 * p <= s
    &&& w + 2 * p <= u32::MAX
    &&& (w + 2 * p <= s || h + 2 * p == s)
}

/// The tile lies inside the atlas with at least the padding to its edges.
pub open spec fn inside(r: PackedRect, s: int, p: int) -> bool {
    &&& p <= r.x
    &&& p <= r.y
    &&& r.x + r.width + p < s
    &&& r.y + r.height + p < s
}

/// At least `p` pixels lie between the two tiles, across or down.
pub open spec fn separated(a: PackedRect, b: PackedRect, p: int) -> bool {
    ||| a.x + a.width + p <= b.x
    ||| b.x + b.width + p <= a.x
    ||| a.y + a.height + p <= b.y
    ||| b.y + b.height + p <= a.y
}

/// Every tile lies inside the atlas and every two tiles are apart.
pub open spec fn packing_ok(rects: Seq<PackedRect>, s: int, p: int) -> bool {
    &&& forall|i: int| 0 <= i < rects.len() ==> inside(#[trigger] rects[i], s, p)
    &&& forall|i: int, j: int|
        0 <= i < rects.len() && 0 <= j < rects.len() && i != j ==> separated(
            #[trigger] rects[i],
            #[trigger] rects[j],
            p,
        )
}

/// Byte `k` of an atlas of side `s` belongs to a pixel of the tile `r`.
pub open spec fn in_tile(s: int, r: PackedRect, k: int) -> bool {
    &&& r.x <= (k / 4) % s < r.x + r.width
    &&& r.y <= (k / 4) / s < r.y + r.height
}

/// The byte of a `r.width`-wide source image that lands on atlas byte `k`.
pub open spec fn source_index(s: int, r: PackedRect, k: int) -> int {
    ((((k / 4) / s) - r.y) * r.width + ((k / 4) % s - r.x)) * 4 + k % 4
}

/// The atlas pixels after the source image is copied into the tile `r`.
pub open spec fn blitted(old: Seq<u8>, s: int, r: PackedRect, src: Seq<u8>) -> Seq<u8> {
    Seq::new(
        old.len(),
        |k: int|
            if in_tile(s, r, k) {
                src[source_index(s, r, k)]
            } else {
                old[k]
            },
    )
}

/// Sum of the areas of the tiles.
pub open spec fn area_sum(rects: Seq<PackedRect>) -> int
    decreases rects.len(),
{
    if rects.len() == 0 {
        0
    } else {
        area_sum(rects.drop_last()) + rects.last().width * rects.last().height
    }
}

/// The atlas side that a device allows: the asked size, at most the device's
/// largest 2D texture.
pub open spec fn clamped_size(atlas_size: u32, max_dimension: u32) -> u32 {
    if atlas_size < max_dimension {
        atlas_size
    } else {
        max_dimension
    }
}

/// Material slots, tile placement and pixels of a texture atlas.
pub struct PreallocatedTextureAtlas {
    atlas_size: u32,
    tile_size: u32,
    padding: u32,
    material_uvs: Vec<Option<AtlasUV>>,
    material_names: Vec<Option<String>>,
    active_materials: Vec<MaterialId>,
    packed_rects: Vec<PackedRect>,
    atlas_pixels: Vec<u8>,
    dirty: bool,
}

impl View for PreallocatedTextureAtlas {
    type V = AtlasModel;

    closed spec fn view(&self) -> AtlasModel {
        AtlasModel {
            size: self.atlas_size as nat,
            names: Seq::new(
                self.packed_rects@.len(),
                |i: int| self.material_names@[i].unwrap()@,
            ),
            rects: self.packed_rects@,
            pixels: self.atlas_pixels@,
            dirty: self.dirty,
        }
    }
}

impl PreallocatedTextureAtlas {
    /// Material ids are handed out from 0 in order, each slot's UV is that of its
    /// tile, the tiles are packed apart inside the atlas, and the pixels cover it.
    pub closed spec fn wf(&self) -> bool {
        let n = self.packed_rects@.len();
        &&& self.padding == ATLAS_PADDING
        &&& self.material_uvs@.len() == MAX_MATERIALS
        &&& self.material_names@.len() == MAX_MATERIALS
        &&& n <= MAX_MATERIALS
        &&& self.active_materials@.len() == n
        &&& forall|i: int| 0 <= i < n ==> #[trigger] self.active_materials@[i] == i as u32
        &&& forall|i: int| 0 <= i < n ==> (#[trigger] self.packed_rects@[i]).material_id == i as u32
        &&& forall|i: int|
            0 <= i < MAX_MATERIALS ==> #[trigger] self.material_uvs@[i] == (if i < n {
                Some(uv_of(self.packed_rects@[i]))
            } else {
                None
            })
        &&& forall|i: int| 0 <= i < MAX_MATERIALS ==> ((#[trigger] self.material_names@[i]) is Some <==> i < n)
        &&& packing_ok(self.packed_rects@, self.atlas_size as int, self.padding as int)
        &&& self.atlas_pixels@.len() == self.atlas_size * self.atlas_size * 4
    }

    /// An empty atlas whose side is `atlas_size`, clamped to the device's largest
    /// 2D texture, with transparent black pixels.
    pub fn new(max_texture_dimension: u32, atlas_size: u32, tile_size: u32) -> (atlas: Self)
        requires
            clamped_size(atlas_size, max_texture_dimension) * clamped_size(atlas_size, max_texture_dimension)
                * 4 <= usize::MAX,
        ensures
            atlas.wf(),
            atlas@.size == clamped_size(atlas_size, max_texture_dimension),
            atlas@.names.len() == 0,
            atlas@.rects.len() == 0,
            atlas@.pixels == Seq::new(atlas@.size * atlas@.size * 4, |k: int| 0u8),
            !atlas@.dirty,
    {
        let size = if atlas_size < max_texture_dimension {
            atlas_size
        } else {
            max_texture_dimension
        };
        let mut material_uvs: Vec<Option<AtlasUV>> = Vec::new();
        let mut material_names: Vec<Option<String>> = Vec::new();
        let mut i: usize = 0;
        while i < MAX_MATERIALS
            invariant
                i <= MAX_MATERIALS,
                material_uvs@.len() == i,
                material_names@.len() == i,
                forall|j: int| 0 <= j < i ==> #[trigger] material_uvs@[j] == None::<AtlasUV>,
                forall|j: int| 0 <= j < i ==> (#[trigger] material_names@[j]) is None,
            decreases MAX_MATERIALS - i,
        {
            material_uvs.push(None);
            material_names.push(None);
            i = i + 1;
        }
        let byte_len: usize = (size as usize) * (size as usize) * 4;
        let mut atlas_pixels: Vec<u8> = Vec::new();
        let mut k: usize = 0;
        while k < byte_len
            invariant
                k <= byte_len,
                atlas_pixels@.len() == k,
                forall|j: int| 0 <= j < k ==> #[trigger] atlas_pixels@[j] == 0u8,
            decreases byte_len - k,
        {
            atlas_pixels.push(0u8);
            k = k + 1;
        }
        let atlas = PreallocatedTextureAtlas {
            atlas_size: size,
            tile_size,
            padding: ATLAS_PADDING,
            material_uvs,
            material_names,
            active_materials: Vec::new(),
            packed_rects: Vec::new(),
            atlas_pixels,
            dirty: false,
        };
        proof {
            assert(atlas@.pixels =~= Seq::new(atlas@.size * atlas@.size * 4, |k: int| 0u8));
            assert(atlas@.names =~= Seq::<Seq<char>>::empty());
        }
        atlas
    }

    /// Copies a `rect.width` by `rect.height` RGBA image into the tile's pixels.
    fn blit(&mut self, rect: PackedRect, rgba: &[u8])
        requires
            old(self).wf(),
            inside(rect, old(self).atlas_size as int, old(self).padding as int),
            rgba@.len() == rect.width * rect.height * 4,
        ensures
            final(self).atlas_pixels@ == blitted(old(self).atlas_pixels@, old(self).atlas_size as int, rect, rgba@),
            final(self).atlas_size == old(self).atlas_size,
            final(self).tile_size == old(self).tile_size,
            final(self).padding == old(self).padding,
            final(self).material_uvs == old(self).material_uvs,
            final(self).material_names == old(self).material_names,
            final(self).active_materials == old(self).active_materials,
            final(self).packed_rects == old(self).packed_rects,
            final(self).dirty == old(self).dirty,
    {
        let ghost s = self.atlas_size as int;
        let ghost old_pixels = self.atlas_pixels@;
        let size = self.atlas_size as usize;
        let total: usize = self.atlas_pixels.len();
        let src_total: usize = rgba.len();
        let mut y: u32 = 0;
        while y < rect.height
            invariant
                s == self.atlas_size,
                size == s,
                total == old_pixels.len(),
                src_total == rgba@.len(),
                inside(rect, s, self.padding as int),
                rgba@.len() == rect.width * rect.height * 4,
                self.atlas_pixels@.len() == old_pixels.len(),
                old_pixels.len() == s * s * 4,
                y <= rect.height,
                self.atlas_size == old(self).atlas_size,
                self.tile_size == old(self).tile_size,
                self.padding == old(self).padding,
                self.material_uvs == old(self).material_uvs,
                self.material_names == old(self).material_names,
                self.active_materials == old(self).active_materials,
                self.packed_rects == old(self).packed_rects,
                self.dirty == old(self).dirty,
                old_pixels == old(self).atlas_pixels@,
                forall|k: int| 0 <= k < old_pixels.len() ==> #[trigger] self.atlas_pixels@[k] == (if in_tile(s, rect, k)
                    && (k / 4) / s - rect.y < y {
                    rgba@[source_index(s, rect, k)]
                } else {
                    old_pixels[k]
                }),
            decreases rect.height - y,
        {
            let mut x: u32 = 0;
            while x < rect.width
                invariant
                    s == self.atlas_size,
                    size == s,
                    total == old_pixels.len(),
                    src_total == rgba@.len(),
                    inside(rect, s, self.padding as int),
                    rgba@.len() == rect.width * rect.height * 4,
                    self.atlas_pixels@.len() == old_pixels.len(),
                    old_pixels.len() == s * s * 4,
                    y < rect.height,
                    x <= rect.width,
                    self.atlas_size == old(self).atlas_size,
                    self.tile_size == old(self).tile_size,
                    self.padding == old(self).padding,
                    self.material_uvs == old(self).material_uvs,
                    self.material_names == old(self).material_names,
                    self.active_materials == old(self).active_materials,
                    self.packed_rects == old(self).packed_rects,
                    self.dirty == old(self).dirty,
                    old_pixels == old(self).atlas_pixels@,
                    forall|k: int| 0 <= k < old_pixels.len() ==> #[trigger] self.atlas_pixels@[k] == (if in_tile(s, rect, k)
                        && ((k / 4) / s - rect.y < y || ((k / 4) / s - rect.y == y && (k / 4) % s - rect.x < x)) {
                        rgba@[source_index(s, rect, k)]
                    } else {
                        old_pixels[k]
                    }),
                decreases rect.width - x,
            {
                let dst_x = rect.x + x;
                let dst_y = rect.y + y;
                if dst_x < self.atlas_size && dst_y < self.atlas_size {
                    let ghost row = dst_y as int;
                    let ghost col = dst_x as int;
                    let ghost pix = row * s + col;
                    proof {
                        assert(row * s + col < s * s) by (nonlinear_arith)
                            requires
                                0 <= row < s,
                                0 <= col < s,
                        ;
                        assert((y as int) * (rect.width as int) + (x as int) < (rect.width as int) * (rect.height as int)) by (nonlinear_arith)
                            requires
                                0 <= x < rect.width,
                                0 <= y < rect.height,
                        ;
                    }
                    assert((row * s + col) * 4 + 4 <= s * s * 4);
                    let dst: usize = ((dst_y as usize) * size + dst_x as usize) * 4;
                    let src: usize = ((y as usize) * (rect.width as usize) + x as usize) * 4;
                    let ghost before = self.atlas_pixels@;
                    self.atlas_pixels.set(dst, rgba[src]);
                    self.atlas_pixels.set(dst + 1, rgba[src + 1]);
                    self.atlas_pixels.set(dst + 2, rgba[src + 2]);
                    self.atlas_pixels.set(dst + 3, rgba[src + 3]);
                    proof {
                        assert forall|k: int| 0 <= k < old_pixels.len() implies #[trigger] self.atlas_pixels@[k] == (if in_tile(s, rect, k)
                            && ((k / 4) / s - rect.y < y || ((k / 4) / s - rect.y == y && (k / 4) % s - rect.x < x + 1)) {
                            rgba@[source_index(s, rect, k)]
                        } else {
                            old_pixels[k]
                        }) by {
                            vstd::arithmetic::div_mod::lemma_fundamental_div_mod(k, 4);
                            vstd::arithmetic::div_mod::lemma_fundamental_div_mod(k / 4, s);
                            if dst <= k < dst + 4 {
                                vstd::arithmetic::div_mod::lemma_fundamental_div_mod_converse(k, 4, pix, k - dst);
                                vstd::arithmetic::div_mod::lemma_fundamental_div_mod_converse(pix, s, row, col);
                                assert(source_index(s, rect, k) == src + (k - dst));
                            } else {
                                if in_tile(s, rect, k) && (k / 4) / s - rect.y == y && (k / 4) % s - rect.x == x {
                                    assert(k / 4 == pix) by (nonlinear_arith)
                                        requires
                                            k / 4 == s * ((k / 4) / s) + (k / 4) % s,
                                            (k / 4) / s == row,
                                            (k / 4) % s == col,
                                            pix == row * s + col,
                                    ;
                                    assert(false);
                                }
                                assert(self.atlas_pixels@[k] == before[k]);
                            }
                        }
                    }
                }
                x = x + 1;
            }
            proof {
                assert forall|k: int| 0 <= k < old_pixels.len() implies #[trigger] self.atlas_pixels@[k] == (if in_tile(s, rect, k)
                    && (k / 4) / s - rect.y < y + 1 {
                    rgba@[source_index(s, rect, k)]
                } else {
                    old_pixels[k]
                }) by {
                    if in_tile(s, rect, k) && (k / 4) / s - rect.y == y {
                        assert((k / 4) % s - rect.x < x);
                    }
                }
            }
            y = y + 1;
        }
        proof {
            assert(self.atlas_pixels@ =~= blitted(old_pixels, s, rect, rgba@));
        }
    }

    /// The lowest material slot without a material.
    fn find_free_material_id(&self) -> (id: Option<MaterialId>)
        requires
            self.wf(),
        ensures
            id == (if self.packed_rects@.len() < MAX_MATERIALS {
                Some(self.packed_rects@.len() as u32)
            } else {
                None
            }),
    {
        let mut id: usize = 0;
        while id < MAX_MATERIALS
            invariant
                self.wf(),
                id <= MAX_MATERIALS,
                id <= self.packed_rects@.len(),
            decreases MAX_MATERIALS - id,
        {
            if self.material_uvs[id].is_none() {
                return Some(id as u32);
            }
            id = id + 1;
        }
        None
    }

    /// Whether no placed tile refuses a padded candidate of `width` by `height`
    /// at (`x`, `y`).
    fn can_place_at(&self, x: u64, y: u64, width: u64, height: u64) -> (ok: bool)
        requires
            self.wf(),
            x < 0x1_0000_0000,
            y < 0x1_0000_0000,
            width < 0x1_0000_0000,
            height < 0x1_0000_0000,
        ensures
            ok == can_place(self.packed_rects@, x as int, y as int, width as int, height as int, self.padding as int),
    {
        let p2: u64 = (self.padding as u64) * 2;
        let mut i: usize = 0;
        while i < self.packed_rects.len()
            invariant
                self.wf(),
                i <= self.packed_rects@.len(),
                p2 == self.padding * 2,
                x < 0x1_0000_0000,
                y < 0x1_0000_0000,
                width < 0x1_0000_0000,
                height < 0x1_0000_0000,
                forall|j: int| 0 <= j < i ==> !overlaps(#[trigger] self.packed_rects@[j], x as int, y as int, width as int, height as int, self.padding as int),
            decreases self.packed_rects@.len() - i,
        {
            let rect = self.packed_rects[i];
            let rx = rect.x as u64;
            let ry = rect.y as u64;
            if x < rx + rect.width as u64 + p2 && x + width > rx && y < ry + rect.height as u64 + p2 && y + height > ry {
                return false;
            }
            i = i + 1;
        }
        true
    }

    /// The first place, row by row and then column by column, for a tile of
    /// `width` by `height` with its padding.
    fn pack_rect(&self, width: u32, height: u32) -> (rect: Option<PackedRect>)
        requires
            self.wf(),
            pack_defined(self.atlas_size as int, width as int, height as int, self.padding as int),
        ensures
            match rect {
                Some(r) => {
                    &&& first_fit(
                        self.packed_rects@,
                        self.atlas_size as int,
                        r.x - self.padding,
                        r.y - self.padding,
                        width + 2 * self.padding,
                        height + 2 * self.padding,
                        self.padding as int,
                    )
                    &&& r.width == width
                    &&& r.height == height
                    &&& r.material_id == 0
                },
                None => !any_fit(
                    self.packed_rects@,
                    self.atlas_size as int,
                    width + 2 * self.padding,
                    height + 2 * self.padding,
                    self.padding as int,
                ),
            },
    {
        let ghost s = self.atlas_size as int;
        let ghost p = self.padding as int;
        let padded_width: u32 = width + self.padding * 2;
        let padded_height: u32 = height + self.padding * 2;
        let ghost w = padded_width as int;
        let ghost h = padded_height as int;
        let rows: u32 = self.atlas_size - padded_height;
        let mut y: u32 = 0;
        while y < rows
            invariant
                self.wf(),
                s == self.atlas_size,
                p == self.padding,
                w == padded_width,
                h == padded_height,
                w == width + 2 * p,
                h == height + 2 * p,
                pack_defined(s, width as int, height as int, p),
                rows == s - h,
                y <= rows,
                forall|x2: int, y2: int| candidate(s, x2, y2, w, h) && y2 < y ==> !#[trigger] can_place(self.packed_rects@, x2, y2, w, h, p),
            decreases rows - y,
        {
            let cols: u32 = self.atlas_size - padded_width;
            let mut x: u32 = 0;
            while x < cols
                invariant
                    self.wf(),
                    s == self.atlas_size,
                    p == self.padding,
                    w == padded_width,
                    h == padded_height,
                    w == width + 2 * p,
                    h == height + 2 * p,
                    rows == s - h,
                    cols == s - w,
                    y < rows,
                    x <= cols,
                    forall|x2: int, y2: int| candidate(s, x2, y2, w, h) && y2 < y ==> !#[trigger] can_place(self.packed_rects@, x2, y2, w, h, p),
                    forall|x2: int| 0 <= x2 < x ==> !#[trigger] can_place(self.packed_rects@, x2, y as int, w, h, p),
                decreases cols - x,
            {
                if self.can_place_at(x as u64, y as u64, padded_width as u64, padded_height as u64) {
                    return Some(PackedRect {
                        x: x + self.padding,
                        y: y + self.padding,
                        width,
                        height,
                        material_id: 0,
                    });
                }
                x = x + 1;
            }
            y = y + 1;
        }
        None
    }

    /// Adds a material from its RGBA pixels (`width * height * 4` bytes, row by
    /// row): it takes the lowest free slot and the first place, row by row and
    /// then column by column, where the tile fits with its padding. `None`, with
    /// the atlas unchanged, when every slot is taken or no place is left.
    pub fn add_material(&mut self, name: &str, width: u32, height: u32, rgba: &[u8]) -> (id: Option<MaterialId>)
        requires
            old(self).wf(),
            rgba@.len() == width * height * 4,
            pack_defined(old(self)@.size as int, width as int, height as int, ATLAS_PADDING as int),
        ensures
            final(self).wf(),
            final(self)@.size == old(self)@.size,
            id is None <==> (old(self)@.rects.len() >= MAX_MATERIALS || !any_fit(
                old(self)@.rects,
                old(self)@.size as int,
                width + 2 * ATLAS_PADDING,
                height + 2 * ATLAS_PADDING,
                ATLAS_PADDING as int,
            )),
            id is None ==> final(self)@ == old(self)@,
            id matches Some(m) ==> {
                let r = final(self)@.rects.last();
                &&& m == old(self)@.rects.len()
                &&& final(self)@.rects.len() == old(self)@.rects.len() + 1
                &&& final(self)@.rects.drop_last() == old(self)@.rects
                &&& r.width == width
                &&& r.height == height
                &&& r.material_id == m
                &&& first_fit(
                    old(self)@.rects,
                    old(self)@.size as int,
                    r.x - ATLAS_PADDING,
                    r.y - ATLAS_PADDING,
                    width + 2 * ATLAS_PADDING,
                    height + 2 * ATLAS_PADDING,
                    ATLAS_PADDING as int,
                )
                &&& final(self)@.names == old(self)@.names.push(name@)
                &&& final(self)@.pixels == blitted(old(self)@.pixels, old(self)@.size as int, r, rgba@)
                &&& final(self)@.dirty
            },
    {
        let material_id = match self.find_free_material_id() {
            Some(id) => id,
            None => {
                return None;
            },
        };
        let placed = match self.pack_rect(width, height) {
            Some(r) => r,
            None => {
                return None;
            },
        };
        let rect = PackedRect {
            x: placed.x,
            y: placed.y,
            width: placed.width,
            height: placed.height,
            material_id,
        };
        let ghost s = self.atlas_size as int;
        let ghost p = self.padding as int;
        let ghost rects = self.packed_rects@;
        proof {
            assert forall|i: int| 0 <= i < rects.len() implies separated(rects[i], rect, p) && separated(rect, rects[i], p) by {
                assert(!overlaps(rects[i], rect.x - p, rect.y - p, width + 2 * p, height + 2 * p, p));
            }
        }
        self.blit(rect, rgba);
        let uv = AtlasUV {
            min_x: rect.x,
            min_y: rect.y,
            max_x: rect.x + rect.width,
            max_y: rect.y + rect.height,
        };
        self.material_uvs.set(material_id as usize, Some(uv));
        self.material_names.set(material_id as usize, Some(String::from_str(name)));
        self.active_materials.push(material_id);
        self.packed_rects.push(rect);
        self.dirty = true;
        proof {
            let n = rects.len();
            let rs = self.packed_rects@;
            assert(rs.drop_last() =~= rects);
            assert forall|i: int, j: int| 0 <= i < rs.len() && 0 <= j < rs.len() && i != j implies separated(
                #[trigger] rs[i],
                #[trigger] rs[j],
                p,
            ) by {
                if i < n && j < n {
                    assert(rs[i] == rects[i] && rs[j] == rects[j]);
                }
            }
            assert forall|i: int| 0 <= i < rs.len() implies inside(#[trigger] rs[i], s, p) by {
                if i < n {
                    assert(rs[i] == rects[i]);
                }
            }
            assert(self@.names =~= old(self)@.names.push(name@)) by {
                assert forall|i: int| 0 <= i < n implies self.material_names@[i] == old(self).material_names@[i] by {}
            }
        }
        Some(material_id)
    }

    /// The UV rectangle, in atlas pixels, of the material in slot `material_id`.
    pub fn get_uv(&self, material_id: MaterialId) -> (uv: Option<AtlasUV>)
        requires
            self.wf(),
        ensures
            uv == (if material_id < self@.rects.len() {
                Some(uv_of(self@.rects[material_id as int]))
            } else {
                None
            }),
    {
        if (material_id as usize) < MAX_MATERIALS {
            self.material_uvs[material_id as usize]
        } else {
            None
        }
    }

    /// The first material, in the order they were added, with this name.
    pub fn get_material_by_name(&self, name: &str) -> (id: Option<MaterialId>)
        requires
            self.wf(),
        ensures
            match id {
                Some(m) => m < self@.names.len() && self@.names[m as int] == name@ && forall|j: int|
                    0 <= j < m ==> self@.names[j] != name@,
                None => forall|j: int| 0 <= j < self@.names.len() ==> self@.names[j] != name@,
            },
    {
        let mut i: usize = 0;
        while i < self.active_materials.len()
            invariant
                self.wf(),
                i <= self@.names.len(),
                forall|j: int| 0 <= j < i ==> self@.names[j] != name@,
            decreases self@.names.len() - i,
        {
            let id = self.active_materials[i];
            if let Some(mat_name) = &self.material_names[id as usize] {
                if str_eq(mat_name.as_str(), name) {
                    return Some(id);
                }
            }
            i = i + 1;
        }
        None
    }

    /// Whether the pixels changed since the last upload; marks them uploaded.
    pub fn take_dirty(&mut self) -> (was_dirty: bool)
        requires
            old(self).wf(),
        ensures
            final(self).wf(),
            was_dirty == old(self)@.dirty,
            final(self)@ == (AtlasModel { dirty: false, ..old(self)@ }),
    {
        let was_dirty = self.dirty;
        self.dirty = false;
        was_dirty
    }

    /// The atlas pixels, RGBA row by row, as the GPU texture takes them.
    pub fn pixels(&self) -> (bytes: &[u8])
        ensures
            bytes@ == self@.pixels,
    {
        self.atlas_pixels.as_slice()
    }

    /// Removes every material and makes the pixels transparent black.
    pub fn clear(&mut self)
        requires
            old(self).wf(),
        ensures
            final(self).wf(),
            final(self)@.size == old(self)@.size,
            final(self)@.names.len() == 0,
            final(self)@.rects.len() == 0,
            final(self)@.pixels == Seq::new(old(self)@.pixels.len(), |k: int| 0u8),
            final(self)@.dirty,
    {
        let mut i: usize = 0;
        while i < self.active_materials.len()
            invariant
                self.padding == ATLAS_PADDING,
                self.material_uvs@.len() == MAX_MATERIALS,
                self.material_names@.len() == MAX_MATERIALS,
                self.active_materials == old(self).active_materials,
                self.packed_rects == old(self).packed_rects,
                self.atlas_pixels == old(self).atlas_pixels,
                self.atlas_size == old(self).atlas_size,
                old(self).wf(),
                i <= self.active_materials@.len(),
                forall|j: int| 0 <= j < MAX_MATERIALS ==> #[trigger] self.material_uvs@[j] == (if i <= j < self.packed_rects@.len() {
                    Some(uv_of(self.packed_rects@[j]))
                } else {
                    None
                }),
                forall|j: int| 0 <= j < MAX_MATERIALS ==> ((#[trigger] self.material_names@[j]) is Some <==> i <= j < self.packed_rects@.len()),
            decreases self.active_materials@.len() - i,
        {
            let id = self.active_materials[i];
            self.material_uvs.set(id as usize, None);
            self.material_names.set(id as usize, None);
            i = i + 1;
        }
        self.active_materials.clear();
        self.packed_rects.clear();
        let mut k: usize = 0;
        while k < self.atlas_pixels.len()
            invariant
                self.atlas_pixels@.len() == old(self).atlas_pixels@.len(),
                self.atlas_size == old(self).atlas_size,
                old(self).wf(),
                self.padding == ATLAS_PADDING,
                self.material_uvs@.len() == MAX_MATERIALS,
                self.material_names@.len() == MAX_MATERIALS,
                self.active_materials@.len() == 0,
                self.packed_rects@.len() == 0,
                forall|j: int| 0 <= j < MAX_MATERIALS ==> #[trigger] self.material_uvs@[j] == None::<AtlasUV>,
                forall|j: int| 0 <= j < MAX_MATERIALS ==> (#[trigger] self.material_names@[j]) is None,
                k <= self.atlas_pixels@.len(),
                forall|j: int| 0 <= j < k ==> #[trigger] self.atlas_pixels@[j] == 0u8,
            decreases self.atlas_pixels@.len() - k,
        {
            self.atlas_pixels.set(k, 0u8);
            k = k + 1;
        }
        self.dirty = true;
        proof {
            assert(self@.pixels =~= Seq::new(old(self)@.pixels.len(), |k: int| 0u8));
        }
    }

    /// Side, material count and covered area of the atlas.
    pub fn stats(&self) -> (stats: AtlasStats)
        requires
            self.wf(),
        ensures
            stats.atlas_size == self@.size,
            stats.materials_count == self@.rects.len(),
            stats.used_area == area_sum(self@.rects),
            stats.total_area == self@.size * self@.size,
    {
        let mut used: u128 = 0;
        let mut i: usize = 0;
        while i < self.packed_rects.len()
            invariant
                self.wf(),
                i <= self.packed_rects@.len(),
                used == area_sum(self.packed_rects@.subrange(0, i as int)),
                used <= i * 0x1_0000_0000_0000_0000,
            decreases self.packed_rects@.len() - i,
        {
            let r = self.packed_rects[i];
            proof {
                let sub = self.packed_rects@.subrange(0, i + 1);
                assert(sub.drop_last() =~= self.packed_rects@.subrange(0, i as int));
                assert((r.width as int) * (r.height as int) < 0x1_0000_0000_0000_0000) by (nonlinear_arith)
                    requires
                        0 <= r.width < 0x1_0000_0000,
                        0 <= r.height < 0x1_0000_0000,
                ;
            }
            used = used + (r.width as u128) * (r.height as u128);
            i = i + 1;
        }
        proof {
            assert(self.packed_rects@.subrange(0, self.packed_rects@.len() as int) =~= self.packed_rects@);
            assert((self.atlas_size as int) * (self.atlas_size as int) < 0x1_0000_0000_0000_0000) by (nonlinear_arith)
                requires
                    0 <= self.atlas_size < 0x1_0000_0000,
            ;
        }
        AtlasStats {
            atlas_size: self.atlas_size,
            materials_count: self.active_materials.len(),
            used_area: used,
            total_area: (self.atlas_size as u64) * (self.atlas_size as u64),
        }
    }
}

/// Tiles never overlap: in a well-formed atlas, whatever materials were added,
/// every tile lies inside the atlas with the padding to its edges, every two
/// tiles are at least the padding apart, and material `i` is the `i`-th tile.
pub proof fn lemma_tiles_apart(atlas: &PreallocatedTextureAtlas)
    requires
        atlas.wf(),
    ensures
        packing_ok(atlas@.rects, atlas@.size as int, ATLAS_PADDING as int),
        atlas@.names.len() == atlas@.rects.len(),
        atlas@.rects.len() <= MAX_MATERIALS,
        forall|i: int| 0 <= i < atlas@.rects.len() ==> (#[trigger] atlas@.rects[i]).material_id == i,
        atlas@.pixels.len() == atlas@.size * atlas@.size * 4,
{
}

/// A material's pixels land on its tile: source pixel (`x`, `y`), channel `c`,
/// is atlas pixel (`r.x + x`, `r.y + y`), channel `c`, after the copy.
pub proof fn lemma_blit_places_source(old: Seq<u8>, s: int, r: PackedRect, src: Seq<u8>, x: int, y: int, c: int)
    requires
        inside(r, s, ATLAS_PADDING as int),
        old.len() == s * s * 4,
        0 <= x < r.width,
        0 <= y < r.height,
        0 <= c < 4,
    ensures
        blitted(old, s, r, src)[((r.y + y) * s + r.x + x) * 4 + c] == src[(y * r.width + x) * 4 + c],
{
    let row = r.y + y;
    let col = r.x + x;
    let pix = row * s + col;
    let k = pix * 4 + c;
    assert(pix < s * s) by (nonlinear_arith)
        requires
            0 <= row < s,
            0 <= col < s,
            pix == row * s + col,
    ;
    vstd::arithmetic::div_mod::lemma_fundamental_div_mod_converse(k, 4, pix, c);
    vstd::arithmetic::div_mod::lemma_fundamental_div_mod_converse(pix, s, row, col);
    assert(0 <= k < old.len());
}

/// A material just added is found again: its slot's UV is that of the tile
/// placed for it, and a name not used before is found at that slot.
pub proof fn lemma_added_material_found(before: AtlasModel, after: AtlasModel, name: Seq<char>, m: u32)
    requires
        m == before.rects.len(),
        after.rects.len() == before.rects.len() + 1,
        after.names == before.names.push(name),
        before.names.len() == before.rects.len(),
    ensures
        m < after.rects.len(),
        after.rects[m as int] == after.rects.last(),
        after.names[m as int] == name,
        (forall|j: int| 0 <= j < before.names.len() ==> before.names[j] != name) ==> forall|j: int|
            0 <= j < m ==> after.names[j] != name,
{
    assert(after.names[m as int] == name);
}

} // verus!
