//! Lookup keys and draw planning of the GPU-driven renderer.
use vstd::prelude::*;
use crate::world::ChunkPos;
use std::collections::HashMap;

verus! {

broadcast use vstd::std_specs::hash::group_hash_axioms;

/// Convert chunk position to hash for lookup: the coordinates, widened to
/// 64 bits, shifted by 42, 21 and 0 bits and or-ed together.
pub fn chunk_pos_to_hash(pos: ChunkPos) -> (h: u64)
    ensures
        h == ((pos.x as u64) << 42u64) | ((pos.y as u64) << 21u64) | (pos.z as u64),
{
    let x = pos.x as u64;
    let y = pos.y as u64;
    let z = pos.z as u64;
    (x << 42) | (y << 21) | z
}

/// What the draw phase reads of a culled object: its mesh and its flags
/// (bit 0 set when visible).
#[derive(Debug, Clone, Copy, PartialEq, Eq, Structural)]
pub struct DrawRef {
    pub mesh_id: u32,
    pub flags: u32,
}

/// Index count drawn for a mesh whose count is not known: a cube.
pub const DEFAULT_INDEX_COUNT: u32 = 36;

/// One instanced draw: a mesh, its index count and how many instances.
#[derive(Debug, Clone, Copy, PartialEq, Eq, Structural)]
pub struct MeshDraw {
    pub mesh_id: u32,
    pub index_count: u32,
    pub instance_count: u32,
}

/// The draws of a frame and their totals.
pub struct DrawPlan {
    /// Each drawn mesh with the positions of its visible instances, meshes in
    /// the order they first appear.
    pub instances_per_mesh: Vec<(u32, Vec<u32>)>,
    /// The draws, for the meshes that have a mesh buffer.
    pub draws: Vec<MeshDraw>,
    pub total_draw_calls: u32,
    pub total_triangles: u32,
}

/// The object is drawn.
pub open spec fn is_visible(d: DrawRef) -> bool {
    d.flags & 1 != 0
}

/// Positions of the visible objects that use mesh `mesh_id`, ascending.
pub open spec fn visible_instances(meta: Seq<DrawRef>, mesh_id: u32) -> Seq<u32>
    decreases meta.len(),
{
    if meta.len() == 0 {
        Seq::empty()
    } else {
        let rest = visible_instances(meta.drop_last(), mesh_id);
        if is_visible(meta.last()) && meta.last().mesh_id == mesh_id {
            rest.push((meta.len() - 1) as u32)
        } else {
            rest
        }
    }
}

/// The meshes of the visible objects, each once, in the order they first appear.
pub open spec fn mesh_order(meta: Seq<DrawRef>) -> Seq<u32>
    decreases meta.len(),
{
    if meta.len() == 0 {
        Seq::empty()
    } else {
        let rest = mesh_order(meta.drop_last());
        if is_visible(meta.last()) && !rest.contains(meta.last().mesh_id) {
            rest.push(meta.last().mesh_id)
        } else {
            rest
        }
    }
}

/// The index count drawn for a mesh.
pub open spec fn index_count_of(counts: Map<u32, u32>, mesh_id: u32) -> u32 {
    if counts.contains_key(mesh_id) {
        counts[mesh_id]
    } else {
        DEFAULT_INDEX_COUNT
    }
}

/// The draws for meshes in this order, skipping those without a mesh buffer.
pub open spec fn draws_of(meta: Seq<DrawRef>, order: Seq<u32>, counts: Map<u32, u32>, buffer_count: nat) -> Seq<MeshDraw>
    decreases order.len(),
{
    if order.len() == 0 {
        Seq::empty()
    } else {
        let rest = draws_of(meta, order.drop_last(), counts, buffer_count);
        let m = order.last();
        if m < buffer_count {
            rest.push(
                MeshDraw {
                    mesh_id: m,
                    index_count: index_count_of(counts, m),
                    instance_count: visible_instances(meta, m).len() as u32,
                },
            )
        } else {
            rest
        }
    }
}

/// Triangles the draws produce: a third of the index count per instance.
pub open spec fn triangles_of(draws: Seq<MeshDraw>) -> int
    decreases draws.len(),
{
    if draws.len() == 0 {
        0
    } else {
        triangles_of(draws.drop_last()) + (draws.last().index_count / 3) * draws.last().instance_count
    }
}

proof fn lemma_visible_instances_len(meta: Seq<DrawRef>, mesh_id: u32)
    ensures
        visible_instances(meta, mesh_id).len() <= meta.len(),
    decreases meta.len(),
{
    if meta.len() > 0 {
        lemma_visible_instances_len(meta.drop_last(), mesh_id);
    }
}

proof fn lemma_mesh_order_len(meta: Seq<DrawRef>)
    ensures
        mesh_order(meta).len() <= meta.len(),
    decreases meta.len(),
{
    if meta.len() > 0 {
        lemma_mesh_order_len(meta.drop_last());
    }
}

proof fn lemma_triangles_nonneg(draws: Seq<MeshDraw>)
    ensures
        triangles_of(draws) >= 0,
    decreases draws.len(),
{
    if draws.len() > 0 {
        lemma_triangles_nonneg(draws.drop_last());
        assert((draws.last().index_count / 3) * draws.last().instance_count >= 0) by (nonlinear_arith);
    }
}

/// Positions of the visible objects that use one mesh.
fn collect_instances(meta: &[DrawRef], mesh_id: u32) -> (indices: Vec<u32>)
    requires
        meta@.len() <= u32::MAX,
    ensures
        indices@ == visible_instances(meta@, mesh_id),
{
    let mut indices: Vec<u32> = Vec::new();
    let mut i: usize = 0;
    while i < meta.len()
        invariant
            meta@.len() <= u32::MAX,
            i <= meta@.len(),
            indices@ == visible_instances(meta@.subrange(0, i as int), mesh_id),
        decreases meta@.len() - i,
    {
        proof {
            assert(meta@.subrange(0, i + 1).drop_last() =~= meta@.subrange(0, i as int));
        }
        let d = meta[i];
        if d.flags & 1 != 0 && d.mesh_id == mesh_id {
            indices.push(i as u32);
        }
        i = i + 1;
    }
    proof {
        assert(meta@.subrange(0, meta@.len() as int) =~= meta@);
    }
    indices
}

/// The meshes of the visible objects, each once, in the order they first appear.
fn collect_mesh_order(meta: &[DrawRef]) -> (order: Vec<u32>)
    ensures
        order@ == mesh_order(meta@),
{
    let mut order: Vec<u32> = Vec::new();
    let mut i: usize = 0;
    while i < meta.len()
        invariant
            i <= meta@.len(),
            order@ == mesh_order(meta@.subrange(0, i as int)),
        decreases meta@.len() - i,
    {
        proof {
            assert(meta@.subrange(0, i + 1).drop_last() =~= meta@.subrange(0, i as int));
        }
        let d = meta[i];
        if d.flags & 1 != 0 {
            let mut seen = false;
            let mut k: usize = 0;
            while k < order.len()
                invariant
                    k <= order@.len(),
                    seen == (exists|j: int| 0 <= j < k && order@[j] == d.mesh_id),
                decreases order@.len() - k,
            {
                if order[k] == d.mesh_id {
                    seen = true;
                }
                k = k + 1;
            }
            proof {
                if seen {
                    let j = choose|j: int| 0 <= j < k && order@[j] == d.mesh_id;
                    assert(order@.contains(d.mesh_id));
                } else {
                    assert(!order@.contains(d.mesh_id));
                }
            }
            if !seen {
                order.push(d.mesh_id);
            }
        }
        i = i + 1;
    }
    proof {
        assert(meta@.subrange(0, meta@.len() as int) =~= meta@);
    }
    order
}

/// Plans the draw phase: the visible objects grouped by mesh, meshes in the
/// order they first appear; one instanced draw per mesh that has one of the
/// `mesh_buffer_count` mesh buffers, with the index count stored for it or a
/// cube's; the draw calls and triangles counted.
pub fn plan_mesh_draws(
    meta: &[DrawRef],
    mesh_index_counts: &HashMap<u32, u32>,
    mesh_buffer_count: usize,
) -> (plan: DrawPlan)
    requires
        meta@.len() <= u32::MAX,
        triangles_of(draws_of(meta@, mesh_order(meta@), mesh_index_counts@, mesh_buffer_count as nat)) <= u32::MAX,
    ensures
        plan.instances_per_mesh@.len() == mesh_order(meta@).len(),
        forall|k: int|
            0 <= k < plan.instances_per_mesh@.len() ==> (#[trigger] plan.instances_per_mesh@[k]).0 == mesh_order(
                meta@,
            )[k] && plan.instances_per_mesh@[k].1@ == visible_instances(meta@, mesh_order(meta@)[k]),
        plan.draws@ == draws_of(meta@, mesh_order(meta@), mesh_index_counts@, mesh_buffer_count as nat),
        plan.total_draw_calls == plan.draws@.len(),
        plan.total_triangles == triangles_of(plan.draws@),
{
    let order = collect_mesh_order(meta);
    proof {
        lemma_mesh_order_len(meta@);
    }
    let ghost total = draws_of(meta@, order@, mesh_index_counts@, mesh_buffer_count as nat);
    let mut instances_per_mesh: Vec<(u32, Vec<u32>)> = Vec::new();
    let mut draws: Vec<MeshDraw> = Vec::new();
    let mut total_draw_calls: u32 = 0;
    let mut total_triangles: u32 = 0;
    let mut k: usize = 0;
    while k < order.len()
        invariant
            meta@.len() <= u32::MAX,
            order@ == mesh_order(meta@),
            total == draws_of(meta@, order@, mesh_index_counts@, mesh_buffer_count as nat),
            triangles_of(total) <= u32::MAX,
            k <= order@.len(),
            instances_per_mesh@.len() == k,
            forall|j: int|
                0 <= j < k ==> (#[trigger] instances_per_mesh@[j]).0 == order@[j] && instances_per_mesh@[j].1@
                    == visible_instances(meta@, order@[j]),
            draws@ == draws_of(meta@, order@.subrange(0, k as int), mesh_index_counts@, mesh_buffer_count as nat),
            total_draw_calls == draws@.len(),
            draws@.len() <= k,
            order@.len() <= u32::MAX,
            total_triangles == triangles_of(draws@),
        decreases order@.len() - k,
    {
        let mesh_id = order[k];
        let indices = collect_instances(meta, mesh_id);
        let instance_count = indices.len() as u32;
        proof {
            lemma_visible_instances_len(meta@, mesh_id);
            assert(order@.subrange(0, k + 1).drop_last() =~= order@.subrange(0, k as int));
        }
        if (mesh_id as usize) < mesh_buffer_count {
            let index_count = match mesh_index_counts.get(&mesh_id) {
                Some(c) => *c,
                None => DEFAULT_INDEX_COUNT,
            };
            let draw = MeshDraw { mesh_id, index_count, instance_count };
            proof {
                let next = draws@.push(draw);
                assert(next == draws_of(meta@, order@.subrange(0, k + 1), mesh_index_counts@, mesh_buffer_count as nat));
                lemma_draws_prefix_triangles(meta@, order@, mesh_index_counts@, mesh_buffer_count as nat, k + 1);
                assert(next.drop_last() =~= draws@);
                lemma_triangles_nonneg(draws@);
                assert((index_count / 3) * instance_count >= 0) by (nonlinear_arith);
            }
            total_triangles = total_triangles + (index_count / 3) * instance_count;
            total_draw_calls = total_draw_calls + 1;
            draws.push(draw);
        }
        instances_per_mesh.push((mesh_id, indices));
        k = k + 1;
    }
    proof {
        assert(order@.subrange(0, order@.len() as int) =~= order@);
    }
    DrawPlan { instances_per_mesh, draws, total_draw_calls, total_triangles }
}

/// The triangles of the draws for a prefix of the meshes are at most those of
/// all of them.
proof fn lemma_draws_prefix_triangles(meta: Seq<DrawRef>, order: Seq<u32>, counts: Map<u32, u32>, bc: nat, k: int)
    requires
        0 <= k <= order.len(),
    ensures
        triangles_of(draws_of(meta, order.subrange(0, k), counts, bc)) <= triangles_of(
            draws_of(meta, order, counts, bc),
        ),
    decreases order.len() - k,
{
    if k < order.len() {
        lemma_draws_prefix_triangles(meta, order, counts, bc, k + 1);
        let longer = order.subrange(0, k + 1);
        assert(longer.drop_last() =~= order.subrange(0, k));
        let d = draws_of(meta, longer, counts, bc);
        if longer.last() < bc {
            assert(d.drop_last() == draws_of(meta, order.subrange(0, k), counts, bc));
            assert((d.last().index_count / 3) * d.last().instance_count >= 0) by (nonlinear_arith);
        }
    } else {
        assert(order.subrange(0, k) =~= order);
    }
}

/// No visible object is left out of the grouping: its mesh is among the
/// grouped meshes and its position among that mesh's instances; and no hidden
/// object is grouped.
pub proof fn lemma_every_visible_object_grouped(meta: Seq<DrawRef>, i: int)
    requires
        0 <= i < meta.len(),
        meta.len() <= u32::MAX,
    ensures
        is_visible(meta[i]) ==> mesh_order(meta).contains(meta[i].mesh_id) && visible_instances(
            meta,
            meta[i].mesh_id,
        ).contains(i as u32),
        !is_visible(meta[i]) ==> forall|m: u32| !visible_instances(meta, m).contains(i as u32),
    decreases meta.len(),
{
    let last = meta.len() - 1;
    if i < last {
        lemma_every_visible_object_grouped(meta.drop_last(), i);
        assert(meta.drop_last()[i] == meta[i]);
        let rest_order = mesh_order(meta.drop_last());
        if is_visible(meta[i]) {
            let j = choose|j: int| 0 <= j < rest_order.len() && rest_order[j] == meta[i].mesh_id;
            assert(mesh_order(meta).contains(meta[i].mesh_id)) by {
                if is_visible(meta.last()) && !rest_order.contains(meta.last().mesh_id) {
                    assert(mesh_order(meta)[j] == meta[i].mesh_id);
                }
            }
            let rest_inst = visible_instances(meta.drop_last(), meta[i].mesh_id);
            let t = choose|t: int| 0 <= t < rest_inst.len() && rest_inst[t] == i as u32;
            assert(visible_instances(meta, meta[i].mesh_id)[t] == i as u32);
        } else {
            assert forall|m: u32| !visible_instances(meta, m).contains(i as u32) by {
                lemma_instances_below(meta.drop_last(), m);
                if visible_instances(meta, m).contains(i as u32) {
                    let t = choose|t: int| 0 <= t < visible_instances(meta, m).len() && visible_instances(meta, m)[t] == i as u32;
                    let rest_inst = visible_instances(meta.drop_last(), m);
                    if t < rest_inst.len() {
                        assert(rest_inst.contains(i as u32));
                    }
                }
            }
        }
    } else {
        let rest_order = mesh_order(meta.drop_last());
        if is_visible(meta[i]) {
            if rest_order.contains(meta[i].mesh_id) {
                let j = choose|j: int| 0 <= j < rest_order.len() && rest_order[j] == meta[i].mesh_id;
                assert(mesh_order(meta)[j] == meta[i].mesh_id);
            } else {
                assert(mesh_order(meta)[rest_order.len() as int] == meta[i].mesh_id);
            }
            let v = visible_instances(meta, meta[i].mesh_id);
            assert(v[v.len() - 1] == i as u32);
        } else {
            assert forall|m: u32| !visible_instances(meta, m).contains(i as u32) by {
                lemma_instances_below(meta.drop_last(), m);
                assert(visible_instances(meta, m) == visible_instances(meta.drop_last(), m));
            }
        }
    }
}

/// Every position a mesh's instance list holds is below the object count.
proof fn lemma_instances_below(meta: Seq<DrawRef>, m: u32)
    requires
        meta.len() <= u32::MAX,
    ensures
        forall|t: int| 0 <= t < visible_instances(meta, m).len() ==> visible_instances(meta, m)[t] < meta.len(),
    decreases meta.len(),
{
    if meta.len() > 0 {
        lemma_instances_below(meta.drop_last(), m);
        let rest = visible_instances(meta.drop_last(), m);
        let v = visible_instances(meta, m);
        assert forall|t: int| 0 <= t < v.len() implies v[t] < meta.len() by {
            if t < rest.len() {
                assert(v[t] == rest[t]);
            }
        }
    }
}

} // verus!
