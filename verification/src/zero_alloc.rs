//! Per-frame grouping of instance indices by mesh id into a fixed set of
//! pre-allocated buffers.
use vstd::prelude::*;
use std::collections::HashMap;

verus! {

broadcast use vstd::std_specs::hash::group_hash_axioms;

/// Pre-allocated render data structures to eliminate per-frame allocations
pub struct ZeroAllocRenderData {
    /// Pre-allocated instance buffers for each mesh type
    instance_buffers: Vec<Vec<u32>>,
    /// mesh_id -> buffer_index
    mesh_instance_map_buffer: HashMap<u32, usize>,
    /// Maximum number of mesh types we can handle without allocation
    max_mesh_types: usize,
    /// Current number of mesh types in use this frame
    active_mesh_types: usize,
}

impl ZeroAllocRenderData {
    /// The instances recorded this frame, grouped by mesh id, each group in
    /// the order the instances were added.
    pub closed spec fn groups(&self) -> Map<u32, Seq<u32>> {
        Map::new(
            |k: u32| self.mesh_instance_map_buffer@.contains_key(k),
            |k: u32| self.instance_buffers@[self.mesh_instance_map_buffer@[k] as int]@,
        )
    }

    /// How many distinct mesh ids a frame can hold.
    pub closed spec fn spec_max_mesh_types(&self) -> usize {
        self.max_mesh_types
    }

    pub closed spec fn wf(&self) -> bool {
        &&& self.instance_buffers@.len() == self.max_mesh_types
        &&& self.active_mesh_types <= self.max_mesh_types
        &&& self.active_mesh_types == self.mesh_instance_map_buffer@.dom().len()
        &&& self.mesh_instance_map_buffer@.dom().finite()
        &&& forall|k: u32| #[trigger]
            self.mesh_instance_map_buffer@.contains_key(k) ==> self.mesh_instance_map_buffer@[k]
                < self.active_mesh_types
        &&& forall|k1: u32, k2: u32|
            #[trigger] self.mesh_instance_map_buffer@.contains_key(k1)
                && #[trigger] self.mesh_instance_map_buffer@.contains_key(k2) && k1 != k2
                ==> self.mesh_instance_map_buffer@[k1] != self.mesh_instance_map_buffer@[k2]
        &&& forall|i: int|
            self.active_mesh_types <= i < self.max_mesh_types ==> (#[trigger] self.instance_buffers@[i])@.len()
                == 0
        &&& forall|i: int| 0 <= i < self.active_mesh_types ==> (#[trigger] self.instance_buffers@[i])@.len() > 0
    }

    /// Every group recorded this frame holds at least one instance, and a
    /// frame holds at most `max_mesh_types` groups.
    pub proof fn lemma_groups_bounded(&self)
        requires
            self.wf(),
        ensures
            self.groups().dom().finite(),
            self.groups().dom().len() <= self.spec_max_mesh_types(),
            forall|k: u32| #[trigger] self.groups().contains_key(k) ==> self.groups()[k].len() > 0,
    {
        assert(self.groups().dom() =~= self.mesh_instance_map_buffer@.dom());
        assert forall|k: u32| #[trigger] self.groups().contains_key(k) implies self.groups()[k].len() > 0 by {
            let i = self.mesh_instance_map_buffer@[k] as int;
            assert(self.instance_buffers@[i]@.len() > 0);
        }
    }

    /// Room for `max_mesh_types` mesh ids per frame; no groups yet.
    pub fn new(max_mesh_types: usize, max_instances_per_mesh: usize) -> (d: Self)
        ensures
            d.wf(),
            d.groups() == Map::<u32, Seq<u32>>::empty(),
            d.spec_max_mesh_types() == max_mesh_types,
    {
        let mut instance_buffers: Vec<Vec<u32>> = Vec::with_capacity(max_mesh_types);
        let mut i: usize = 0;
        while i < max_mesh_types
            invariant
                i <= max_mesh_types,
                instance_buffers@.len() == i,
                forall|t: int| 0 <= t < i ==> (#[trigger] instance_buffers@[t])@.len() == 0,
            decreases max_mesh_types - i,
        {
            instance_buffers.push(Vec::with_capacity(max_instances_per_mesh));
            i = i + 1;
        }
        let d = Self {
            instance_buffers,
            mesh_instance_map_buffer: HashMap::with_capacity(max_mesh_types),
            max_mesh_types,
            active_mesh_types: 0,
        };
        proof {
            assert(d.groups() =~= Map::<u32, Seq<u32>>::empty());
        }
        d
    }

    /// Clear all buffers for the next frame (no allocations)
    pub fn clear_for_frame(&mut self)
        requires
            old(self).wf(),
        ensures
            final(self).wf(),
            final(self).groups() == Map::<u32, Seq<u32>>::empty(),
            final(self).spec_max_mesh_types() == old(self).spec_max_mesh_types(),
    {
        let n = self.instance_buffers.len();
        let mut i: usize = 0;
        while i < n
            invariant
                i <= n,
                n == self.instance_buffers@.len(),
                n == self.max_mesh_types,
                forall|t: int| 0 <= t < i ==> (#[trigger] self.instance_buffers@[t])@.len() == 0,
            decreases n - i,
        {
            let mut buf: Vec<u32> = Vec::new();
            std::mem::swap(&mut buf, &mut self.instance_buffers[i]);
            buf.clear();
            std::mem::swap(&mut buf, &mut self.instance_buffers[i]);
            i = i + 1;
        }
        self.mesh_instance_map_buffer.clear();
        self.active_mesh_types = 0;
        proof {
            assert(self.groups() =~= Map::<u32, Seq<u32>>::empty());
        }
    }

    /// Add an instance to a mesh group (zero allocation). A new mesh id
    /// beyond the frame's capacity is refused and nothing changes.
    pub fn add_instance(&mut self, mesh_id: u32, instance_idx: u32) -> (r: Result<(), &'static str>)
        requires
            old(self).wf(),
        ensures
            final(self).wf(),
            final(self).spec_max_mesh_types() == old(self).spec_max_mesh_types(),
            old(self).groups().contains_key(mesh_id) ==> r is Ok && final(self).groups()
                == old(self).groups().insert(mesh_id, old(self).groups()[mesh_id].push(instance_idx)),
            !old(self).groups().contains_key(mesh_id) && old(self).groups().dom().len()
                < old(self).spec_max_mesh_types() ==> r is Ok && final(self).groups()
                == old(self).groups().insert(mesh_id, seq![instance_idx]),
            !old(self).groups().contains_key(mesh_id) && old(self).groups().dom().len()
                >= old(self).spec_max_mesh_types() ==> r is Err && final(self).groups()
                == old(self).groups(),
            r is Err <==> !old(self).groups().contains_key(mesh_id) && old(self).groups().dom().len()
                == old(self).spec_max_mesh_types(),
            r matches Err(e) ==> e@ == "Exceeded maximum mesh types per frame"@,
    {
        proof {
            self.lemma_groups_bounded();
        }
        let ghost g0 = self.groups();
        proof {
            assert(g0.dom() == self.mesh_instance_map_buffer@.dom());
        }
        let buffer_index = match self.mesh_instance_map_buffer.get(&mesh_id) {
            Some(existing_index) => *existing_index,
            None => {
                if self.active_mesh_types >= self.max_mesh_types {
                    return Err("Exceeded maximum mesh types per frame");
                }
                let new_index = self.active_mesh_types;
                self.mesh_instance_map_buffer.insert(mesh_id, new_index);
                self.active_mesh_types += 1;
                new_index
            },
        };
        let ghost mid = self.mesh_instance_map_buffer@;
        let ghost bufs = self.instance_buffers@;
        let mut buf: Vec<u32> = Vec::new();
        std::mem::swap(&mut buf, &mut self.instance_buffers[buffer_index]);
        buf.push(instance_idx);
        std::mem::swap(&mut buf, &mut self.instance_buffers[buffer_index]);
        proof {
            assert forall|i: int| 0 <= i < bufs.len() && i != buffer_index implies
                #[trigger] self.instance_buffers@[i] == bufs[i] by {}
            if g0.contains_key(mesh_id) {
                assert(self.groups() =~= g0.insert(mesh_id, g0[mesh_id].push(instance_idx))) by {
                    assert forall|k: u32| #[trigger] self.groups().contains_key(k) implies self.groups()[k]
                        == g0.insert(mesh_id, g0[mesh_id].push(instance_idx))[k] by {
                        if k != mesh_id {
                            assert(mid[k] != mid[mesh_id]);
                        }
                    }
                }
            } else {
                assert(self.groups() =~= g0.insert(mesh_id, seq![instance_idx])) by {
                    assert forall|k: u32| #[trigger] self.groups().contains_key(k) implies self.groups()[k]
                        == g0.insert(mesh_id, seq![instance_idx])[k] by {
                        if k != mesh_id {
                            assert(mid[k] != mid[mesh_id]);
                            assert(mid[k] < buffer_index);
                        } else {
                            assert(bufs[buffer_index as int]@.len() == 0);
                            assert(self.instance_buffers@[buffer_index as int]@ =~= seq![instance_idx]);
                        }
                    }
                }
            }
        }
        Ok(())
    }

    /// Get instance buffer for a mesh ID
    pub fn get_instances(&self, mesh_id: u32) -> (r: Option<&Vec<u32>>)
        requires
            self.wf(),
        ensures
            match r {
                Some(v) => self.groups().contains_key(mesh_id) && v@ == self.groups()[mesh_id],
                None => !self.groups().contains_key(mesh_id),
            },
    {
        match self.mesh_instance_map_buffer.get(&mesh_id) {
            Some(idx) => Some(&self.instance_buffers[*idx]),
            None => None,
        }
    }

    /// All active mesh groups, each mesh id once, in no particular order.
    pub fn iter_mesh_groups(&self) -> (groups: Vec<(u32, &Vec<u32>)>)
        requires
            self.wf(),
        ensures
            groups@.len() == self.groups().dom().len(),
            groups@.len() <= self.spec_max_mesh_types(),
            forall|i: int| 0 <= i < groups@.len() ==> (#[trigger] groups@[i]).1@.len() > 0,
            forall|i: int|
                0 <= i < groups@.len() ==> self.groups().contains_key((#[trigger] groups@[i]).0)
                    && groups@[i].1@ == self.groups()[groups@[i].0],
            forall|k: u32|
                #[trigger] self.groups().contains_key(k) ==> exists|i: int|
                    0 <= i < groups@.len() && (#[trigger] groups@[i]).0 == k,
            forall|i: int, j: int|
                0 <= i < j < groups@.len() ==> (#[trigger] groups@[i]).0 != (#[trigger] groups@[j]).0,
    {
        let mut out: Vec<(u32, &Vec<u32>)> = Vec::new();
        let m = &self.mesh_instance_map_buffer;
        for entry in it: m.iter()
            invariant
                self.wf(),
                m == &self.mesh_instance_map_buffer,
                it.seq() == vstd::std_specs::iter::IteratorSpec::remaining(&vstd::std_specs::hash::spec_hash_map_iter(m)),
                it.seq().no_duplicates(),
                out@.len() == it.index(),
                forall|i: int|
                    0 <= i < out@.len() ==> (#[trigger] out@[i]).0 == *it.seq()[i].0 && out@[i].1@
                        == self.instance_buffers@[*it.seq()[i].1 as int]@,
        {
            let (mesh_id, buffer_index) = entry;
            proof {
                let sq = it.seq();
                assert(entry == sq[out@.len() as int]);
                assert(m@.contains_key(*sq[out@.len() as int].0));
            }
            out.push((*mesh_id, &self.instance_buffers[*buffer_index]));
        }
        proof {
            let sq = vstd::std_specs::iter::IteratorSpec::remaining(&vstd::std_specs::hash::spec_hash_map_iter(m));
            assert(out@.len() == sq.len());
            assert(self.groups().dom() =~= m@.dom());
            assert forall|i: int| 0 <= i < out@.len() implies self.groups().contains_key((#[trigger] out@[i]).0)
                && out@[i].1@ == self.groups()[out@[i].0] by {
                assert(m@.contains_key(*sq[i].0) && m@[*sq[i].0] == *sq[i].1);
            }
            assert forall|k: u32| #[trigger] self.groups().contains_key(k) implies exists|i: int|
                0 <= i < out@.len() && (#[trigger] out@[i]).0 == k by {
                assert(m@.contains_key(k));
                assert(sq.contains((&k, &m@[k])));
                let i = choose|i: int| 0 <= i < sq.len() && sq[i] == (&k, &m@[k]);
                assert(out@[i].0 == k);
            }
            assert forall|i: int, j: int| 0 <= i < j < out@.len() implies (#[trigger] out@[i]).0
                != (#[trigger] out@[j]).0 by {
                if *sq[i].0 == *sq[j].0 {
                    assert(m@[*sq[i].0] == *sq[i].1);
                    assert(m@[*sq[j].0] == *sq[j].1);
                    assert(sq[i] == sq[j]);
                }
            }
            self.lemma_groups_bounded();
            assert forall|i: int| 0 <= i < out@.len() implies (#[trigger] out@[i]).1@.len() > 0 by {
                assert(self.groups().contains_key(out@[i].0));
            }
        }
        out
    }
}

} // verus!
