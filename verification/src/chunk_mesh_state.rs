//! The renderer's bookkeeping of chunk meshes from frame to frame: which
//! chunks are dirty, which have a mesh and in which buffer, which loaded
//! chunks need a rebuild, and how long no object has been drawn.
use vstd::prelude::*;
use crate::world::ChunkPos;

verus! {

/// Frames without a drawn object after which every meshed chunk is rebuilt.
pub const RECOVERY_FRAMES: u32 = 600;

/// The set of positions a list holds.
pub open spec fn pos_set(s: Seq<ChunkPos>) -> Set<ChunkPos> {
    Set::new(|p: ChunkPos| exists|i: int| 0 <= i < s.len() && s[i] == p)
}

/// The list holds no position twice.
pub open spec fn no_repeats(s: Seq<ChunkPos>) -> bool {
    forall|i: int, j: int| 0 <= i < s.len() && 0 <= j < s.len() && i != j ==> s[i] != s[j]
}

/// The buffer of each chunk that has one, as a map.
pub open spec fn buffer_map(s: Seq<(ChunkPos, u32)>) -> Map<ChunkPos, u32> {
    Map::new(
        |p: ChunkPos| exists|i: int| 0 <= i < s.len() && (#[trigger] s[i]).0 == p,
        |p: ChunkPos| s[choose|i: int| 0 <= i < s.len() && (#[trigger] s[i]).0 == p].1,
    )
}

/// No chunk has two entries.
pub open spec fn keys_unique(s: Seq<(ChunkPos, u32)>) -> bool {
    forall|i: int, j: int| 0 <= i < s.len() && 0 <= j < s.len() && i != j ==> (#[trigger] s[i]).0 != (#[trigger] s[j]).0
}

/// What the renderer reports when a frame draws no object: a warning after one
/// second (60 frames), an error after five seconds (300 frames), and again an
/// error every 600 frames.
#[derive(Debug, Clone, Copy, PartialEq, Eq, Structural)]
pub enum NoObjectsAlert {
    Quiet,
    Warning,
    Error,
    StillNothing,
}

/// The chunk bookkeeping, as its contracts speak of it.
pub struct ChunkMeshModel {
    pub dirty: Set<ChunkPos>,
    pub meshed: Set<ChunkPos>,
    pub buffers: Map<ChunkPos, u32>,
    pub frames_without_objects: u32,
    pub total_objects_submitted: u64,
}

/// A loaded chunk is rebuilt when it is dirty or has no mesh.
pub open spec fn needs_rebuild(m: ChunkMeshModel, p: ChunkPos) -> bool {
    m.dirty.contains(p) || !m.meshed.contains(p)
}

/// Dirty chunks, meshed chunks and their buffers, and the frame counters.
pub struct ChunkMeshState {
    dirty_chunks: Vec<ChunkPos>,
    chunks_with_meshes: Vec<ChunkPos>,
    chunk_to_buffer_index: Vec<(ChunkPos, u32)>,
    frames_without_objects: u32,
    total_objects_submitted: u64,
}

impl View for ChunkMeshState {
    type V = ChunkMeshModel;

    closed spec fn view(&self) -> ChunkMeshModel {
        ChunkMeshModel {
            dirty: pos_set(self.dirty_chunks@),
            meshed: pos_set(self.chunks_with_meshes@),
            buffers: buffer_map(self.chunk_to_buffer_index@),
            frames_without_objects: self.frames_without_objects,
            total_objects_submitted: self.total_objects_submitted,
        }
    }
}

proof fn lemma_pos_set_push(s: Seq<ChunkPos>, p: ChunkPos)
    ensures
        pos_set(s.push(p)) == pos_set(s).insert(p),
{
    assert forall|q: ChunkPos| pos_set(s.push(p)).contains(q) <==> pos_set(s).insert(p).contains(q) by {
        if pos_set(s).contains(q) {
            let i = choose|i: int| 0 <= i < s.len() && s[i] == q;
            assert(s.push(p)[i] == q);
        }
        if q == p {
            assert(s.push(p)[s.len() as int] == q);
        }
        if pos_set(s.push(p)).contains(q) {
            let i = choose|i: int| 0 <= i < s.push(p).len() && s.push(p)[i] == q;
            if i < s.len() {
                assert(s[i] == q);
            }
        }
    }
    assert(pos_set(s.push(p)) =~= pos_set(s).insert(p));
}

proof fn lemma_pos_set_remove(s: Seq<ChunkPos>, k: int)
    requires
        0 <= k < s.len(),
        no_repeats(s),
    ensures
        pos_set(s.remove(k)) == pos_set(s).remove(s[k]),
        no_repeats(s.remove(k)),
{
    let r = s.remove(k);
    assert forall|q: ChunkPos| pos_set(r).contains(q) <==> pos_set(s).remove(s[k]).contains(q) by {
        if pos_set(r).contains(q) {
            let i = choose|i: int| 0 <= i < r.len() && r[i] == q;
            if i < k {
                assert(s[i] == q);
            } else {
                assert(s[i + 1] == q);
            }
        }
        if pos_set(s).remove(s[k]).contains(q) {
            let i = choose|i: int| 0 <= i < s.len() && s[i] == q;
            if i < k {
                assert(r[i] == q);
            } else {
                assert(r[i - 1] == q);
            }
        }
    }
    assert(pos_set(r) =~= pos_set(s).remove(s[k]));
}

/// Where a position stands in a list, if it does.
fn index_of(s: &Vec<ChunkPos>, p: ChunkPos) -> (found: Option<usize>)
    ensures
        match found {
            Some(i) => i < s@.len() && s@[i as int] == p,
            None => !pos_set(s@).contains(p),
        },
{
    let mut i: usize = 0;
    while i < s.len()
        invariant
            i <= s@.len(),
            forall|j: int| 0 <= j < i ==> s@[j] != p,
        decreases s@.len() - i,
    {
        if s[i] == p {
            return Some(i);
        }
        i = i + 1;
    }
    None
}

/// Adds a position to a list without repeats, unless it is there.
fn insert_pos(s: &mut Vec<ChunkPos>, p: ChunkPos)
    requires
        no_repeats(old(s)@),
    ensures
        no_repeats(final(s)@),
        pos_set(final(s)@) == pos_set(old(s)@).insert(p),
{
    match index_of(s, p) {
        Some(i) => {
            proof {
                assert(pos_set(s@).insert(p) =~= pos_set(s@));
            }
        },
        None => {
            proof {
                lemma_pos_set_push(s@, p);
            }
            s.push(p);
        },
    }
}

/// Takes a position out of a list without repeats, if it is there.
fn remove_pos(s: &mut Vec<ChunkPos>, p: ChunkPos)
    requires
        no_repeats(old(s)@),
    ensures
        no_repeats(final(s)@),
        pos_set(final(s)@) == pos_set(old(s)@).remove(p),
{
    match index_of(s, p) {
        Some(i) => {
            proof {
                lemma_pos_set_remove(s@, i as int);
            }
            s.remove(i);
        },
        None => {
            proof {
                assert(pos_set(s@).remove(p) =~= pos_set(s@));
            }
        },
    }
}

proof fn lemma_buffer_map_entry(s: Seq<(ChunkPos, u32)>, i: int)
    requires
        keys_unique(s),
        0 <= i < s.len(),
    ensures
        buffer_map(s).contains_key(s[i].0),
        buffer_map(s)[s[i].0] == s[i].1,
{
    let p = s[i].0;
    assert(exists|k: int| 0 <= k < s.len() && (#[trigger] s[k]).0 == p);
    let k = choose|k: int| 0 <= k < s.len() && (#[trigger] s[k]).0 == p;
    assert(k == i);
}

impl ChunkMeshState {
    /// The lists hold no position twice and no chunk has two buffer entries.
    pub closed spec fn wf(&self) -> bool {
        &&& no_repeats(self.dirty_chunks@)
        &&& no_repeats(self.chunks_with_meshes@)
        &&& keys_unique(self.chunk_to_buffer_index@)
    }

    /// Nothing dirty, nothing meshed, counters at zero.
    pub fn new() -> (state: Self)
        ensures
            state.wf(),
            state@.dirty == Set::<ChunkPos>::empty(),
            state@.meshed == Set::<ChunkPos>::empty(),
            state@.buffers == Map::<ChunkPos, u32>::empty(),
            state@.frames_without_objects == 0,
            state@.total_objects_submitted == 0,
    {
        let state = ChunkMeshState {
            dirty_chunks: Vec::new(),
            chunks_with_meshes: Vec::new(),
            chunk_to_buffer_index: Vec::new(),
            frames_without_objects: 0,
            total_objects_submitted: 0,
        };
        proof {
            assert(state@.dirty =~= Set::<ChunkPos>::empty());
            assert(state@.meshed =~= Set::<ChunkPos>::empty());
            assert(state@.buffers =~= Map::<ChunkPos, u32>::empty());
        }
        state
    }

    /// Marks a chunk whose blocks changed.
    pub fn mark_dirty(&mut self, chunk_pos: ChunkPos)
        requires
            old(self).wf(),
        ensures
            final(self).wf(),
            final(self)@ == (ChunkMeshModel { dirty: old(self)@.dirty.insert(chunk_pos), ..old(self)@ }),
    {
        insert_pos(&mut self.dirty_chunks, chunk_pos);
    }

    /// At the start of a chunk update: after `RECOVERY_FRAMES` frames without a
    /// drawn object, while some chunk has a mesh, every meshed chunk is marked
    /// dirty and forgets its mesh and buffer. Says whether that happened.
    pub fn recover_if_stalled(&mut self) -> (recovered: bool)
        requires
            old(self).wf(),
        ensures
            final(self).wf(),
            recovered == (old(self)@.frames_without_objects >= RECOVERY_FRAMES && !old(self)@.meshed.is_empty()),
            recovered ==> final(self)@ == (ChunkMeshModel {
                dirty: old(self)@.dirty.union(old(self)@.meshed),
                meshed: Set::empty(),
                buffers: Map::empty(),
                ..old(self)@
            }),
            !recovered ==> final(self)@ == old(self)@,
    {
        if self.frames_without_objects >= RECOVERY_FRAMES && self.chunks_with_meshes.len() > 0 {
            let ghost meshed = self.chunks_with_meshes@;
            let ghost dirty0 = self.dirty_chunks@;
            let mut i: usize = 0;
            while i < self.chunks_with_meshes.len()
                invariant
                    self.chunks_with_meshes@ == meshed,
                    self.chunk_to_buffer_index == old(self).chunk_to_buffer_index,
                    self.frames_without_objects == old(self).frames_without_objects,
                    self.total_objects_submitted == old(self).total_objects_submitted,
                    dirty0 == old(self).dirty_chunks@,
                    meshed == old(self).chunks_with_meshes@,
                    no_repeats(self.dirty_chunks@),
                    i <= meshed.len(),
                    pos_set(self.dirty_chunks@) == pos_set(dirty0).union(pos_set(meshed.subrange(0, i as int))),
                decreases meshed.len() - i,
            {
                let p = self.chunks_with_meshes[i];
                insert_pos(&mut self.dirty_chunks, p);
                proof {
                    assert(meshed.subrange(0, i + 1) =~= meshed.subrange(0, i as int).push(p));
                    lemma_pos_set_push(meshed.subrange(0, i as int), p);
                    assert(pos_set(self.dirty_chunks@) =~= pos_set(dirty0).union(pos_set(meshed.subrange(0, i + 1))));
                }
                i = i + 1;
            }
            proof {
                assert(meshed.subrange(0, meshed.len() as int) =~= meshed);
                assert(pos_set(meshed).contains(meshed[0]));
            }
            self.chunks_with_meshes.clear();
            self.chunk_to_buffer_index.clear();
            proof {
                assert(self@.meshed =~= Set::<ChunkPos>::empty());
                assert(self@.buffers =~= Map::<ChunkPos, u32>::empty());
            }
            true
        } else {
            proof {
                if self.chunks_with_meshes@.len() == 0 {
                    assert(self@.meshed =~= Set::<ChunkPos>::empty());
                }
            }
            false
        }
    }

    /// The loaded chunks, in order, that are dirty or have no mesh.
    pub fn chunks_needing_rebuild(&self, loaded: &[ChunkPos]) -> (rebuild: Vec<ChunkPos>)
        requires
            self.wf(),
        ensures
            rebuild@ == loaded@.filter(|p: ChunkPos| needs_rebuild(self@, p)),
    {
        let ghost keep = |p: ChunkPos| needs_rebuild(self@, p);
        let mut rebuild: Vec<ChunkPos> = Vec::new();
        let mut i: usize = 0;
        while i < loaded.len()
            invariant
                i <= loaded@.len(),
                keep == (|p: ChunkPos| needs_rebuild(self@, p)),
                rebuild@ == loaded@.subrange(0, i as int).filter(keep),
            decreases loaded@.len() - i,
        {
            let p = loaded[i];
            let dirty = index_of(&self.dirty_chunks, p).is_some();
            let meshed = index_of(&self.chunks_with_meshes, p).is_some();
            proof {
                reveal(Seq::filter);
                assert(loaded@.subrange(0, i + 1).drop_last() =~= loaded@.subrange(0, i as int));
                if dirty {
                    let k = choose|k: int| 0 <= k < self.dirty_chunks@.len() && self.dirty_chunks@[k] == p;
                    assert(self@.dirty.contains(p));
                }
                if meshed {
                    assert(self@.meshed.contains(p));
                }
            }
            if dirty || !meshed {
                rebuild.push(p);
            }
            i = i + 1;
        }
        proof {
            assert(loaded@.subrange(0, loaded@.len() as int) =~= loaded@);
        }
        rebuild
    }

    /// Records that a chunk's mesh was built into `buffer_index`: it is no longer
    /// dirty, it has a mesh, and that is its buffer.
    pub fn record_mesh(&mut self, chunk_pos: ChunkPos, buffer_index: u32)
        requires
            old(self).wf(),
        ensures
            final(self).wf(),
            final(self)@ == (ChunkMeshModel {
                dirty: old(self)@.dirty.remove(chunk_pos),
                meshed: old(self)@.meshed.insert(chunk_pos),
                buffers: old(self)@.buffers.insert(chunk_pos, buffer_index),
                ..old(self)@
            }),
    {
        remove_pos(&mut self.dirty_chunks, chunk_pos);
        insert_pos(&mut self.chunks_with_meshes, chunk_pos);
        let ghost before = self.chunk_to_buffer_index@;
        let mut i: usize = 0;
        while i < self.chunk_to_buffer_index.len()
            invariant
                self.chunk_to_buffer_index@ == before,
                before == old(self).chunk_to_buffer_index@,
                keys_unique(before),
                no_repeats(self.dirty_chunks@),
                no_repeats(self.chunks_with_meshes@),
                pos_set(self.dirty_chunks@) == old(self)@.dirty.remove(chunk_pos),
                pos_set(self.chunks_with_meshes@) == old(self)@.meshed.insert(chunk_pos),
                self.frames_without_objects == old(self).frames_without_objects,
                self.total_objects_submitted == old(self).total_objects_submitted,
                i <= before.len(),
                forall|j: int| 0 <= j < i ==> (#[trigger] before[j]).0 != chunk_pos,
            decreases before.len() - i,
        {
            if self.chunk_to_buffer_index[i].0 == chunk_pos {
                self.chunk_to_buffer_index.set(i, (chunk_pos, buffer_index));
                proof {
                    let after = self.chunk_to_buffer_index@;
                    assert(keys_unique(after)) by {
                        assert forall|a: int, b: int| 0 <= a < after.len() && 0 <= b < after.len() && a != b implies (#[trigger] after[a]).0
                            != (#[trigger] after[b]).0 by {
                            assert(before[a].0 != before[b].0);
                        }
                    }
                    assert forall|q: ChunkPos| #![trigger buffer_map(after).contains_key(q)]
                        buffer_map(after).contains_key(q) == buffer_map(before).insert(chunk_pos, buffer_index).contains_key(q)
                        && (buffer_map(after).contains_key(q) ==> buffer_map(after)[q] == buffer_map(before).insert(
                        chunk_pos,
                        buffer_index,
                    )[q]) by {
                        lemma_buffer_map_entry(before, i as int);
                        lemma_buffer_map_entry(after, i as int);
                        if buffer_map(after).contains_key(q) {
                            let k = choose|k: int| 0 <= k < after.len() && (#[trigger] after[k]).0 == q;
                            lemma_buffer_map_entry(after, k);
                            if k != i {
                                lemma_buffer_map_entry(before, k);
                            }
                        }
                        if buffer_map(before).contains_key(q) {
                            let k = choose|k: int| 0 <= k < before.len() && (#[trigger] before[k]).0 == q;
                            assert(after[k].0 == q);
                        }
                    }
                    assert(buffer_map(after) =~= buffer_map(before).insert(chunk_pos, buffer_index));
                }
                return;
            }
            i = i + 1;
        }
        self.chunk_to_buffer_index.push((chunk_pos, buffer_index));
        proof {
            let after = self.chunk_to_buffer_index@;
            let n = before.len() as int;
            assert(keys_unique(after)) by {
                assert forall|a: int, b: int| 0 <= a < after.len() && 0 <= b < after.len() && a != b implies (#[trigger] after[a]).0
                    != (#[trigger] after[b]).0 by {
                    if a < n && b < n {
                        assert(before[a].0 != before[b].0);
                    } else if a < n {
                        assert(before[a].0 != chunk_pos);
                    } else {
                        assert(before[b].0 != chunk_pos);
                    }
                }
            }
            assert forall|q: ChunkPos| #![trigger buffer_map(after).contains_key(q)]
                buffer_map(after).contains_key(q) == buffer_map(before).insert(chunk_pos, buffer_index).contains_key(q)
                && (buffer_map(after).contains_key(q) ==> buffer_map(after)[q] == buffer_map(before).insert(
                chunk_pos,
                buffer_index,
            )[q]) by {
                lemma_buffer_map_entry(after, n);
                if buffer_map(after).contains_key(q) {
                    let k = choose|k: int| 0 <= k < after.len() && (#[trigger] after[k]).0 == q;
                    lemma_buffer_map_entry(after, k);
                    if k < n {
                        lemma_buffer_map_entry(before, k);
                    }
                }
                if buffer_map(before).contains_key(q) {
                    let k = choose|k: int| 0 <= k < before.len() && (#[trigger] before[k]).0 == q;
                    assert(after[k].0 == q);
                }
            }
            assert(buffer_map(after) =~= buffer_map(before).insert(chunk_pos, buffer_index));
        }
    }

    /// The buffer holding a chunk's mesh, if it has one.
    pub fn buffer_index(&self, chunk_pos: ChunkPos) -> (index: Option<u32>)
        requires
            self.wf(),
        ensures
            index == (if self@.buffers.contains_key(chunk_pos) {
                Some(self@.buffers[chunk_pos])
            } else {
                None
            }),
    {
        let mut i: usize = 0;
        while i < self.chunk_to_buffer_index.len()
            invariant
                self.wf(),
                i <= self.chunk_to_buffer_index@.len(),
                forall|j: int| 0 <= j < i ==> (#[trigger] self.chunk_to_buffer_index@[j]).0 != chunk_pos,
            decreases self.chunk_to_buffer_index@.len() - i,
        {
            if self.chunk_to_buffer_index[i].0 == chunk_pos {
                proof {
                    lemma_buffer_map_entry(self.chunk_to_buffer_index@, i as int);
                }
                return Some(self.chunk_to_buffer_index[i].1);
            }
            i = i + 1;
        }
        None
    }

    /// Ends a frame that drew `render_object_count` objects: a frame that drew
    /// some adds them to the total and resets the count of empty frames; an
    /// empty frame counts one more and says what to report.
    pub fn finish_frame(&mut self, render_object_count: u32) -> (alert: NoObjectsAlert)
        requires
            old(self).wf(),
            old(self)@.total_objects_submitted + render_object_count <= u64::MAX,
            render_object_count == 0 ==> old(self)@.frames_without_objects < u32::MAX,
        ensures
            final(self).wf(),
            final(self)@.dirty == old(self)@.dirty,
            final(self)@.meshed == old(self)@.meshed,
            final(self)@.buffers == old(self)@.buffers,
            render_object_count > 0 ==> final(self)@.total_objects_submitted == old(self)@.total_objects_submitted
                + render_object_count && final(self)@.frames_without_objects == 0 && alert == NoObjectsAlert::Quiet,
            render_object_count == 0 ==> {
                let f = old(self)@.frames_without_objects + 1;
                &&& final(self)@.total_objects_submitted == old(self)@.total_objects_submitted
                &&& final(self)@.frames_without_objects == f
                &&& alert == if f == 60 {
                    NoObjectsAlert::Warning
                } else if f == 300 {
                    NoObjectsAlert::Error
                } else if f % 600 == 0 {
                    NoObjectsAlert::StillNothing
                } else {
                    NoObjectsAlert::Quiet
                }
            },
    {
        if render_object_count > 0 {
            self.total_objects_submitted = self.total_objects_submitted + render_object_count as u64;
            self.frames_without_objects = 0;
            NoObjectsAlert::Quiet
        } else {
            self.frames_without_objects = self.frames_without_objects + 1;
            if self.frames_without_objects == 60 {
                NoObjectsAlert::Warning
            } else if self.frames_without_objects == 300 {
                NoObjectsAlert::Error
            } else if self.frames_without_objects % 600 == 0 {
                NoObjectsAlert::StillNothing
            } else {
                NoObjectsAlert::Quiet
            }
        }
    }
}

/// A chunk whose mesh was just recorded is not rebuilt, and once marked dirty
/// again it is: the states are those that `record_mesh` and then `mark_dirty`
/// produce.
pub proof fn lemma_rebuild_after_record_and_mark(
    before: ChunkMeshModel,
    recorded: ChunkMeshModel,
    marked: ChunkMeshModel,
    chunk_pos: ChunkPos,
    buffer_index: u32,
)
    requires
        recorded == (ChunkMeshModel {
            dirty: before.dirty.remove(chunk_pos),
            meshed: before.meshed.insert(chunk_pos),
            buffers: before.buffers.insert(chunk_pos, buffer_index),
            ..before
        }),
        marked == (ChunkMeshModel { dirty: recorded.dirty.insert(chunk_pos), ..recorded }),
    ensures
        !needs_rebuild(recorded, chunk_pos),
        recorded.buffers[chunk_pos] == buffer_index,
        needs_rebuild(marked, chunk_pos),
{
}

} // verus!
