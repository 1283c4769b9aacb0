//! The CPU side of a GPU instance buffer: instances are appended up to a
//! capacity, removed by swapping with the last active one, and uploaded
//! when changed. The GPU buffer itself is held next to it by the caller.
use vstd::prelude::*;

verus! {

/// Instance bookkeeping of one instance buffer.
pub struct InstanceBuffer<T> {
    instances: Vec<T>,
    capacity: u32,
    count: u32,
    dirty: bool,
}

impl<T: Copy> InstanceBuffer<T> {
    /// The stored instances; the first `count` are active.
    pub closed spec fn spec_instances(&self) -> Seq<T> {
        self.instances@
    }

    pub closed spec fn spec_capacity(&self) -> u32 {
        self.capacity
    }

    pub closed spec fn spec_count(&self) -> u32 {
        self.count
    }

    /// Whether the instances changed since the last upload.
    pub closed spec fn spec_dirty(&self) -> bool {
        self.dirty
    }

    /// At most `capacity` instances are active, and all are stored.
    pub closed spec fn wf(&self) -> bool {
        &&& self.count <= self.capacity
        &&& self.count <= self.instances@.len()
    }

    pub fn new(capacity: u32) -> (b: Self)
        ensures
            b.wf(),
            b.spec_instances() == Seq::<T>::empty(),
            b.spec_capacity() == capacity,
            b.spec_count() == 0,
            !b.spec_dirty(),
    {
        Self { instances: Vec::new(), capacity, count: 0, dirty: false }
    }

    /// Adds an instance; returns its index, or `None` when full.
    pub fn add_instance(&mut self, instance: T) -> (r: Option<u32>)
        requires
            old(self).wf(),
        ensures
            final(self).wf(),
            final(self).spec_capacity() == old(self).spec_capacity(),
            old(self).spec_count() >= old(self).spec_capacity() ==> r is None && final(self).spec_instances()
                == old(self).spec_instances() && final(self).spec_count() == old(self).spec_count()
                && final(self).spec_dirty() == old(self).spec_dirty(),
            old(self).spec_count() < old(self).spec_capacity() ==> r == Some(old(self).spec_count())
                && final(self).spec_instances() == old(self).spec_instances().push(instance)
                && final(self).spec_count() == old(self).spec_count() + 1 && final(self).spec_dirty(),
    {
        if self.count >= self.capacity {
            return None;
        }
        let index = self.count;
        self.instances.push(instance);
        self.count = self.count + 1;
        self.dirty = true;
        Some(index)
    }

    /// Adds as many of `instances` as fit, in order; the result gives each
    /// its index, or `None` for those that did not fit.
    pub fn add_instances_batch(&mut self, instances: &[T]) -> (r: Vec<Option<u32>>)
        requires
            old(self).wf(),
        ensures
            final(self).wf(),
            final(self).spec_capacity() == old(self).spec_capacity(),
            ({
                let room = old(self).spec_capacity() - old(self).spec_count();
                let n = if instances@.len() <= room { instances@.len() as int } else { room };
                &&& final(self).spec_count() == old(self).spec_count() + n
                &&& final(self).spec_instances() == old(self).spec_instances() + instances@.take(n)
                &&& final(self).spec_dirty() == (old(self).spec_dirty() || n > 0)
                &&& r@.len() == instances@.len()
                &&& forall|i: int| 0 <= i < instances@.len() ==> #[trigger] r@[i] == if i < n {
                    Some((old(self).spec_count() + i) as u32)
                } else {
                    None
                }
            }),
    {
        let available = (self.capacity - self.count) as usize;
        let to_add = if instances.len() <= available { instances.len() } else { available };
        let start = self.count;
        let ghost before = self.instances@;
        let mut indices: Vec<Option<u32>> = Vec::new();
        let mut i: usize = 0;
        while i < to_add
            invariant
                i <= to_add,
                to_add <= instances@.len(),
                to_add <= self.capacity - start,
                start == old(self).spec_count(),
                self.capacity == old(self).spec_capacity(),
                self.count == old(self).spec_count(),
                self.dirty == old(self).spec_dirty(),
                self.instances@ == before + instances@.take(i as int),
                before == old(self).spec_instances(),
                indices@.len() == i,
                forall|k: int| 0 <= k < i ==> #[trigger] indices@[k] == Some((start + k) as u32),
            decreases to_add - i,
        {
            self.instances.push(instances[i]);
            indices.push(Some(start + i as u32));
            proof {
                assert(instances@.take(i + 1) =~= instances@.take(i as int).push(instances@[i as int]));
            }
            i = i + 1;
        }
        if to_add > 0 {
            self.count = self.count + to_add as u32;
            self.dirty = true;
        }
        while i < instances.len()
            invariant
                to_add <= i <= instances@.len(),
                indices@.len() == i,
                forall|k: int| 0 <= k < i ==> #[trigger] indices@[k] == if k < to_add {
                    Some((start + k) as u32)
                } else {
                    None
                },
            decreases instances@.len() - i,
        {
            indices.push(None);
            i = i + 1;
        }
        indices
    }

    /// Replaces active instance `index`; other indices change nothing.
    pub fn update_instance(&mut self, index: u32, instance: T)
        requires
            old(self).wf(),
        ensures
            final(self).wf(),
            final(self).spec_capacity() == old(self).spec_capacity(),
            final(self).spec_count() == old(self).spec_count(),
            index < old(self).spec_count() ==> final(self).spec_instances() == old(self).spec_instances().update(
                index as int,
                instance,
            ) && final(self).spec_dirty(),
            index >= old(self).spec_count() ==> final(self).spec_instances() == old(self).spec_instances()
                && final(self).spec_dirty() == old(self).spec_dirty(),
    {
        if index < self.count {
            self.instances.set(index as usize, instance);
            self.dirty = true;
        }
    }

    /// Removes active instance `index` by moving the last active instance
    /// into its place, which the result names; `None` when `index` was the
    /// last one (then the last stored instance is dropped) or not active.
    pub fn remove_instance(&mut self, index: u32) -> (r: Option<u32>)
        requires
            old(self).wf(),
        ensures
            final(self).wf(),
            final(self).spec_capacity() == old(self).spec_capacity(),
            index >= old(self).spec_count() ==> r is None && final(self).spec_instances()
                == old(self).spec_instances() && final(self).spec_count() == old(self).spec_count()
                && final(self).spec_dirty() == old(self).spec_dirty(),
            index < old(self).spec_count() ==> {
                let last = old(self).spec_count() - 1;
                let s = old(self).spec_instances();
                &&& final(self).spec_count() == last
                &&& final(self).spec_dirty()
                &&& index < last ==> r == Some(last as u32) && final(self).spec_instances() == s.update(
                    index as int,
                    s[last],
                ).update(last, s[index as int])
                &&& index == last ==> r is None && final(self).spec_instances() == s.drop_last()
            },
    {
        if index >= self.count {
            return None;
        }
        self.count = self.count - 1;
        if index < self.count {
            let a = self.instances[index as usize];
            let b = self.instances[self.count as usize];
            self.instances.set(index as usize, b);
            self.instances.set(self.count as usize, a);
            self.dirty = true;
            Some(self.count)
        } else {
            self.instances.pop();
            self.dirty = true;
            None
        }
    }

    /// Removes every instance.
    pub fn clear(&mut self)
        requires
            old(self).wf(),
        ensures
            final(self).wf(),
            final(self).spec_instances() == Seq::<T>::empty(),
            final(self).spec_count() == 0,
            final(self).spec_capacity() == old(self).spec_capacity(),
            final(self).spec_dirty(),
    {
        self.instances.clear();
        self.count = 0;
        self.dirty = true;
    }

    /// How many instances to write to the GPU: the active ones when they
    /// changed and there are any, and then they count as uploaded.
    pub fn take_upload(&mut self) -> (r: Option<u32>)
        requires
            old(self).wf(),
        ensures
            final(self).wf(),
            final(self).spec_instances() == old(self).spec_instances(),
            final(self).spec_count() == old(self).spec_count(),
            final(self).spec_capacity() == old(self).spec_capacity(),
            r == if old(self).spec_dirty() && old(self).spec_count() > 0 {
                Some(old(self).spec_count())
            } else {
                None::<u32>
            },
            final(self).spec_dirty() == (old(self).spec_dirty() && old(self).spec_count() == 0),
    {
        if self.dirty && self.count > 0 {
            self.dirty = false;
            Some(self.count)
        } else {
            None
        }
    }

    pub fn count(&self) -> (n: u32)
        ensures
            n == self.spec_count(),
    {
        self.count
    }

    /// The stored instances; the first `count()` are active.
    pub fn instances(&self) -> (v: &Vec<T>)
        ensures
            v@ == self.spec_instances(),
    {
        &self.instances
    }
}

} // verus!
