//! The catalog of resources: handle `i` names `resources[i]`.
use crate::stock::ResourceHandle;
use vstd::prelude::*;

verus! {

#[derive(Clone, Debug)]
pub struct Resource {
    pub name: String,
}

pub struct ResourceData {
    pub resources: Vec<Resource>,
}

/// Position of the first resource called `name`.
pub open spec fn first_named(resources: Seq<Resource>, name: Seq<char>) -> Option<int>
    decreases resources.len(),
{
    if resources.len() == 0 {
        None
    } else {
        match first_named(resources.drop_last(), name) {
            Some(i) => Some(i),
            None => if resources.last().name@ == name {
                Some(resources.len() - 1)
            } else {
                None
            },
        }
    }
}

impl ResourceData {
    pub fn new() -> (d: ResourceData)
        ensures
            d.resources@.len() == 0,
    {
        ResourceData { resources: Vec::new() }
    }

    /// Registers `resource` under the next handle.
    pub fn add_resource(&mut self, resource: Resource) -> (h: ResourceHandle)
        requires
            old(self).resources@.len() < usize::MAX,
        ensures
            h == old(self).resources@.len(),
            final(self).resources@ == old(self).resources@.push(resource),
    {
        self.resources.push(resource);
        self.resources.len() - 1
    }

    pub fn get_resource_by_handle(&self, resource_handle: ResourceHandle) -> (r: Option<&Resource>)
        ensures
            resource_handle < self.resources@.len() ==> r == Some(&self.resources@[resource_handle as int]),
            resource_handle >= self.resources@.len() ==> r is None,
    {
        if resource_handle < self.resources.len() {
            Some(&self.resources[resource_handle])
        } else {
            None
        }
    }

    pub fn get_resource_name_by_handle(&self, resource_handle: ResourceHandle) -> (r: Option<&str>)
        ensures
            resource_handle < self.resources@.len() ==> r is Some && r->0@ == self.resources@[resource_handle as int].name@,
            resource_handle >= self.resources@.len() ==> r is None,
    {
        if resource_handle < self.resources.len() {
            Some(self.resources[resource_handle].name.as_str())
        } else {
            None
        }
    }

    /// Handle of the first resource called `resource_name`.
    pub fn get_resource_handle_by_name(&self, resource_name: &str) -> (r: Option<ResourceHandle>)
        ensures
            as_pos(r) == first_named(self.resources@, resource_name@),
    {
        let wanted = resource_name.to_owned();
        let mut handle: usize = 0;
        while handle < self.resources.len()
            invariant
                handle <= self.resources@.len(),
                wanted@ == resource_name@,
                first_named(self.resources@.take(handle as int), resource_name@) is None,
            decreases self.resources.len() - handle,
        {
            assert(self.resources@.take(handle + 1).drop_last() =~= self.resources@.take(handle as int));
            if self.resources[handle].name == wanted {
                proof {
                    lemma_first_named_prefix(self.resources@, handle as int + 1, resource_name@);
                }
                return Some(handle);
            }
            handle = handle + 1;
        }
        assert(self.resources@.take(self.resources@.len() as int) =~= self.resources@);
        None
    }
}

/// A position as a mathematical index.
pub open spec fn as_pos(p: Option<usize>) -> Option<int> {
    match p {
        Some(i) => Some(i as int),
        None => None,
    }
}

/// A name found in a prefix is found at the same place in the whole.
proof fn lemma_first_named_prefix(resources: Seq<Resource>, k: int, name: Seq<char>)
    requires
        0 <= k <= resources.len(),
        first_named(resources.take(k), name) is Some,
    ensures
        first_named(resources, name) == first_named(resources.take(k), name),
    decreases resources.len(),
{
    if k < resources.len() {
        assert(resources.drop_last().take(k) =~= resources.take(k));
        lemma_first_named_prefix(resources.drop_last(), k, name);
    } else {
        assert(resources.take(k) =~= resources);
    }
}

} // verus!
