//! Named, immutable bundles of resource handles.

use vstd::prelude::*;
use crate::handle::Handle;

verus! {

/// One declared dependency: a human-readable name and the handle it resolved
/// to when the load was requested.
pub struct BundleMember {
    pub name: String,
    pub handle: Handle,
}

/// A named, ordered collection of `(name, Handle)` pairs, fixed at
/// construction time. It represents everything that must resolve before
/// dependent scene logic may run; nothing can be added or removed later.
pub struct DependencyBundle {
    label: String,
    members: Vec<BundleMember>,
}

impl DependencyBundle {
    /// The bundle's own name.
    pub closed spec fn spec_label(&self) -> Seq<char> {
        self.label@
    }

    /// The declared handles, in declaration order.
    pub closed spec fn handles(&self) -> Seq<Handle> {
        self.members@.map_values(|m: BundleMember| m.handle)
    }

    /// The declared member names, in declaration order.
    pub closed spec fn member_names(&self) -> Seq<Seq<char>> {
        self.members@.map_values(|m: BundleMember| m.name@)
    }

    /// Declares a bundle. The member list is captured as given and is
    /// immutable afterwards.
    pub fn new(label: String, members: Vec<BundleMember>) -> (b: DependencyBundle)
        ensures
            b.spec_label() == label@,
            b.handles() == members@.map_values(|m: BundleMember| m.handle),
            b.member_names() == members@.map_values(|m: BundleMember| m.name@),
    {
        DependencyBundle { label, members }
    }

    /// The bundle's own name.
    pub fn label(&self) -> (r: &str)
        ensures
            r@ == self.spec_label(),
    {
        self.label.as_str()
    }

    /// How many members were declared.
    pub fn len(&self) -> (n: usize)
        ensures
            n == self.handles().len(),
    {
        self.members.len()
    }

    /// The handle of the member at `index`.
    pub fn handle_at(&self, index: usize) -> (h: Handle)
        requires
            index < self.handles().len(),
        ensures
            h == self.handles()[index as int],
    {
        self.members[index].handle
    }

    /// The name of the member at `index`.
    pub fn name_at(&self, index: usize) -> (r: &str)
        requires
            index < self.handles().len(),
        ensures
            r@ == self.member_names()[index as int],
    {
        self.members[index].name.as_str()
    }
}

} // verus!
