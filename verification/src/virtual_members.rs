//! Virtual members: methods, properties and constants that a class does
//! not declare but that tools should treat as present (magic members
//! described in docblocks, framework conventions, ...).

pub mod phpdoc;

use vstd::prelude::*;

use crate::types::{ClassInfo, ConstantInfo, MethodInfo, PropertyInfo};

verus! {

/// Members contributed by a virtual member provider.
#[derive(Debug)]
pub struct VirtualMembers {
    pub methods: Vec<MethodInfo>,
    pub properties: Vec<PropertyInfo>,
    pub constants: Vec<ConstantInfo>,
}

impl VirtualMembers {
    /// Whether no member of any kind is contributed.
    pub fn is_empty(&self) -> (r: bool)
        ensures
            r == (self.methods@.len() == 0 && self.properties@.len() == 0
                && self.constants@.len() == 0),
    {
        self.methods.len() == 0 && self.properties.len() == 0 && self.constants.len() == 0
    }
}

/// A source of virtual members for a class.  `class_loader` finds other
/// classes by name, for providers that need them.
pub trait VirtualMemberProvider {
    /// Whether this provider has anything to say about `class`: a cheap
    /// test, before any parsing.
    fn applies_to<F: Fn(&str) -> Option<ClassInfo>>(
        &self,
        class: &ClassInfo,
        class_loader: &F,
    ) -> bool;

    /// The virtual members this provider contributes to `class`.
    fn provide<F: Fn(&str) -> Option<ClassInfo>>(
        &self,
        class: &ClassInfo,
        class_loader: &F,
    ) -> VirtualMembers;
}

} // verus!
