//! PHPDoc virtual member provider.
//!
//! Extracts `@method` and `@property` / `@property-read` /
//! `@property-write` tags from the class-level docblock and presents them
//! as virtual members: the magic members a class serves through `__call`,
//! `__get` and `__set`.  Tags are parsed only when members are asked for.

use vstd::prelude::*;

use crate::docblock::{
    extract_method_tags, extract_property_tags, method_tags, opt_text, property_tags,
};
use crate::text::lines_of;
use crate::types::{ClassInfo, MethodView, PropertyInfo, PropertyView, Visibility};

use super::{VirtualMemberProvider, VirtualMembers};

verus! {

/// Virtual member provider for `@method` and `@property` docblock tags.
pub struct PHPDocProvider;

/// `class` has a non-empty class-level docblock.
pub open spec fn has_docblock(class: ClassInfo) -> bool {
    class.class_docblock matches Some(d) && d@.len() > 0
}

/// The methods the provider gives `class`: its `@method` tags.
pub open spec fn provided_methods(class: ClassInfo) -> Seq<MethodView> {
    if has_docblock(class) {
        method_tags(lines_of(class.class_docblock->0@))
    } else {
        seq![]
    }
}

/// The property that a `(name, type)` property tag describes: public,
/// non-static, with no type hint when the tag gives no type.
pub open spec fn tag_property(tag: (Seq<char>, Seq<char>)) -> PropertyView {
    PropertyView {
        name: tag.0,
        type_hint: opt_text(tag.1),
        is_static: false,
        visibility: Visibility::Public,
        is_deprecated: false,
    }
}

/// The properties the provider gives `class`: its `@property` tags.
pub open spec fn provided_properties(class: ClassInfo) -> Seq<PropertyView> {
    if has_docblock(class) {
        property_tags(lines_of(class.class_docblock->0@)).map_values(
            |t: (Seq<char>, Seq<char>)| tag_property(t),
        )
    } else {
        seq![]
    }
}

impl VirtualMemberProvider for PHPDocProvider {
    /// `true` when the class has a non-empty class-level docblock; a cheap
    /// presence test, no parsing.
    fn applies_to<F: Fn(&str) -> Option<ClassInfo>>(
        &self,
        class: &ClassInfo,
        _class_loader: &F,
    ) -> (r: bool)
        ensures
            r == has_docblock(*class),
    {
        match &class.class_docblock {
            Some(d) => !d.as_str().is_empty(),
            None => false,
        }
    }

    /// The `@method` and `@property` tags of the class docblock as
    /// virtual members; never any constants.
    fn provide<F: Fn(&str) -> Option<ClassInfo>>(
        &self,
        class: &ClassInfo,
        _class_loader: &F,
    ) -> (r: VirtualMembers)
        ensures
            r.methods@.map_values(|m: crate::types::MethodInfo| m@) == provided_methods(*class),
            r.properties@.map_values(|p: PropertyInfo| p@) == provided_properties(*class),
            r.constants@.len() == 0,
    {
        let doc_text = match &class.class_docblock {
            Some(t) => {
                if t.as_str().is_empty() {
                    return VirtualMembers {
                        methods: Vec::new(),
                        properties: Vec::new(),
                        constants: Vec::new(),
                    };
                }
                t.as_str()
            },
            None => {
                return VirtualMembers {
                    methods: Vec::new(),
                    properties: Vec::new(),
                    constants: Vec::new(),
                };
            },
        };
        let methods = extract_method_tags(doc_text);
        let tags = extract_property_tags(doc_text);
        let ghost pt = property_tags(lines_of(doc_text@));
        let mut properties: Vec<PropertyInfo> = Vec::new();
        let mut i: usize = 0;
        while i < tags.len()
            invariant
                i <= tags@.len(),
                properties@.len() == i,
                tags@.len() == pt.len(),
                forall|k: int|
                    0 <= k < tags@.len() ==> {
                        &&& (#[trigger] tags@[k]).0@ == pt[k].0
                        &&& tags@[k].1@ == pt[k].1
                    },
                properties@.map_values(|p: PropertyInfo| p@) == pt.take(i as int).map_values(
                    |t: (Seq<char>, Seq<char>)| tag_property(t),
                ),
            decreases tags@.len() - i,
        {
            let name = &tags[i].0;
            let type_str = &tags[i].1;
            assert(name@ == pt[i as int].0);
            assert(type_str@ == pt[i as int].1);
            let type_hint = if type_str.as_str().is_empty() {
                None
            } else {
                Some(type_str.clone())
            };
            let ghost before = properties@;
            properties.push(
                PropertyInfo {
                    name: name.clone(),
                    type_hint,
                    is_static: false,
                    visibility: Visibility::Public,
                    is_deprecated: false,
                },
            );
            assert(pt.take(i + 1) =~= pt.take(i as int).push(pt[i as int]));
            assert(properties@[i as int]@ == tag_property(pt[i as int]));
            assert(properties@.map_values(|p: PropertyInfo| p@) =~= before.map_values(
                |p: PropertyInfo| p@,
            ).push(tag_property(pt[i as int])));
            assert(properties@.map_values(|p: PropertyInfo| p@) =~= pt.take(i + 1).map_values(
                |t: (Seq<char>, Seq<char>)| tag_property(t),
            ));
            i = i + 1;
        }
        assert(pt.take(tags@.len() as int) =~= pt);
        VirtualMembers { methods, properties, constants: Vec::new() }
    }
}

/// A class without a non-empty docblock gets no virtual members from the
/// provider: whatever `applies_to` rejects, `provide` leaves empty.
pub proof fn lemma_no_docblock_no_members(class: ClassInfo)
    requires
        !has_docblock(class),
    ensures
        provided_methods(class).len() == 0,
        provided_properties(class).len() == 0,
{
}

} // verus!
