//! The per-file state the language server keeps, and the index of known
//! classes that cross-file lookups go through.

use vstd::prelude::*;

use crate::symbol_map::SymbolSpan;
use crate::text::{append_str, chars_eq, chars_of, str_eq};
use crate::types::ClassInfo;

verus! {

/// The class types that type inference found for a variable at one
/// access: `$var_name` at character offset `offset` may hold an instance
/// of any of `classes` (all branches of a union type).
#[derive(Debug, Clone)]
pub struct VariableResolution {
    pub var_name: String,
    pub offset: u32,
    pub classes: Vec<ClassInfo>,
}

/// What the server knows about one open file.
#[derive(Debug, Clone)]
pub struct FileState {
    pub uri: String,
    /// The symbol spans of the file, in source order.
    pub spans: Vec<SymbolSpan>,
    /// The file's `use` imports: alias (or last segment) to fully
    /// qualified name.  The aliases are distinct, as the keys of a map are
    /// (`aliases_unique`); lookups take the first import with an alias,
    /// which is then the only one (`lemma_lookup_is_map_get`).
    pub use_map: Vec<(String, String)>,
    /// The file's namespace, if it declares one.
    pub namespace: Option<String>,
    /// The classes declared in the file (anonymous ones included).
    pub local_classes: Vec<ClassInfo>,
    /// Inferred types of variables at member accesses.
    pub variable_types: Vec<VariableResolution>,
}

/// The language server's state: its open files and the index of known
/// classes.  The index holds each class fully resolved (inherited, trait
/// and virtual members merged in), under its fully qualified name: it is
/// both what cross-file lookups find and the cache of resolved classes.
/// An anonymous class is never found by a cross-file lookup (nothing
/// names it), but once resolved it sits in the cache under its internal
/// `__anonymous@<offset>` name like any other class; one that is not
/// there is used as declared.
#[derive(Debug, Clone)]
pub struct Backend {
    pub files: Vec<FileState>,
    pub classes: Vec<ClassInfo>,
}

/// The fully qualified name of a class: its file's namespace (when not
/// empty), a backslash, and its name.
pub open spec fn class_fqn(c: ClassInfo) -> Seq<char> {
    if c.file_namespace matches Some(ns) && ns@.len() > 0 {
        c.file_namespace->0@ + seq!['\\'] + c.name@
    } else {
        c.name@
    }
}

/// Index of the first class in `classes` from `i` on whose fully
/// qualified name is `fqn`.
pub open spec fn find_class_from(classes: Seq<ClassInfo>, fqn: Seq<char>, i: int) -> Option<int>
    decreases classes.len() - i,
{
    if i < 0 || i >= classes.len() {
        None
    } else if class_fqn(classes[i]) == fqn {
        Some(i)
    } else {
        find_class_from(classes, fqn, i + 1)
    }
}

/// The indexed class named `fqn`: none or one.
pub open spec fn spec_find_or_load(b: Backend, fqn: Seq<char>) -> Seq<ClassInfo> {
    match find_class_from(b.classes@, fqn, 0) {
        Some(i) => seq![b.classes@[i]],
        None => seq![],
    }
}

/// The fully resolved form of `c`: its index entry when the index has
/// one; `c` itself for synthetic `__object_shape` classes (which already
/// carry all their members and all share one name) and for classes the
/// index lacks.
pub open spec fn spec_resolve_fully(b: Backend, c: ClassInfo) -> ClassInfo {
    if c.name@ == "__object_shape"@ {
        c
    } else {
        match find_class_from(b.classes@, class_fqn(c), 0) {
            Some(i) => b.classes@[i],
            None => c,
        }
    }
}

/// Index of the first file from `i` on whose URI is `uri`.
pub open spec fn find_file_from(files: Seq<FileState>, uri: Seq<char>, i: int) -> Option<int>
    decreases files.len() - i,
{
    if i < 0 || i >= files.len() {
        None
    } else if files[i].uri@ == uri {
        Some(i)
    } else {
        find_file_from(files, uri, i + 1)
    }
}

/// The fully qualified name of `c`.
pub fn class_fqn_chars(c: &ClassInfo) -> (r: Vec<char>)
    ensures
        r@ == class_fqn(*c),
{
    match &c.file_namespace {
        Some(ns) => {
            if !ns.as_str().is_empty() {
                let mut v = chars_of(ns.as_str());
                v.push('\\');
                append_str(&mut v, c.name.as_str());
                v
            } else {
                chars_of(c.name.as_str())
            }
        },
        None => chars_of(c.name.as_str()),
    }
}

impl Backend {
    /// The indexed class whose fully qualified name is `fqn`.
    pub fn find_or_load_class(&self, fqn: &Vec<char>) -> (r: Option<&ClassInfo>)
        ensures
            r is Some <==> find_class_from(self.classes@, fqn@, 0) is Some,
            r matches Some(c) ==> *c == self.classes@[find_class_from(self.classes@, fqn@, 0)->0],
    {
        let mut i: usize = 0;
        while i < self.classes.len()
            invariant
                i <= self.classes@.len(),
                find_class_from(self.classes@, fqn@, 0) == find_class_from(
                    self.classes@,
                    fqn@,
                    i as int,
                ),
            decreases self.classes@.len() - i,
        {
            let name = class_fqn_chars(&self.classes[i]);
            if chars_eq(&name, fqn) {
                return Some(&self.classes[i]);
            }
            i = i + 1;
        }
        None
    }

    /// The fully resolved form of `c` (see [`spec_resolve_fully`]).
    pub fn resolve_class_fully<'a>(&'a self, c: &'a ClassInfo) -> (r: &'a ClassInfo)
        ensures
            *r == spec_resolve_fully(*self, *c),
    {
        if str_eq(c.name.as_str(), "__object_shape") {
            return c;
        }
        let fqn = class_fqn_chars(c);
        match self.find_or_load_class(&fqn) {
            Some(r) => r,
            None => c,
        }
    }

    /// The state of the file with URI `uri`.
    pub fn find_file(&self, uri: &str) -> (r: Option<&FileState>)
        ensures
            r is Some <==> find_file_from(self.files@, uri@, 0) is Some,
            r matches Some(f) ==> *f == self.files@[find_file_from(self.files@, uri@, 0)->0],
    {
        let mut i: usize = 0;
        while i < self.files.len()
            invariant
                i <= self.files@.len(),
                find_file_from(self.files@, uri@, 0) == find_file_from(
                    self.files@,
                    uri@,
                    i as int,
                ),
            decreases self.files@.len() - i,
        {
            if str_eq(self.files[i].uri.as_str(), uri) {
                return Some(&self.files[i]);
            }
            i = i + 1;
        }
        None
    }
}

} // verus!
