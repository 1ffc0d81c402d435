//! Unknown member access diagnostics.
//!
//! Every `MemberAccess` span of a file is checked against the classes its
//! subject resolves to, after full resolution (inheritance and virtual
//! members).  A warning is reported when the member exists on none of
//! them: the code may still run through magic methods the server cannot
//! see, but the user learns that the member could not be resolved.
//!
//! No diagnostic is reported when:
//!
//! - the subject resolves to no class (nothing can be known of it);
//! - any resolved class (any branch of a union type) has the member;
//! - any resolved class has `__call` / `__callStatic` (for method calls)
//!   or `__get` / `__set` (for instance property access);
//! - the member is the magic `::class` constant;
//! - the subject is an enum and the member one of its cases (cases are
//!   stored as constants, so they exist as members).

use vstd::prelude::*;

use crate::backend::{
    class_fqn, class_fqn_chars, find_file_from, spec_find_or_load, spec_resolve_fully, Backend,
    FileState, VariableResolution,
};
use crate::diagnostics::{offset_range_to_lsp_range, spec_offset_range};
use crate::lsp::{CodeView, Diagnostic, DiagnosticSeverity, DiagnosticView, NumberOrString};
use crate::symbol_map::{SymbolKind, SymbolSpan};
use crate::text::{
    append_chars, append_str, chars_eq, chars_eq_ignore_case, chars_of, eq_ignore_case,
    has_prefix, push_decimal, starts_with, str_eq, string_of, decimal, trim, trimmed,
};
use crate::types::{opt_view, ClassInfo};

verus! {

/// Diagnostic code of unknown-member diagnostics, for code actions to
/// match on.
pub const UNKNOWN_MEMBER_CODE: &'static str = "unknown_member";

// ── Specifications: members ─────────────────────────────────────────────────

/// `class` has a method named `name`, ASCII case ignored (PHP method
/// names are case-insensitive).
pub open spec fn has_method_ci(class: ClassInfo, name: Seq<char>) -> bool {
    exists|i: int|
        0 <= i < class.methods@.len() && eq_ignore_case(#[trigger] class.methods@[i].name@, name)
}

/// The member exists on `class`: for a method call, a method of that
/// name (case ignored); for other static access, a constant or a static
/// property of that name; for instance access, a property of that name.
pub open spec fn spec_member_exists(
    class: ClassInfo,
    member: Seq<char>,
    is_static: bool,
    is_method_call: bool,
) -> bool {
    if is_method_call {
        has_method_ci(class, member)
    } else if is_static {
        ||| exists|i: int|
            0 <= i < class.constants@.len() && #[trigger] class.constants@[i].name@ == member
        ||| exists|i: int|
            0 <= i < class.properties@.len() && #[trigger] class.properties@[i].name@ == member
                && class.properties@[i].is_static
    } else {
        exists|i: int|
            0 <= i < class.properties@.len() && #[trigger] class.properties@[i].name@ == member
    }
}

/// `class` has a magic method that accepts this kind of access for any
/// member name: `__call` for instance calls, `__callStatic` for static
/// calls, `__get` or `__set` (dynamic properties) for instance property
/// access.
pub open spec fn spec_has_magic(class: ClassInfo, is_static: bool, is_method_call: bool) -> bool {
    if is_method_call {
        if is_static {
            has_method_ci(class, "__callStatic"@)
        } else {
            has_method_ci(class, "__call"@)
        }
    } else if !is_static {
        has_method_ci(class, "__get"@) || has_method_ci(class, "__set"@)
    } else {
        false
    }
}

// ── Specifications: names ───────────────────────────────────────────────────

/// `name` is the internal name of an anonymous class.
pub open spec fn is_anonymous_name(name: Seq<char>) -> bool {
    starts_with(name, "__anonymous@"@)
}

/// How a class is named in messages: its short name, for readability;
/// for an anonymous class that is its full internal name.
pub open spec fn spec_display_name(class: ClassInfo) -> Seq<char> {
    class.name@
}

/// The target of the first import in `use_map` from `i` on whose alias is
/// `key`.
pub open spec fn lookup_from(use_map: Seq<(String, String)>, key: Seq<char>, i: int) -> Option<
    Seq<char>,
>
    decreases use_map.len() - i,
{
    if i < 0 || i >= use_map.len() {
        None
    } else if use_map[i].0@ == key {
        Some(use_map[i].1@)
    } else {
        lookup_from(use_map, key, i + 1)
    }
}

/// No two imports of `use_map` share an alias: it is a map from aliases
/// to fully qualified names.
pub open spec fn aliases_unique(use_map: Seq<(String, String)>) -> bool {
    forall|i: int, j: int| 0 <= i < j < use_map.len() ==> use_map[i].0@ != use_map[j].0@
}

proof fn lemma_lookup_from(use_map: Seq<(String, String)>, key: Seq<char>, s: int, i: int)
    requires
        0 <= s <= i < use_map.len(),
        use_map[i].0@ == key,
        forall|j: int| s <= j < i ==> use_map[j].0@ != key,
    ensures
        lookup_from(use_map, key, s) == Some(use_map[i].1@),
    decreases i - s,
{
    if s < i {
        lemma_lookup_from(use_map, key, s + 1, i);
    }
}

proof fn lemma_lookup_from_none(use_map: Seq<(String, String)>, key: Seq<char>, s: int)
    requires
        0 <= s,
        forall|j: int| s <= j < use_map.len() ==> use_map[j].0@ != key,
    ensures
        lookup_from(use_map, key, s) is None,
    decreases use_map.len() - s,
{
    if s < use_map.len() {
        lemma_lookup_from_none(use_map, key, s + 1);
    }
}

/// With distinct aliases, looking an alias up reads the imports as a map:
/// it gives the target of the import with that alias, wherever that
/// import stands, and nothing when no import has it.
pub proof fn lemma_lookup_is_map_get(use_map: Seq<(String, String)>, key: Seq<char>)
    requires
        aliases_unique(use_map),
    ensures
        forall|i: int|
            0 <= i < use_map.len() && #[trigger] use_map[i].0@ == key ==> lookup_from(use_map, key, 0)
                == Some(use_map[i].1@),
        (forall|i: int| 0 <= i < use_map.len() ==> #[trigger] use_map[i].0@ != key) ==> lookup_from(
            use_map,
            key,
            0,
        ) is None,
{
    assert forall|i: int| 0 <= i < use_map.len() && #[trigger] use_map[i].0@ == key implies lookup_from(
        use_map,
        key,
        0,
    ) == Some(use_map[i].1@) by {
        assert forall|j: int| 0 <= j < i implies use_map[j].0@ != key by {
            assert(use_map[j].0@ != use_map[i].0@);
        }
        lemma_lookup_from(use_map, key, 0, i);
    }
    if forall|i: int| 0 <= i < use_map.len() ==> #[trigger] use_map[i].0@ != key {
        lemma_lookup_from_none(use_map, key, 0);
    }
}

/// `name` in namespace `ns`: `ns\name`, or `name` without a namespace.
pub open spec fn in_namespace(ns: Option<Seq<char>>, name: Seq<char>) -> Seq<char> {
    match ns {
        Some(n) => n + seq!['\\'] + name,
        None => name,
    }
}

/// The fully qualified name that a class name written in a file means:
/// a leading `\` marks it as already qualified; otherwise its first
/// segment is looked up among the file's imports, and failing that the
/// name is taken relative to the file's namespace.
pub open spec fn spec_resolve_to_fqn(
    name: Seq<char>,
    use_map: Seq<(String, String)>,
    ns: Option<Seq<char>>,
) -> Seq<char> {
    let k = crate::text::pos_of(name, '\\');
    if name.len() > 0 && name[0] == '\\' {
        name.skip(1)
    } else if k == name.len() {
        match lookup_from(use_map, name, 0) {
            Some(fqn) => fqn,
            None => in_namespace(ns, name),
        }
    } else {
        match lookup_from(use_map, name.take(k as int), 0) {
            Some(prefix) => prefix + name.skip(k as int),
            None => in_namespace(ns, name),
        }
    }
}

// ── Specifications: enclosing classes ───────────────────────────────────────

/// The body of `c` spans `offset`.
pub open spec fn spans_offset(c: ClassInfo, offset: u32) -> bool {
    c.start_offset <= offset && offset <= c.end_offset
}

/// The width of the body of `c` (zero when its offsets are reversed).
pub open spec fn body_width(c: ClassInfo) -> int {
    if c.end_offset >= c.start_offset {
        c.end_offset - c.start_offset
    } else {
        0
    }
}

/// Among the first `n` classes, the index of the first one of least
/// width whose body spans `offset`.
pub open spec fn innermost_upto(classes: Seq<ClassInfo>, offset: u32, n: int) -> Option<int>
    decreases n,
{
    if n <= 0 {
        None
    } else {
        let best = innermost_upto(classes, offset, n - 1);
        let c = classes[n - 1];
        match best {
            None => if spans_offset(c, offset) {
                Some(n - 1)
            } else {
                None
            },
            Some(b) => if spans_offset(c, offset) && body_width(c) < body_width(classes[b]) {
                Some(n - 1)
            } else {
                Some(b)
            },
        }
    }
}

/// The innermost class whose body spans `offset`.
pub open spec fn spec_innermost(classes: Seq<ClassInfo>, offset: u32) -> Option<int> {
    innermost_upto(classes, offset, classes.len() as int)
}

/// Index of the first non-anonymous class from `i` on.
pub open spec fn first_named_from(classes: Seq<ClassInfo>, i: int) -> Option<int>
    decreases classes.len() - i,
{
    if i < 0 || i >= classes.len() {
        None
    } else if !is_anonymous_name(classes[i].name@) {
        Some(i)
    } else {
        first_named_from(classes, i + 1)
    }
}

/// The class enclosing `offset`: the innermost one spanning it, else the
/// first non-anonymous class of the file (top-level code).
pub open spec fn spec_enclosing(classes: Seq<ClassInfo>, offset: u32) -> Option<int> {
    match spec_innermost(classes, offset) {
        Some(i) => Some(i),
        None => first_named_from(classes, 0),
    }
}

// ── Executable: members ─────────────────────────────────────────────────────

/// Whether `class` has a method named `name`, ASCII case ignored.
fn has_method_named(class: &ClassInfo, name: &Vec<char>) -> (r: bool)
    ensures
        r == has_method_ci(*class, name@),
{
    let mut i: usize = 0;
    while i < class.methods.len()
        invariant
            i <= class.methods@.len(),
            forall|k: int|
                0 <= k < i ==> !eq_ignore_case(#[trigger] class.methods@[k].name@, name@),
        decreases class.methods@.len() - i,
    {
        let n = chars_of(class.methods[i].name.as_str());
        if chars_eq_ignore_case(&n, name) {
            return true;
        }
        i = i + 1;
    }
    false
}

/// Whether a member exists on the fully resolved `class`.
///
/// For method calls, checks the methods, ASCII case ignored.  For other
/// static access, checks the constants, then the static properties.  For
/// instance property access, checks the properties (stored without `$`).
#[verifier::loop_isolation(false)]
pub fn member_exists(
    class: &ClassInfo,
    member_name: &str,
    is_static: bool,
    is_method_call: bool,
) -> (r: bool)
    ensures
        r == spec_member_exists(*class, member_name@, is_static, is_method_call),
{
    let member = chars_of(member_name);
    if is_method_call {
        return has_method_named(class, &member);
    }
    if is_static {
        let mut i: usize = 0;
        while i < class.constants.len()
            invariant
                i <= class.constants@.len(),
                member@ == member_name@,
                forall|k: int| 0 <= k < i ==> #[trigger] class.constants@[k].name@ != member@,
            decreases class.constants@.len() - i,
        {
            if str_is(&class.constants[i].name, &member) {
                assert(class.constants@[i as int].name@ == member@);
                return true;
            }
            i = i + 1;
        }
        let mut j: usize = 0;
        while j < class.properties.len()
            invariant
                j <= class.properties@.len(),
            member@ == member_name@,
                member@ == member_name@,
                forall|k: int|
                    0 <= k < j ==> !(#[trigger] class.properties@[k].name@ == member@
                        && class.properties@[k].is_static),
            decreases class.properties@.len() - j,
        {
            if str_is(&class.properties[j].name, &member) && class.properties[j].is_static {
                assert(class.properties@[j as int].name@ == member@);
                return true;
            }
            j = j + 1;
        }
        return false;
    }
    let mut j: usize = 0;
    while j < class.properties.len()
        invariant
            j <= class.properties@.len(),
            member@ == member_name@,
            forall|k: int| 0 <= k < j ==> #[trigger] class.properties@[k].name@ != member@,
        decreases class.properties@.len() - j,
    {
        if str_is(&class.properties[j].name, &member) {
            assert(class.properties@[j as int].name@ == member@);
            return true;
        }
        j = j + 1;
    }
    false
}

/// Whether the string `s` holds exactly the characters of `v`.
fn str_is(s: &String, v: &Vec<char>) -> (r: bool)
    ensures
        r == (s@ == v@),
{
    let c = chars_of(s.as_str());
    chars_eq(&c, v)
}

/// Whether the resolved `class` has a magic method that handles this kind
/// of access for any member name: `__call` (instance calls),
/// `__callStatic` (static calls), `__get` or `__set` (instance property
/// access: `__set` also implies dynamic property support).
pub fn has_magic_method_for_access(class: &ClassInfo, is_static: bool, is_method_call: bool) -> (r:
    bool)
    ensures
        r == spec_has_magic(*class, is_static, is_method_call),
{
    if is_method_call {
        let magic = if is_static {
            chars_of("__callStatic")
        } else {
            chars_of("__call")
        };
        return has_method_named(class, &magic);
    }
    if !is_static {
        return has_method_named(class, &chars_of("__get")) || has_method_named(
            class,
            &chars_of("__set"),
        );
    }
    false
}

// ── Executable: names ───────────────────────────────────────────────────────

/// A user-friendly name for a class: the short name, for readability.
/// For an anonymous class this is its full internal name.
pub fn display_class_name(class: &ClassInfo) -> (r: String)
    ensures
        r@ == spec_display_name(*class),
{
    class.name.clone()
}

/// The target of the first import whose alias is `key`.
fn lookup_use<'a>(use_map: &'a Vec<(String, String)>, key: &Vec<char>) -> (r: Option<&'a String>)
    ensures
        r is Some <==> lookup_from(use_map@, key@, 0) is Some,
        r matches Some(t) ==> t@ == lookup_from(use_map@, key@, 0)->0,
{
    let mut i: usize = 0;
    while i < use_map.len()
        invariant
            i <= use_map@.len(),
            lookup_from(use_map@, key@, 0) == lookup_from(use_map@, key@, i as int),
        decreases use_map@.len() - i,
    {
        if str_is(&use_map[i].0, key) {
            return Some(&use_map[i].1);
        }
        i = i + 1;
    }
    None
}

/// `name` in namespace `ns`.
fn in_namespace_exec(ns: &Option<String>, name: &Vec<char>) -> (r: Vec<char>)
    ensures
        r@ == in_namespace(opt_view(*ns), name@),
{
    match ns {
        Some(n) => {
            let mut v = chars_of(n.as_str());
            v.push('\\');
            append_chars(&mut v, name);
            v
        },
        None => crate::text::sub_vec(name, 0, name.len()),
    }
}

/// Resolves a class name as written in a file to a fully qualified name,
/// using the file's imports and namespace.
pub fn resolve_to_fqn(name: &str, use_map: &Vec<(String, String)>, namespace: &Option<String>) -> (r:
    String)
    ensures
        r@ == spec_resolve_to_fqn(name@, use_map@, opt_view(*namespace)),
{
    let v = chars_of(name);
    if v.len() > 0 && v[0] == '\\' {
        let rest = crate::text::sub_vec(&v, 1, v.len());
        assert(rest@ =~= v@.skip(1));
        return string_of(&rest);
    }
    let k = crate::text::position(&v, '\\');
    if k == v.len() {
        match lookup_use(use_map, &v) {
            Some(fqn) => return fqn.clone(),
            None => return string_of(&in_namespace_exec(namespace, &v)),
        }
    }
    let first = crate::text::sub_vec(&v, 0, k);
    assert(first@ =~= v@.take(k as int));
    match lookup_use(use_map, &first) {
        Some(prefix) => {
            let mut out = chars_of(prefix.as_str());
            let rest = crate::text::sub_vec(&v, k, v.len());
            assert(rest@ =~= v@.skip(k as int));
            append_chars(&mut out, &rest);
            string_of(&out)
        },
        None => string_of(&in_namespace_exec(namespace, &v)),
    }
}

// ── Executable: enclosing classes ───────────────────────────────────────────

fn width_of(c: &ClassInfo) -> (r: u32)
    ensures
        r == body_width(*c),
{
    if c.end_offset >= c.start_offset {
        c.end_offset - c.start_offset
    } else {
        0
    }
}

/// Index of the innermost class whose body spans `offset`.
fn innermost_index(local_classes: &Vec<ClassInfo>, offset: u32) -> (r: Option<usize>)
    ensures
        r is None <==> spec_innermost(local_classes@, offset) is None,
        r matches Some(i) ==> spec_innermost(local_classes@, offset) == Some(i as int),
        r matches Some(i) ==> i < local_classes@.len(),
{
    let mut best: Option<usize> = None;
    let mut i: usize = 0;
    while i < local_classes.len()
        invariant
            i <= local_classes@.len(),
            best is None <==> innermost_upto(local_classes@, offset, i as int) is None,
            best matches Some(b) ==> innermost_upto(local_classes@, offset, i as int) == Some(
                b as int,
            ) && b < i,
        decreases local_classes@.len() - i,
    {
        let c = &local_classes[i];
        let spans = offset >= c.start_offset && offset <= c.end_offset;
        match best {
            None => {
                if spans {
                    best = Some(i);
                }
            },
            Some(b) => {
                if spans && width_of(c) < width_of(&local_classes[b]) {
                    best = Some(i);
                }
            },
        }
        i = i + 1;
    }
    best
}

/// The innermost class whose body spans `offset`: of those that span it,
/// the first one with the smallest width.  Anonymous classes count.
pub fn find_innermost_enclosing_class(local_classes: &Vec<ClassInfo>, offset: u32) -> (r: Option<
    &ClassInfo,
>)
    ensures
        r is Some <==> spec_innermost(local_classes@, offset) is Some,
        r matches Some(c) ==> *c == local_classes@[spec_innermost(local_classes@, offset)->0],
{
    match innermost_index(local_classes, offset) {
        Some(i) => Some(&local_classes[i]),
        None => None,
    }
}

/// Index of the first non-anonymous class.
fn first_named_index(local_classes: &Vec<ClassInfo>) -> (r: Option<usize>)
    ensures
        r is None <==> first_named_from(local_classes@, 0) is None,
        r matches Some(i) ==> first_named_from(local_classes@, 0) == Some(i as int),
        r matches Some(i) ==> i < local_classes@.len(),
{
    let anon = chars_of("__anonymous@");
    let mut i: usize = 0;
    while i < local_classes.len()
        invariant
            i <= local_classes@.len(),
            anon@ == "__anonymous@"@,
            first_named_from(local_classes@, 0) == first_named_from(local_classes@, i as int),
        decreases local_classes@.len() - i,
    {
        let name = chars_of(local_classes[i].name.as_str());
        if !has_prefix(&name, &anon) {
            return Some(i);
        }
        i = i + 1;
    }
    None
}

/// Index of the class enclosing `offset` (see [`spec_enclosing`]).
fn enclosing_index(local_classes: &Vec<ClassInfo>, offset: u32) -> (r: Option<usize>)
    ensures
        r is None <==> spec_enclosing(local_classes@, offset) is None,
        r matches Some(i) ==> spec_enclosing(local_classes@, offset) == Some(i as int),
        r matches Some(i) ==> i < local_classes@.len(),
{
    match innermost_index(local_classes, offset) {
        Some(i) => Some(i),
        None => first_named_index(local_classes),
    }
}

// ── Specifications: subjects ────────────────────────────────────────────────

/// Index of the first recorded resolution from `i` on for the variable
/// `var` at `offset`.
pub open spec fn var_entry_from(
    entries: Seq<VariableResolution>,
    var: Seq<char>,
    offset: u32,
    i: int,
) -> Option<int>
    decreases entries.len() - i,
{
    if i < 0 || i >= entries.len() {
        None
    } else if entries[i].var_name@ == var && entries[i].offset == offset {
        Some(i)
    } else {
        var_entry_from(entries, var, offset, i + 1)
    }
}

/// The classes the variable `var` may hold at `offset`: all branches of
/// its inferred type (none when nothing was inferred).
pub open spec fn spec_variable_classes(f: FileState, var: Seq<char>, offset: u32) -> Seq<
    ClassInfo,
> {
    match var_entry_from(f.variable_types@, var, offset, 0) {
        Some(i) => f.variable_types@[i].classes@,
        None => seq![],
    }
}

/// The class that `$this`, `self` and `static` mean at `offset`: the
/// enclosing class itself when it is anonymous (anonymous classes are
/// file-local), else the indexed class of that name in the file's
/// namespace.
pub open spec fn spec_enclosing_classes(b: Backend, f: FileState, offset: u32) -> Seq<ClassInfo> {
    match spec_enclosing(f.local_classes@, offset) {
        Some(i) => {
            let c = f.local_classes@[i];
            if is_anonymous_name(c.name@) {
                seq![c]
            } else {
                spec_find_or_load(b, in_namespace(opt_view(f.namespace), c.name@))
            }
        },
        None => seq![],
    }
}

/// The classes a member access subject may stand for at `offset`:
/// `self` / `static` / `$this` give the enclosing class, `parent` its
/// parent, a class name (in static access) that class, a variable all
/// branches of its type; anything else, nothing.
pub open spec fn spec_subject_classes(
    b: Backend,
    f: FileState,
    subject: Seq<char>,
    is_static: bool,
    offset: u32,
) -> Seq<ClassInfo> {
    let t = trim(subject);
    if t == "self"@ || t == "static"@ || t == "$this"@ {
        spec_enclosing_classes(b, f, offset)
    } else if t == "parent"@ {
        match spec_enclosing(f.local_classes@, offset) {
            Some(i) => match f.local_classes@[i].parent_class {
                Some(p) => spec_find_or_load(
                    b,
                    spec_resolve_to_fqn(p@, f.use_map@, opt_view(f.namespace)),
                ),
                None => seq![],
            },
            None => seq![],
        }
    } else if is_static && !starts_with(t, seq!['$']) {
        spec_find_or_load(b, spec_resolve_to_fqn(t, f.use_map@, opt_view(f.namespace)))
    } else if starts_with(t, seq!['$']) {
        spec_variable_classes(f, t, offset)
    } else {
        seq![]
    }
}

// ── Specifications: diagnostics ─────────────────────────────────────────────

/// The word that names the kind of member in messages.
pub open spec fn kind_label(is_static: bool, is_method_call: bool) -> Seq<char> {
    if is_method_call {
        "Method"@
    } else if is_static {
        "Member"@
    } else {
        "Property"@
    }
}

/// The display names of `classes`, separated by `, `.
pub open spec fn join_names(classes: Seq<ClassInfo>) -> Seq<char>
    decreases classes.len(),
{
    if classes.len() == 0 {
        seq![]
    } else if classes.len() == 1 {
        spec_display_name(classes[0])
    } else {
        join_names(classes.drop_last()) + ", "@ + spec_display_name(classes.last())
    }
}

/// The message for a member found on none of `classes`.
pub open spec fn spec_message(label: Seq<char>, member: Seq<char>, classes: Seq<ClassInfo>) -> Seq<
    char,
> {
    if classes.len() > 1 {
        label + " '"@ + member + "' not found on any of the "@ + decimal(classes.len())
            + " possible types ("@ + join_names(classes) + ")"@
    } else {
        label + " '"@ + member + "' not found on class '"@ + spec_display_name(classes[0]) + "'"@
    }
}

/// Some class of `classes` has a magic method for this access.
pub open spec fn any_magic(classes: Seq<ClassInfo>, is_static: bool, is_method_call: bool) -> bool {
    exists|i: int| 0 <= i < classes.len() && spec_has_magic(#[trigger] classes[i], is_static, is_method_call)
}

/// Some class of `classes` has the member.
pub open spec fn any_has_member(
    classes: Seq<ClassInfo>,
    member: Seq<char>,
    is_static: bool,
    is_method_call: bool,
) -> bool {
    exists|i: int|
        0 <= i < classes.len() && spec_member_exists(#[trigger] classes[i], member, is_static, is_method_call)
}

/// The access is reported when its subject resolved to some class and
/// none of the (fully resolved) classes has the member or a magic method
/// that serves it.
pub open spec fn reported(
    resolved: Seq<ClassInfo>,
    member: Seq<char>,
    is_static: bool,
    is_method_call: bool,
) -> bool {
    &&& resolved.len() > 0
    &&& !any_magic(resolved, is_static, is_method_call)
    &&& !any_has_member(resolved, member, is_static, is_method_call)
}

/// The fully resolved forms of `classes`.
pub open spec fn resolve_all(b: Backend, classes: Seq<ClassInfo>) -> Seq<ClassInfo> {
    classes.map_values(|c: ClassInfo| spec_resolve_fully(b, c))
}

proof fn lemma_find_class_at(classes: Seq<ClassInfo>, fqn: Seq<char>, s: int, i: int)
    requires
        0 <= s <= i < classes.len(),
        class_fqn(classes[i]) == fqn,
        forall|k: int| s <= k < i ==> class_fqn(#[trigger] classes[k]) != fqn,
    ensures
        crate::backend::find_class_from(classes, fqn, s) == Some(i),
    decreases i - s,
{
    if s < i {
        lemma_find_class_at(classes, fqn, s + 1, i);
    }
}

/// A class that is no object shape resolves to the index entry registered
/// under its fully qualified name (its namespace, a backslash and its
/// name; its bare name when it has no namespace), whatever namespace it
/// is in; so an access to a member that entry has (inherited ones
/// included) is never reported, whatever else the subject may stand for.
pub proof fn lemma_indexed_class_resolves(
    b: Backend,
    c: ClassInfo,
    i: int,
    classes: Seq<ClassInfo>,
    j: int,
    member: Seq<char>,
    is_static: bool,
    is_method_call: bool,
)
    requires
        c.name@ != "__object_shape"@,
        0 <= i < b.classes@.len(),
        class_fqn(b.classes@[i]) == (if c.file_namespace matches Some(n) && n@.len() > 0 {
            c.file_namespace->0@ + seq!['\\'] + c.name@
        } else {
            c.name@
        }),
        forall|k: int| 0 <= k < i ==> class_fqn(#[trigger] b.classes@[k]) != class_fqn(b.classes@[i]),
        0 <= j < classes.len(),
        classes[j] == c,
        spec_member_exists(b.classes@[i], member, is_static, is_method_call),
    ensures
        spec_resolve_fully(b, c) == b.classes@[i],
        !reported(resolve_all(b, classes), member, is_static, is_method_call),
{
    let fqn = class_fqn(b.classes@[i]);
    lemma_find_class_at(b.classes@, fqn, 0, i);
    assert(class_fqn(c) == fqn);
    let resolved = resolve_all(b, classes);
    assert(resolved[j] == spec_resolve_fully(b, classes[j]));
    assert(spec_member_exists(resolved[j], member, is_static, is_method_call));
    assert(any_has_member(resolved, member, is_static, is_method_call));
}

/// The diagnostic for one symbol span of file `f` (with text `content`),
/// if it gets one.
pub open spec fn spec_span_diagnostic(
    b: Backend,
    f: FileState,
    content: Seq<char>,
    span: SymbolSpan,
) -> Option<DiagnosticView> {
    match span.kind {
        SymbolKind::MemberAccess { subject_text, member_name, is_static, is_method_call } => {
            let resolved = resolve_all(
                b,
                spec_subject_classes(b, f, subject_text@, is_static, span.start),
            );
            if member_name@ == "class"@ && is_static {
                None
            } else if !reported(resolved, member_name@, is_static, is_method_call) {
                None
            } else {
                match spec_offset_range(content, span.start as int, span.end as int) {
                    Some(range) => Some(
                        DiagnosticView {
                            range,
                            severity: Some(DiagnosticSeverity::Warning),
                            code: Some(CodeView::Text(UNKNOWN_MEMBER_CODE@)),
                            source: Some("phpantom"@),
                            message: spec_message(
                                kind_label(is_static, is_method_call),
                                member_name@,
                                resolved,
                            ),
                        },
                    ),
                    None => None,
                }
            }
        },
        SymbolKind::Other => None,
    }
}

/// The diagnostics of `spans`, in order.
pub open spec fn spec_spans_diagnostics(
    b: Backend,
    f: FileState,
    content: Seq<char>,
    spans: Seq<SymbolSpan>,
) -> Seq<DiagnosticView>
    decreases spans.len(),
{
    if spans.len() == 0 {
        seq![]
    } else {
        let prev = spec_spans_diagnostics(b, f, content, spans.drop_last());
        match spec_span_diagnostic(b, f, content, spans.last()) {
            Some(d) => prev.push(d),
            None => prev,
        }
    }
}

/// The unknown-member diagnostics of the file `uri` with text `content`;
/// none for a file the server does not know.
pub open spec fn spec_unknown_member_diagnostics(b: Backend, uri: Seq<char>, content: Seq<char>) -> Seq<
    DiagnosticView,
> {
    match find_file_from(b.files@, uri, 0) {
        Some(i) => spec_spans_diagnostics(b, b.files@[i], content, b.files@[i].spans@),
        None => seq![],
    }
}

// ── Executable: subjects ────────────────────────────────────────────────────

/// The classes that references point at.
pub open spec fn deref_all(v: Seq<&ClassInfo>) -> Seq<ClassInfo> {
    v.map_values(|c: &ClassInfo| *c)
}

fn load_into<'a>(b: &'a Backend, fqn: &Vec<char>) -> (r: Vec<&'a ClassInfo>)
    ensures
        deref_all(r@) == spec_find_or_load(*b, fqn@),
{
    let mut r: Vec<&'a ClassInfo> = Vec::new();
    match b.find_or_load_class(fqn) {
        Some(c) => {
            r.push(c);
        },
        None => {},
    }
    assert(deref_all(r@) =~= spec_find_or_load(*b, fqn@));
    r
}

/// Resolves a `$variable` subject to all branches of the type inferred for
/// it at `offset`.
pub fn resolve_variable_subjects<'a>(f: &'a FileState, var: &Vec<char>, offset: u32) -> (r: Vec<&'a ClassInfo>)
    ensures
        deref_all(r@) == spec_variable_classes(*f, var@, offset),
{
    let mut i: usize = 0;
    while i < f.variable_types.len()
        invariant
            i <= f.variable_types@.len(),
            var_entry_from(f.variable_types@, var@, offset, 0) == var_entry_from(
                f.variable_types@,
                var@,
                offset,
                i as int,
            ),
        decreases f.variable_types@.len() - i,
    {
        let e = &f.variable_types[i];
        if str_is(&e.var_name, var) && e.offset == offset {
            let mut r: Vec<&'a ClassInfo> = Vec::new();
            let mut k: usize = 0;
            while k < e.classes.len()
                invariant
                    k <= e.classes@.len(),
                    r@.len() == k,
                    deref_all(r@) == e.classes@.take(k as int),
                decreases e.classes@.len() - k,
            {
                r.push(&e.classes[k]);
                assert(deref_all(r@) =~= e.classes@.take(k + 1));
                k = k + 1;
            }
            assert(e.classes@.take(e.classes@.len() as int) =~= e.classes@);
            return r;
        }
        i = i + 1;
    }
    let r: Vec<&'a ClassInfo> = Vec::new();
    assert(deref_all(r@) =~= Seq::<ClassInfo>::empty());
    r
}

/// Resolves `$this` / `self` / `static` to the enclosing class.
///
/// An anonymous class is returned directly from the file's classes (it
/// is never indexed); a named class is looked up in the index under its
/// name in the file's namespace, so that its inherited members come with
/// it.
pub fn resolve_enclosing_class<'a>(b: &'a Backend, f: &'a FileState, offset: u32) -> (r: Vec<
    &'a ClassInfo,
>)
    ensures
        deref_all(r@) == spec_enclosing_classes(*b, *f, offset),
{
    match enclosing_index(&f.local_classes, offset) {
        Some(i) => {
            let c = &f.local_classes[i];
            let name = chars_of(c.name.as_str());
            if has_prefix(&name, &chars_of("__anonymous@")) {
                let mut r: Vec<&'a ClassInfo> = Vec::new();
                r.push(c);
                assert(deref_all(r@) =~= seq![*c]);
                r
            } else {
                let fqn = in_namespace_exec(&f.namespace, &name);
                load_into(b, &fqn)
            }
        },
        None => {
            let r: Vec<&'a ClassInfo> = Vec::new();
            assert(deref_all(r@) =~= Seq::<ClassInfo>::empty());
            r
        },
    }
}

/// Resolves a member access subject to all the classes it may stand for:
/// none or one for `self`, `static`, `parent` and class names; every
/// branch of the inferred union type for a `$variable`.
pub fn resolve_subject_to_classes<'a>(
    b: &'a Backend,
    f: &'a FileState,
    subject_text: &str,
    is_static: bool,
    access_offset: u32,
) -> (r: Vec<&'a ClassInfo>)
    ensures
        deref_all(r@) == spec_subject_classes(*b, *f, subject_text@, is_static, access_offset),
{
    let raw = chars_of(subject_text);
    let t = trimmed(&raw);
    if chars_eq(&t, &chars_of("self")) || chars_eq(&t, &chars_of("static")) || chars_eq(
        &t,
        &chars_of("$this"),
    ) {
        return resolve_enclosing_class(b, f, access_offset);
    }
    let empty: Vec<&'a ClassInfo> = Vec::new();
    assert(deref_all(empty@) =~= Seq::<ClassInfo>::empty());
    if chars_eq(&t, &chars_of("parent")) {
        return match enclosing_index(&f.local_classes, access_offset) {
            Some(i) => match &f.local_classes[i].parent_class {
                Some(p) => {
                    let fqn = resolve_to_fqn(p.as_str(), &f.use_map, &f.namespace);
                    load_into(b, &chars_of(fqn.as_str()))
                },
                None => empty,
            },
            None => empty,
        };
    }
    let dollar = t.len() > 0 && t[0] == '$';
    proof {
        if t@.len() > 0 {
            assert(t@.take(1) =~= seq![t@[0]]);
            if starts_with(t@, seq!['$']) {
                assert(t@.take(1)[0] == t@[0]);
                assert(seq!['$'][0] == '$');
            }
        }
    }
    assert(dollar == starts_with(t@, seq!['$']));
    if is_static && !dollar {
        let ts = string_of(&t);
        let fqn = resolve_to_fqn(ts.as_str(), &f.use_map, &f.namespace);
        return load_into(b, &chars_of(fqn.as_str()));
    }
    if dollar {
        return resolve_variable_subjects(f, &t, access_offset);
    }
    empty
}

// ── Executable: diagnostics ─────────────────────────────────────────────────

/// The display names of `classes`, separated by `, `.
fn join_display(classes: &Vec<&ClassInfo>) -> (r: Vec<char>)
    ensures
        r@ == join_names(deref_all(classes@)),
{
    let ghost cs = deref_all(classes@);
    let mut out: Vec<char> = Vec::new();
    let mut k: usize = 0;
    assert(cs.take(0) =~= Seq::<ClassInfo>::empty());
    while k < classes.len()
        invariant
            k <= classes@.len(),
            cs == deref_all(classes@),
            out@ == join_names(cs.take(k as int)),
        decreases classes@.len() - k,
    {
        let name = display_class_name(classes[k]);
        proof {
            assert(cs.take(k + 1).drop_last() =~= cs.take(k as int));
            assert(cs.take(k + 1).last() == *classes@[k as int]);
        }
        if k > 0 {
            append_str(&mut out, ", ");
        } else {
            assert(cs.take(1) =~= seq![cs[0]]);
        }
        append_str(&mut out, name.as_str());
        k = k + 1;
    }
    assert(cs.take(classes@.len() as int) =~= cs);
    out
}

/// The message for a member found on none of `classes`.
fn build_message(label: &str, member: &str, classes: &Vec<&ClassInfo>) -> (r: String)
    requires
        classes@.len() > 0,
    ensures
        r@ == spec_message(label@, member@, deref_all(classes@)),
{
    let mut v = chars_of(label);
    if classes.len() > 1 {
        append_str(&mut v, " '");
        append_str(&mut v, member);
        append_str(&mut v, "' not found on any of the ");
        push_decimal(&mut v, classes.len());
        append_str(&mut v, " possible types (");
        let names = join_display(classes);
        append_chars(&mut v, &names);
        append_str(&mut v, ")");
    } else {
        append_str(&mut v, " '");
        append_str(&mut v, member);
        append_str(&mut v, "' not found on class '");
        let name = display_class_name(classes[0]);
        append_str(&mut v, name.as_str());
        append_str(&mut v, "'");
    }
    string_of(&v)
}

/// The diagnostic for one symbol span, if it gets one.
#[verifier::loop_isolation(false)]
fn span_diagnostic(b: &Backend, f: &FileState, content: &Vec<char>, span: &SymbolSpan) -> (r: Option<
    Diagnostic,
>)
    ensures
        r matches Some(d) ==> spec_span_diagnostic(*b, *f, content@, *span) == Some(d@),
        r is None ==> spec_span_diagnostic(*b, *f, content@, *span) is None,
{
    match &span.kind {
        SymbolKind::Other => None,
        SymbolKind::MemberAccess { subject_text, member_name, is_static, is_method_call } => {
            let is_static = *is_static;
            let is_method_call = *is_method_call;
            // The magic `::class` constant.
            if str_eq(member_name.as_str(), "class") && is_static {
                return None;
            }
            let base = resolve_subject_to_classes(
                b,
                f,
                subject_text.as_str(),
                is_static,
                span.start,
            );
            let ghost resolved_spec = resolve_all(*b, deref_all(base@));
            if base.len() == 0 {
                return None;
            }
            // Fully resolve each class (inheritance and virtual members).
            let mut resolved: Vec<&ClassInfo> = Vec::new();
            let mut k: usize = 0;
            while k < base.len()
                invariant
                    k <= base@.len(),
                    resolved@.len() == k,
                    deref_all(resolved@) == resolved_spec.take(k as int),
                decreases base@.len() - k,
            {
                let c = b.resolve_class_fully(base[k]);
                resolved.push(c);
                assert(deref_all(resolved@) =~= resolved_spec.take(k + 1));
                k = k + 1;
            }
            assert(resolved_spec.take(base@.len() as int) =~= resolved_spec);
            let ghost rs = deref_all(resolved@);
            // A magic method on any branch serves the access.
            let mut m: usize = 0;
            while m < resolved.len()
                invariant
                    m <= resolved@.len(),
                    rs == deref_all(resolved@),
                    forall|j: int| 0 <= j < m ==> !spec_has_magic(#[trigger] rs[j], is_static, is_method_call),
                decreases resolved@.len() - m,
            {
                if has_magic_method_for_access(resolved[m], is_static, is_method_call) {
                    assert(spec_has_magic(rs[m as int], is_static, is_method_call));
                    return None;
                }
                m = m + 1;
            }
            // The member on any branch suffices.
            let mut e: usize = 0;
            while e < resolved.len()
                invariant
                    e <= resolved@.len(),
                    rs == deref_all(resolved@),
                    forall|j: int|
                        0 <= j < e ==> !spec_member_exists(
                            #[trigger] rs[j],
                            member_name@,
                            is_static,
                            is_method_call,
                        ),
                decreases resolved@.len() - e,
            {
                if member_exists(resolved[e], member_name.as_str(), is_static, is_method_call) {
                    assert(spec_member_exists(rs[e as int], member_name@, is_static, is_method_call));
                    return None;
                }
                e = e + 1;
            }
            let range = match offset_range_to_lsp_range(
                content,
                span.start as usize,
                span.end as usize,
            ) {
                Some(r) => r,
                None => return None,
            };
            let label = if is_method_call {
                "Method"
            } else if is_static {
                "Member"
            } else {
                "Property"
            };
            let message = build_message(label, member_name.as_str(), &resolved);
            Some(
                Diagnostic {
                    range,
                    severity: Some(DiagnosticSeverity::Warning),
                    code: Some(NumberOrString::String(UNKNOWN_MEMBER_CODE.to_owned())),
                    source: Some("phpantom".to_owned()),
                    message,
                },
            )
        },
    }
}

impl Backend {
    /// Collects the unknown-member diagnostics of the file `uri`, whose
    /// current text is `content`, appending them to `out` in the order of
    /// the file's symbol spans.  Nothing is appended for a file the server
    /// does not know.
    pub fn collect_unknown_member_diagnostics(
        &self,
        uri: &str,
        content: &str,
        out: &mut Vec<Diagnostic>,
    )
        ensures
            final(out)@.map_values(|d: Diagnostic| d@) == old(out)@.map_values(|d: Diagnostic| d@)
                + spec_unknown_member_diagnostics(*self, uri@, content@),
    {
        let ghost start = old(out)@.map_values(|d: Diagnostic| d@);
        let f = match self.find_file(uri) {
            Some(f) => f,
            None => {
                assert(out@.map_values(|d: Diagnostic| d@) =~= start + Seq::<DiagnosticView>::empty());
                return;
            },
        };
        let chars = chars_of(content);
        let mut i: usize = 0;
        while i < f.spans.len()
            invariant
                i <= f.spans@.len(),
                chars@ == content@,
                out@.map_values(|d: Diagnostic| d@) == start + spec_spans_diagnostics(
                    *self,
                    *f,
                    content@,
                    f.spans@.take(i as int),
                ),
            decreases f.spans@.len() - i,
        {
            proof {
                assert(f.spans@.take(i + 1).drop_last() =~= f.spans@.take(i as int));
                assert(f.spans@.take(i + 1).last() == f.spans@[i as int]);
            }
            match span_diagnostic(self, f, &chars, &f.spans[i]) {
                Some(d) => {
                    let ghost before = out@;
                    out.push(d);
                    assert(out@.map_values(|d: Diagnostic| d@) =~= before.map_values(
                        |d: Diagnostic| d@,
                    ).push(d@));
                    assert(start + spec_spans_diagnostics(*self, *f, content@, f.spans@.take(i + 1))
                        =~= (start + spec_spans_diagnostics(
                        *self,
                        *f,
                        content@,
                        f.spans@.take(i as int),
                    )).push(d@));
                },
                None => {},
            }
            i = i + 1;
        }
        assert(f.spans@.take(f.spans@.len() as int) =~= f.spans@);
    }
}

// ── Laws ────────────────────────────────────────────────────────────────────

/// A member found (or served by a magic method) on one branch of a union
/// stays unreported however many branches the union gains.
pub proof fn lemma_union_branch_suppresses(
    a: Seq<ClassInfo>,
    more: Seq<ClassInfo>,
    member: Seq<char>,
    is_static: bool,
    is_method_call: bool,
)
    requires
        a.len() > 0,
        !reported(a, member, is_static, is_method_call),
    ensures
        !reported(a + more, member, is_static, is_method_call),
{
    let u = a + more;
    if any_magic(a, is_static, is_method_call) {
        let i = choose|i: int| 0 <= i < a.len() && spec_has_magic(#[trigger] a[i], is_static, is_method_call);
        assert(u[i] == a[i]);
    } else {
        let i = choose|i: int|
            0 <= i < a.len() && spec_member_exists(#[trigger] a[i], member, is_static, is_method_call);
        assert(u[i] == a[i]);
    }
}

/// Method lookup ignores ASCII case: two method names that differ only in
/// case exist on a class together or not at all.
pub proof fn lemma_method_lookup_ignores_case(
    class: ClassInfo,
    m1: Seq<char>,
    m2: Seq<char>,
    is_static: bool,
)
    requires
        eq_ignore_case(m1, m2),
    ensures
        spec_member_exists(class, m1, is_static, true) == spec_member_exists(
            class,
            m2,
            is_static,
            true,
        ),
{
    if spec_member_exists(class, m1, is_static, true) {
        let i = choose|i: int|
            0 <= i < class.methods@.len() && eq_ignore_case(#[trigger] class.methods@[i].name@, m1);
        assert(eq_ignore_case(class.methods@[i].name@, m2));
    }
    if spec_member_exists(class, m2, is_static, true) {
        let i = choose|i: int|
            0 <= i < class.methods@.len() && eq_ignore_case(#[trigger] class.methods@[i].name@, m2);
        assert(eq_ignore_case(class.methods@[i].name@, m1));
    }
}

/// The magic `::class` constant is never reported.
pub proof fn lemma_class_constant_not_reported(
    b: Backend,
    f: FileState,
    content: Seq<char>,
    span: SymbolSpan,
)
    requires
        span.kind matches SymbolKind::MemberAccess { member_name, is_static, .. } && member_name@
            == "class"@ && is_static,
    ensures
        spec_span_diagnostic(b, f, content, span) is None,
{
}

/// A magic method on any branch of the subject's type serves the access:
/// it is never reported.
pub proof fn lemma_magic_method_suppresses(
    resolved: Seq<ClassInfo>,
    i: int,
    member: Seq<char>,
    is_static: bool,
    is_method_call: bool,
)
    requires
        0 <= i < resolved.len(),
        spec_has_magic(resolved[i], is_static, is_method_call),
    ensures
        !reported(resolved, member, is_static, is_method_call),
{
}

/// Static access to a constant of any branch (an enum case among them)
/// is never reported.
pub proof fn lemma_enum_case_not_reported(resolved: Seq<ClassInfo>, i: int, k: int, member: Seq<char>)
    requires
        0 <= i < resolved.len(),
        0 <= k < resolved[i].constants@.len(),
        resolved[i].constants@[k].name@ == member,
    ensures
        !reported(resolved, member, true, false),
{
    assert(spec_member_exists(resolved[i], member, true, false));
}

/// An access whose subject resolves to no class is never reported.
pub proof fn lemma_unresolved_subject_not_reported(
    b: Backend,
    f: FileState,
    content: Seq<char>,
    span: SymbolSpan,
)
    requires
        span.kind matches SymbolKind::MemberAccess { subject_text, is_static, .. }
            && spec_subject_classes(b, f, subject_text@, is_static, span.start).len() == 0,
    ensures
        spec_span_diagnostic(b, f, content, span) is None,
{
}

/// Every unknown-member diagnostic is a warning with code
/// `unknown_member` and source `phpantom`.
pub proof fn lemma_diagnostics_are_tagged_warnings(b: Backend, uri: Seq<char>, content: Seq<char>)
    ensures
        forall|k: int|
            0 <= k < spec_unknown_member_diagnostics(b, uri, content).len() ==> {
                let d = #[trigger] spec_unknown_member_diagnostics(b, uri, content)[k];
                &&& d.severity == Some(DiagnosticSeverity::Warning)
                &&& d.code == Some(CodeView::Text(UNKNOWN_MEMBER_CODE@))
                &&& d.source == Some("phpantom"@)
            },
{
    match find_file_from(b.files@, uri, 0) {
        Some(i) => lemma_spans_tagged(b, b.files@[i], content, b.files@[i].spans@),
        None => {},
    }
}

proof fn lemma_spans_tagged(b: Backend, f: FileState, content: Seq<char>, spans: Seq<SymbolSpan>)
    ensures
        forall|k: int|
            0 <= k < spec_spans_diagnostics(b, f, content, spans).len() ==> {
                let d = #[trigger] spec_spans_diagnostics(b, f, content, spans)[k];
                &&& d.severity == Some(DiagnosticSeverity::Warning)
                &&& d.code == Some(CodeView::Text(UNKNOWN_MEMBER_CODE@))
                &&& d.source == Some("phpantom"@)
            },
    decreases spans.len(),
{
    if spans.len() > 0 {
        lemma_spans_tagged(b, f, content, spans.drop_last());
    }
}

} // verus!
