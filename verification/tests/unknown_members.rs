//! Unknown-member diagnostics.  Each test writes out the state that
//! parsing and type inference give for its PHP source: the file's classes
//! with their body spans, the index of fully resolved classes, the member
//! access spans, and the inferred classes of variables at those accesses.

use phpantom::backend::{Backend, FileState, VariableResolution};
use phpantom::diagnostics::unknown_members::UNKNOWN_MEMBER_CODE;
use phpantom::lsp::{Diagnostic, DiagnosticSeverity, NumberOrString};
use phpantom::symbol_map::{SymbolKind, SymbolSpan};
use phpantom::types::{
    ClassInfo, ClassLikeKind, ConstantInfo, MethodInfo, PropertyInfo, Visibility,
};
use phpantom::virtual_members::phpdoc::PHPDocProvider;
use phpantom::virtual_members::VirtualMemberProvider;

fn class(name: &str) -> ClassInfo {
    ClassInfo {
        kind: ClassLikeKind::Class,
        name: name.to_string(),
        methods: Vec::new(),
        properties: Vec::new(),
        constants: Vec::new(),
        start_offset: 0,
        end_offset: 0,
        parent_class: None,
        interfaces: Vec::new(),
        used_traits: Vec::new(),
        mixins: Vec::new(),
        is_final: false,
        is_abstract: false,
        is_deprecated: false,
        class_docblock: None,
        file_namespace: None,
    }
}

fn method(name: &str, is_static: bool) -> MethodInfo {
    MethodInfo {
        name: name.to_string(),
        parameters: Vec::new(),
        return_type: None,
        is_static,
        visibility: Visibility::Public,
        is_deprecated: false,
    }
}

fn prop(name: &str, is_static: bool) -> PropertyInfo {
    PropertyInfo {
        name: name.to_string(),
        type_hint: None,
        is_static,
        visibility: Visibility::Public,
        is_deprecated: false,
    }
}

fn constant(name: &str) -> ConstantInfo {
    ConstantInfo { name: name.to_string(), type_hint: None, is_deprecated: false }
}

fn with_methods(mut c: ClassInfo, names: &[&str]) -> ClassInfo {
    for n in names {
        c.methods.push(method(n, false));
    }
    c
}

/// Character offset of the first occurrence of `needle` in `content`.
fn offset_of(content: &str, needle: &str) -> u32 {
    let byte = content.find(needle).expect("needle in content");
    content[..byte].chars().count() as u32
}

/// The body span of the declaration that starts with `header`: from the
/// header to the `}` matching the first `{` after it.
fn body_span(content: &str, header: &str) -> (u32, u32) {
    let start = offset_of(content, header) as usize;
    let chars: Vec<char> = content.chars().collect();
    let mut i = start;
    while chars[i] != '{' {
        i += 1;
    }
    let mut depth = 0;
    loop {
        if chars[i] == '{' {
            depth += 1;
        } else if chars[i] == '}' {
            depth -= 1;
            if depth == 0 {
                return (start as u32, i as u32);
            }
        }
        i += 1;
    }
}

struct Fixture {
    content: &'static str,
    index: Vec<ClassInfo>,
    locals: Vec<ClassInfo>,
    spans: Vec<SymbolSpan>,
    vars: Vec<VariableResolution>,
}

impl Fixture {
    fn new(content: &'static str) -> Fixture {
        Fixture {
            content,
            index: Vec::new(),
            locals: Vec::new(),
            spans: Vec::new(),
            vars: Vec::new(),
        }
    }

    /// A class declared in the file at `header`, as declared (`local`) and
    /// as fully resolved (`resolved`, the index entry).
    fn class(mut self, local: ClassInfo, resolved: ClassInfo, header: &str) -> Fixture {
        let (s, e) = body_span(self.content, header);
        let mut l = local;
        l.start_offset = s;
        l.end_offset = e;
        let mut r = resolved;
        r.start_offset = s;
        r.end_offset = e;
        self.locals.push(l);
        self.index.push(r);
        self
    }

    /// A class declared in the file that resolves to itself.
    fn plain(self, c: ClassInfo, header: &str) -> Fixture {
        let r = c.clone();
        self.class(c, r, header)
    }

    /// A member access written as `text`.
    fn access(mut self, text: &str, subject: &str, member: &str, is_static: bool, call: bool) -> Fixture {
        let start = offset_of(self.content, text);
        self.spans.push(SymbolSpan {
            start,
            end: start + text.chars().count() as u32,
            kind: SymbolKind::MemberAccess {
                subject_text: subject.to_string(),
                member_name: member.to_string(),
                is_static,
                is_method_call: call,
            },
        });
        self
    }

    /// The inferred classes of `var` at the access written as `text`.
    fn var(mut self, text: &str, var: &str, classes: Vec<ClassInfo>) -> Fixture {
        let offset = offset_of(self.content, text);
        self.vars.push(VariableResolution { var_name: var.to_string(), offset, classes });
        self
    }

    fn run(self) -> Vec<Diagnostic> {
        let uri = "file:///test.php";
        let backend = Backend {
            files: vec![FileState {
                uri: uri.to_string(),
                spans: self.spans,
                use_map: Vec::new(),
                namespace: None,
                local_classes: self.locals,
                variable_types: self.vars,
            }],
            classes: self.index,
        };
        let mut out = Vec::new();
        backend.collect_unknown_member_diagnostics(uri, self.content, &mut out);
        out
    }
}

fn flags(diags: &[Diagnostic], member: &str) -> bool {
    diags.iter().any(|d| d.message.contains(member) && d.message.contains("not found"))
}

// ── Basic detection ─────────────────────────────────────────────────────

#[test]
fn flags_unknown_method_on_known_class() {
    let content = r#"<?php
class Foo {
    public function bar(): void {}
}

class Consumer {
    public function run(): void {
        $f = new Foo();
        $f->nonexistent();
    }
}
"#;
    let foo = with_methods(class("Foo"), &["bar"]);
    let diags = Fixture::new(content)
        .plain(foo.clone(), "class Foo")
        .plain(with_methods(class("Consumer"), &["run"]), "class Consumer")
        .access("$f->nonexistent()", "$f", "nonexistent", false, true)
        .var("$f->nonexistent()", "$f", vec![foo])
        .run();
    assert!(flags(&diags, "nonexistent"), "Expected unknown method diagnostic for nonexistent(), got: {:?}", diags);
}

#[test]
fn flags_unknown_property_on_known_class() {
    let content = r#"<?php
class Foo {
    public string $name = '';
}

class Consumer {
    public function run(): void {
        $f = new Foo();
        $f->missing;
    }
}
"#;
    let mut foo = class("Foo");
    foo.properties.push(prop("name", false));
    let diags = Fixture::new(content)
        .plain(foo.clone(), "class Foo")
        .plain(with_methods(class("Consumer"), &["run"]), "class Consumer")
        .access("$f->missing", "$f", "missing", false, false)
        .var("$f->missing", "$f", vec![foo])
        .run();
    assert!(flags(&diags, "missing"), "Expected unknown property diagnostic for ->missing, got: {:?}", diags);
}

#[test]
fn flags_unknown_static_method() {
    let content = r#"<?php
class Foo {
    public static function bar(): void {}
}

Foo::nonexistent();
"#;
    let mut foo = class("Foo");
    foo.methods.push(method("bar", true));
    let diags = Fixture::new(content)
        .plain(foo, "class Foo")
        .access("Foo::nonexistent()", "Foo", "nonexistent", true, true)
        .run();
    assert!(flags(&diags, "nonexistent"), "Expected unknown static method diagnostic, got: {:?}", diags);
}

#[test]
fn flags_unknown_constant_on_class() {
    let content = r#"<?php
class Foo {
    const BAR = 1;
}

$x = Foo::MISSING;
"#;
    let mut foo = class("Foo");
    foo.constants.push(constant("BAR"));
    let diags = Fixture::new(content)
        .plain(foo, "class Foo")
        .access("Foo::MISSING", "Foo", "MISSING", true, false)
        .run();
    assert!(flags(&diags, "MISSING"), "Expected unknown constant diagnostic, got: {:?}", diags);
}

// ── No false positives for existing members ─────────────────────────────

#[test]
fn no_diagnostic_for_existing_method() {
    let content = r#"<?php
class Foo {
    public function bar(): void {}
}

class Consumer {
    public function run(): void {
        $f = new Foo();
        $f->bar();
    }
}
"#;
    let foo = with_methods(class("Foo"), &["bar"]);
    let diags = Fixture::new(content)
        .plain(foo.clone(), "class Foo")
        .plain(with_methods(class("Consumer"), &["run"]), "class Consumer")
        .access("$f->bar()", "$f", "bar", false, true)
        .var("$f->bar()", "$f", vec![foo])
        .run();
    assert!(diags.is_empty(), "No diagnostics expected for existing method, got: {:?}", diags);
}

#[test]
fn no_diagnostic_for_existing_property() {
    let content = r#"<?php
class Foo {
    public string $name = '';
}

class Consumer {
    public function run(): void {
        $f = new Foo();
        $f->name;
    }
}
"#;
    let mut foo = class("Foo");
    foo.properties.push(prop("name", false));
    let diags = Fixture::new(content)
        .plain(foo.clone(), "class Foo")
        .plain(with_methods(class("Consumer"), &["run"]), "class Consumer")
        .access("$f->name", "$f", "name", false, false)
        .var("$f->name", "$f", vec![foo])
        .run();
    assert!(diags.is_empty(), "No diagnostics expected for existing property, got: {:?}", diags);
}

#[test]
fn no_diagnostic_for_existing_constant() {
    let content = r#"<?php
class Foo {
    const BAR = 1;
}

$x = Foo::BAR;
"#;
    let mut foo = class("Foo");
    foo.constants.push(constant("BAR"));
    let diags = Fixture::new(content)
        .plain(foo, "class Foo")
        .access("Foo::BAR", "Foo", "BAR", true, false)
        .run();
    assert!(diags.is_empty(), "No diagnostics expected for existing constant, got: {:?}", diags);
}

#[test]
fn no_diagnostic_for_class_keyword() {
    let content = r#"<?php
class Foo {}

$name = Foo::class;
"#;
    let diags = Fixture::new(content)
        .plain(class("Foo"), "class Foo")
        .access("Foo::class", "Foo", "class", true, false)
        .run();
    assert!(diags.is_empty(), "No diagnostics expected for ::class, got: {:?}", diags);
}

// ── Magic method suppression ────────────────────────────────────────────

#[test]
fn no_diagnostic_when_class_has_magic_call() {
    let content = r#"<?php
class Magic {
    public function __call(string $name, array $args): mixed {}
}

class Consumer {
    public function run(): void {
        $m = new Magic();
        $m->anything();
    }
}
"#;
    let magic = with_methods(class("Magic"), &["__call"]);
    let diags = Fixture::new(content)
        .plain(magic.clone(), "class Magic")
        .plain(with_methods(class("Consumer"), &["run"]), "class Consumer")
        .access("$m->anything()", "$m", "anything", false, true)
        .var("$m->anything()", "$m", vec![magic])
        .run();
    assert!(diags.is_empty(), "No diagnostics expected when __call exists, got: {:?}", diags);
}

#[test]
fn no_diagnostic_when_class_has_magic_get() {
    let content = r#"<?php
class DynProps {
    public function __get(string $name): mixed {}
}

class Consumer {
    public function run(): void {
        $d = new DynProps();
        $d->anything;
    }
}
"#;
    let dynp = with_methods(class("DynProps"), &["__get"]);
    let diags = Fixture::new(content)
        .plain(dynp.clone(), "class DynProps")
        .plain(with_methods(class("Consumer"), &["run"]), "class Consumer")
        .access("$d->anything", "$d", "anything", false, false)
        .var("$d->anything", "$d", vec![dynp])
        .run();
    assert!(diags.is_empty(), "No diagnostics expected when __get exists, got: {:?}", diags);
}

#[test]
fn no_diagnostic_when_class_has_magic_call_static() {
    let content = r#"<?php
class StaticMagic {
    public static function __callStatic(string $name, array $args): mixed {}
}

StaticMagic::anything();
"#;
    let mut sm = class("StaticMagic");
    sm.methods.push(method("__callStatic", true));
    let diags = Fixture::new(content)
        .plain(sm, "class StaticMagic")
        .access("StaticMagic::anything()", "StaticMagic", "anything", true, true)
        .run();
    assert!(diags.is_empty(), "No diagnostics expected when __callStatic exists, got: {:?}", diags);
}

// ── Inheritance ─────────────────────────────────────────────────────────

#[test]
fn no_diagnostic_for_inherited_method() {
    let content = r#"<?php
class Base {
    public function baseMethod(): void {}
}

class Child extends Base {}

class Consumer {
    public function run(): void {
        $c = new Child();
        $c->baseMethod();
    }
}
"#;
    let mut child = class("Child");
    child.parent_class = Some("Base".to_string());
    let child_resolved = with_methods(child.clone(), &["baseMethod"]);
    let diags = Fixture::new(content)
        .plain(with_methods(class("Base"), &["baseMethod"]), "class Base")
        .class(child.clone(), child_resolved, "class Child")
        .plain(with_methods(class("Consumer"), &["run"]), "class Consumer")
        .access("$c->baseMethod()", "$c", "baseMethod", false, true)
        .var("$c->baseMethod()", "$c", vec![child])
        .run();
    assert!(diags.is_empty(), "No diagnostics expected for inherited method, got: {:?}", diags);
}

#[test]
fn no_diagnostic_for_trait_method() {
    let content = r#"<?php
trait Greetable {
    public function greet(): string { return 'hello'; }
}

class Greeter {
    use Greetable;
}

class Consumer {
    public function run(): void {
        $g = new Greeter();
        $g->greet();
    }
}
"#;
    let mut tr = with_methods(class("Greetable"), &["greet"]);
    tr.kind = ClassLikeKind::Trait;
    let mut greeter = class("Greeter");
    greeter.used_traits.push("Greetable".to_string());
    let greeter_resolved = with_methods(greeter.clone(), &["greet"]);
    let diags = Fixture::new(content)
        .plain(tr, "trait Greetable")
        .class(greeter.clone(), greeter_resolved, "class Greeter")
        .plain(with_methods(class("Consumer"), &["run"]), "class Consumer")
        .access("$g->greet()", "$g", "greet", false, true)
        .var("$g->greet()", "$g", vec![greeter])
        .run();
    assert!(diags.is_empty(), "No diagnostics expected for trait method, got: {:?}", diags);
}

// ── Virtual members (@method / @property) ───────────────────────────────

/// `c` with the virtual members its docblock provides merged in.
fn with_phpdoc_members(c: &ClassInfo) -> ClassInfo {
    let provided = PHPDocProvider.provide(c, &|_: &str| None);
    let mut r = c.clone();
    r.methods.extend(provided.methods);
    r.properties.extend(provided.properties);
    r
}

#[test]
fn no_diagnostic_for_phpdoc_method() {
    let content = r#"<?php
/**
 * @method string getName()
 */
class VirtualClass {}

class Consumer {
    public function run(): void {
        $v = new VirtualClass();
        $v->getName();
    }
}
"#;
    let mut vc = class("VirtualClass");
    vc.class_docblock = Some("/**\n * @method string getName()\n */".to_string());
    let resolved = with_phpdoc_members(&vc);
    let diags = Fixture::new(content)
        .class(vc.clone(), resolved, "class VirtualClass")
        .plain(with_methods(class("Consumer"), &["run"]), "class Consumer")
        .access("$v->getName()", "$v", "getName", false, true)
        .var("$v->getName()", "$v", vec![vc])
        .run();
    assert!(diags.is_empty(), "No diagnostics expected for @method virtual member, got: {:?}", diags);
}

#[test]
fn no_diagnostic_for_phpdoc_property() {
    let content = r#"<?php
/**
 * @property string $name
 */
class VirtualClass {
    public function __get(string $name): mixed {}
}

class Consumer {
    public function run(): void {
        $v = new VirtualClass();
        $v->name;
    }
}
"#;
    let mut vc = with_methods(class("VirtualClass"), &["__get"]);
    vc.class_docblock = Some("/**\n * @property string $name\n */".to_string());
    let resolved = with_phpdoc_members(&vc);
    let diags = Fixture::new(content)
        .class(vc.clone(), resolved, "class VirtualClass")
        .plain(with_methods(class("Consumer"), &["run"]), "class Consumer")
        .access("$v->name", "$v", "name", false, false)
        .var("$v->name", "$v", vec![vc])
        .run();
    assert!(diags.is_empty(), "No diagnostics expected for @property virtual member, got: {:?}", diags);
}

// ── Subject resolution contexts ─────────────────────────────────────────

#[test]
fn flags_unknown_method_on_this() {
    let content = r#"<?php
class Foo {
    public function bar(): void {
        $this->nonexistent();
    }
}
"#;
    let diags = Fixture::new(content)
        .plain(with_methods(class("Foo"), &["bar"]), "class Foo")
        .access("$this->nonexistent()", "$this", "nonexistent", false, true)
        .run();
    assert!(flags(&diags, "nonexistent"), "Expected unknown method diagnostic for $this->nonexistent(), got: {:?}", diags);
}

#[test]
fn no_diagnostic_for_this_in_second_class() {
    let content = r#"<?php
class First {
    public function alpha(): void {}
}

class Second {
    public function beta(): void {}

    public function demo(): void {
        $this->beta();
    }
}
"#;
    let diags = Fixture::new(content)
        .plain(with_methods(class("First"), &["alpha"]), "class First")
        .plain(with_methods(class("Second"), &["beta", "demo"]), "class Second")
        .access("$this->beta()", "$this", "beta", false, true)
        .run();
    assert!(diags.is_empty(), "No diagnostics expected for $this->beta() inside Second, got: {:?}", diags);
}

/// A synthetic object-shape class with the given properties.
fn shape(props: &[&str]) -> ClassInfo {
    let mut c = class("__object_shape");
    for p in props {
        c.properties.push(prop(p, false));
    }
    c
}

#[test]
fn no_diagnostic_for_object_shape_property() {
    let content = r#"<?php
class Pen {
    public function write(): void {}
}

class Demo {
    /** @return object{name: string, age: int, active: bool} */
    public function getProfile(): object { return (object) []; }

    /** @return object{tool: Pen, meta: object{page: int, total: int}} */
    public function getResult(): object { return (object) []; }

    public function demo(): void {
        $profile = $this->getProfile();
        $profile->name;
        $profile->age;
        $profile->active;

        $result = $this->getResult();
        $result->tool;
        $result->meta;
    }
}
"#;
    let profile = shape(&["name", "age", "active"]);
    let result = shape(&["tool", "meta"]);
    let diags = Fixture::new(content)
        .plain(with_methods(class("Pen"), &["write"]), "class Pen")
        .plain(with_methods(class("Demo"), &["getProfile", "getResult", "demo"]), "class Demo")
        .access("$this->getProfile()", "$this", "getProfile", false, true)
        .access("$profile->name", "$profile", "name", false, false)
        .var("$profile->name", "$profile", vec![profile.clone()])
        .access("$profile->age", "$profile", "age", false, false)
        .var("$profile->age", "$profile", vec![profile.clone()])
        .access("$profile->active", "$profile", "active", false, false)
        .var("$profile->active", "$profile", vec![profile])
        .access("$this->getResult()", "$this", "getResult", false, true)
        .access("$result->tool", "$result", "tool", false, false)
        .var("$result->tool", "$result", vec![result.clone()])
        .access("$result->meta", "$result", "meta", false, false)
        .var("$result->meta", "$result", vec![result])
        .run();
    assert!(diags.is_empty(), "No diagnostics expected for object shape property access, got: {:?}", diags);
}

#[test]
fn flags_unknown_property_on_object_shape() {
    let content = r#"<?php
class Demo {
    /** @return object{name: string, age: int} */
    public function getProfile(): object { return (object) []; }

    public function demo(): void {
        $profile = $this->getProfile();
        $profile->missing;
    }
}
"#;
    let diags = Fixture::new(content)
        .plain(with_methods(class("Demo"), &["getProfile", "demo"]), "class Demo")
        .access("$this->getProfile()", "$this", "getProfile", false, true)
        .access("$profile->missing", "$profile", "missing", false, false)
        .var("$profile->missing", "$profile", vec![shape(&["name", "age"])])
        .run();
    assert!(flags(&diags, "missing"), "Expected unknown property diagnostic on object shape, got: {:?}", diags);
}

/// The anonymous class declared at `header`, extending `Pen` (which has
/// `write`), with the given own methods and properties.
fn anonymous_pen(content: &str, header: &str, methods: &[&str], props: &[&str]) -> (ClassInfo, ClassInfo) {
    let offset = offset_of(content, header);
    let mut anon = with_methods(class(&format!("__anonymous@{}", offset)), methods);
    anon.parent_class = Some("Pen".to_string());
    for p in props {
        anon.properties.push(prop(p, false));
    }
    let mut resolved = anon.clone();
    resolved.methods.push(method("write", false));
    (anon, resolved)
}

#[test]
fn no_diagnostic_for_this_in_anonymous_class() {
    let content = r#"<?php
class Pen {
    public function write(): void {}
}

class Factory {
    public function create(): Pen {
        return new class extends Pen {
            public string $brand;
            public function cap(): string { return ''; }
            public function demo() {
                $this->cap();
                $this->brand;
                $this->write();
            }
        };
    }
}
"#;
    let (anon, resolved) = anonymous_pen(content, "new class extends Pen", &["cap", "demo"], &["brand"]);
    let diags = Fixture::new(content)
        .plain(with_methods(class("Pen"), &["write"]), "class Pen")
        .plain(with_methods(class("Factory"), &["create"]), "class Factory")
        .class(anon, resolved, "new class extends Pen")
        .access("$this->cap()", "$this", "cap", false, true)
        .access("$this->brand", "$this", "brand", false, false)
        .access("$this->write()", "$this", "write", false, true)
        .run();
    assert!(diags.is_empty(), "No diagnostics expected inside anonymous class body, got: {:?}", diags);
}

#[test]
fn flags_unknown_method_on_this_in_anonymous_class() {
    let content = r#"<?php
class Pen {
    public function write(): void {}
}

class Factory {
    public function create(): Pen {
        return new class extends Pen {
            public function demo() {
                $this->nonexistent();
            }
        };
    }
}
"#;
    let (anon, resolved) = anonymous_pen(content, "new class extends Pen", &["demo"], &[]);
    let diags = Fixture::new(content)
        .plain(with_methods(class("Pen"), &["write"]), "class Pen")
        .plain(with_methods(class("Factory"), &["create"]), "class Factory")
        .class(anon, resolved, "new class extends Pen")
        .access("$this->nonexistent()", "$this", "nonexistent", false, true)
        .run();
    assert!(flags(&diags, "nonexistent"), "Expected unknown method diagnostic inside anonymous class, got: {:?}", diags);
}

#[test]
fn no_diagnostic_for_parent_in_anonymous_class() {
    let content = r#"<?php
class Pen {
    public function write(): void {}
}

class Factory {
    public function create(): Pen {
        return new class extends Pen {
            public function demo() {
                parent::write();
            }
        };
    }
}
"#;
    let (anon, resolved) = anonymous_pen(content, "new class extends Pen", &["demo"], &[]);
    let diags = Fixture::new(content)
        .plain(with_methods(class("Pen"), &["write"]), "class Pen")
        .plain(with_methods(class("Factory"), &["create"]), "class Factory")
        .class(anon, resolved, "new class extends Pen")
        .access("parent::write()", "parent", "write", true, true)
        .run();
    assert!(diags.is_empty(), "No diagnostics expected for parent::write() in anonymous class, got: {:?}", diags);
}

#[test]
fn flags_unknown_method_on_this_in_second_class() {
    let content = r#"<?php
class First {
    public function alpha(): void {}
}

class Second {
    public function beta(): void {}

    public function demo(): void {
        $this->alpha();
    }
}
"#;
    let diags = Fixture::new(content)
        .plain(with_methods(class("First"), &["alpha"]), "class First")
        .plain(with_methods(class("Second"), &["beta", "demo"]), "class Second")
        .access("$this->alpha()", "$this", "alpha", false, true)
        .run();
    assert!(flags(&diags, "alpha"), "Expected unknown method diagnostic for $this->alpha() inside Second, got: {:?}", diags);
}

#[test]
fn no_diagnostic_for_this_existing_method() {
    let content = r#"<?php
class Foo {
    public function bar(): void {}

    public function baz(): void {
        $this->bar();
    }
}
"#;
    let diags = Fixture::new(content)
        .plain(with_methods(class("Foo"), &["bar", "baz"]), "class Foo")
        .access("$this->bar()", "$this", "bar", false, true)
        .run();
    assert!(diags.is_empty(), "No diagnostics expected for $this->bar(), got: {:?}", diags);
}

#[test]
fn flags_unknown_method_on_self() {
    let content = r#"<?php
class Foo {
    public function bar(): void {
        self::nonexistent();
    }
}
"#;
    let diags = Fixture::new(content)
        .plain(with_methods(class("Foo"), &["bar"]), "class Foo")
        .access("self::nonexistent()", "self", "nonexistent", true, true)
        .run();
    assert!(flags(&diags, "nonexistent"), "Expected unknown method diagnostic for self::nonexistent(), got: {:?}", diags);
}

#[test]
fn no_diagnostic_for_self_existing_method() {
    let content = r#"<?php
class Foo {
    public static function bar(): void {}

    public function baz(): void {
        self::bar();
    }
}
"#;
    let mut foo = class("Foo");
    foo.methods.push(method("bar", true));
    foo.methods.push(method("baz", false));
    let diags = Fixture::new(content)
        .plain(foo, "class Foo")
        .access("self::bar()", "self", "bar", true, true)
        .run();
    assert!(diags.is_empty(), "No diagnostics expected for self::bar(), got: {:?}", diags);
}

#[test]
fn no_diagnostic_for_parent_existing_method() {
    let content = r#"<?php
class Base {
    public function parentMethod(): void {}
}

class Child extends Base {
    public function childMethod(): void {
        parent::parentMethod();
    }
}
"#;
    let mut child = with_methods(class("Child"), &["childMethod"]);
    child.parent_class = Some("Base".to_string());
    let child_resolved = with_methods(child.clone(), &["parentMethod"]);
    let diags = Fixture::new(content)
        .plain(with_methods(class("Base"), &["parentMethod"]), "class Base")
        .class(child, child_resolved, "class Child")
        .access("parent::parentMethod()", "parent", "parentMethod", true, true)
        .run();
    assert!(diags.is_empty(), "No diagnostics expected for parent::parentMethod(), got: {:?}", diags);
}

// ── Diagnostic metadata ─────────────────────────────────────────────────

const FOO_MISSING: &str = r#"<?php
class Foo {}

class Consumer {
    public function run(): void {
        $f = new Foo();
        $f->missing();
    }
}
"#;

fn foo_missing() -> Vec<Diagnostic> {
    Fixture::new(FOO_MISSING)
        .plain(class("Foo"), "class Foo")
        .plain(with_methods(class("Consumer"), &["run"]), "class Consumer")
        .access("$f->missing()", "$f", "missing", false, true)
        .var("$f->missing()", "$f", vec![class("Foo")])
        .run()
}

#[test]
fn diagnostic_has_warning_severity() {
    let diags = foo_missing();
    assert!(!diags.is_empty(), "Expected at least one diagnostic");
    assert_eq!(diags[0].severity, Some(DiagnosticSeverity::Warning));
}

#[test]
fn diagnostic_has_code_and_source() {
    let diags = foo_missing();
    assert!(!diags.is_empty(), "Expected at least one diagnostic");
    assert!(matches!(&diags[0].code, Some(NumberOrString::String(s)) if s == UNKNOWN_MEMBER_CODE));
    assert_eq!(diags[0].source, Some("phpantom".to_string()));
}

// ── Case-insensitive method matching ────────────────────────────────────

#[test]
fn method_matching_is_case_insensitive() {
    let content = r#"<?php
class Foo {
    public function getData(): void {}
}

class Consumer {
    public function run(): void {
        $f = new Foo();
        $f->getdata();
    }
}
"#;
    let foo = with_methods(class("Foo"), &["getData"]);
    let diags = Fixture::new(content)
        .plain(foo.clone(), "class Foo")
        .plain(with_methods(class("Consumer"), &["run"]), "class Consumer")
        .access("$f->getdata()", "$f", "getdata", false, true)
        .var("$f->getdata()", "$f", vec![foo])
        .run();
    assert!(diags.is_empty(), "PHP methods are case-insensitive, no diagnostic expected, got: {:?}", diags);
}

// ── Multiple unknown members ────────────────────────────────────────────

#[test]
fn flags_multiple_unknown_members() {
    let content = r#"<?php
class Foo {
    public function known(): void {}
}

class Consumer {
    public function run(): void {
        $f = new Foo();
        $f->unknown1();
        $f->known();
        $f->unknown2();
    }
}
"#;
    let foo = with_methods(class("Foo"), &["known"]);
    let diags = Fixture::new(content)
        .plain(foo.clone(), "class Foo")
        .plain(with_methods(class("Consumer"), &["run"]), "class Consumer")
        .access("$f->unknown1()", "$f", "unknown1", false, true)
        .var("$f->unknown1()", "$f", vec![foo.clone()])
        .access("$f->known()", "$f", "known", false, true)
        .var("$f->known()", "$f", vec![foo.clone()])
        .access("$f->unknown2()", "$f", "unknown2", false, true)
        .var("$f->unknown2()", "$f", vec![foo])
        .run();
    assert_eq!(diags.len(), 2, "Expected exactly 2 diagnostics for 2 unknown members, got: {:?}", diags);
    assert!(diags.iter().any(|d| d.message.contains("unknown1")));
    assert!(diags.iter().any(|d| d.message.contains("unknown2")));
}

// ── Unresolvable subject produces no diagnostic ─────────────────────────

#[test]
fn no_diagnostic_when_subject_unresolvable() {
    let content = r#"<?php
function getUnknown(): mixed { return null; }

$x = getUnknown();
$x->whatever();
"#;
    let diags = Fixture::new(content)
        .access("$x->whatever()", "$x", "whatever", false, true)
        .run();
    assert!(diags.is_empty(), "No diagnostics expected when subject type is unresolvable, got: {:?}", diags);
}

// ── Enum cases ──────────────────────────────────────────────────────────

fn color() -> ClassInfo {
    let mut c = class("Color");
    c.kind = ClassLikeKind::Enum;
    for case in ["Red", "Green", "Blue"] {
        c.constants.push(constant(case));
    }
    c
}

#[test]
fn no_diagnostic_for_enum_case() {
    let content = r#"<?php
enum Color {
    case Red;
    case Green;
    case Blue;
}

$c = Color::Red;
"#;
    let diags = Fixture::new(content)
        .plain(color(), "enum Color")
        .access("Color::Red", "Color", "Red", true, false)
        .run();
    assert!(diags.is_empty(), "No diagnostics expected for enum case access, got: {:?}", diags);
}

#[test]
fn flags_unknown_enum_case() {
    let content = r#"<?php
enum Color {
    case Red;
    case Green;
    case Blue;
}

$c = Color::Purple;
"#;
    let diags = Fixture::new(content)
        .plain(color(), "enum Color")
        .access("Color::Purple", "Color", "Purple", true, false)
        .run();
    assert!(flags(&diags, "Purple"), "Expected unknown member diagnostic for Color::Purple, got: {:?}", diags);
}

// ── Parameter type hint resolution ──────────────────────────────────────

#[test]
fn flags_unknown_method_via_parameter() {
    let content = r#"<?php
class Service {
    public function doWork(): void {}
}

class Handler {
    public function handle(Service $svc): void {
        $svc->nonexistent();
    }
}
"#;
    let svc = with_methods(class("Service"), &["doWork"]);
    let diags = Fixture::new(content)
        .plain(svc.clone(), "class Service")
        .plain(with_methods(class("Handler"), &["handle"]), "class Handler")
        .access("$svc->nonexistent()", "$svc", "nonexistent", false, true)
        .var("$svc->nonexistent()", "$svc", vec![svc])
        .run();
    assert!(flags(&diags, "nonexistent"), "Expected unknown method diagnostic via parameter type, got: {:?}", diags);
}

#[test]
fn no_diagnostic_for_method_via_parameter() {
    let content = r#"<?php
class Service {
    public function doWork(): void {}
}

class Handler {
    public function handle(Service $svc): void {
        $svc->doWork();
    }
}
"#;
    let svc = with_methods(class("Service"), &["doWork"]);
    let diags = Fixture::new(content)
        .plain(svc.clone(), "class Service")
        .plain(with_methods(class("Handler"), &["handle"]), "class Handler")
        .access("$svc->doWork()", "$svc", "doWork", false, true)
        .var("$svc->doWork()", "$svc", vec![svc])
        .run();
    assert!(diags.is_empty(), "No diagnostics expected for existing method via parameter, got: {:?}", diags);
}

// ── Inherited magic methods ─────────────────────────────────────────────

#[test]
fn no_diagnostic_when_parent_has_magic_call() {
    let content = r#"<?php
class Base {
    public function __call(string $name, array $args): mixed {}
}

class Child extends Base {}

class Consumer {
    public function run(): void {
        $c = new Child();
        $c->anything();
    }
}
"#;
    let mut child = class("Child");
    child.parent_class = Some("Base".to_string());
    let child_resolved = with_methods(child.clone(), &["__call"]);
    let diags = Fixture::new(content)
        .plain(with_methods(class("Base"), &["__call"]), "class Base")
        .class(child.clone(), child_resolved, "class Child")
        .plain(with_methods(class("Consumer"), &["run"]), "class Consumer")
        .access("$c->anything()", "$c", "anything", false, true)
        .var("$c->anything()", "$c", vec![child])
        .run();
    assert!(diags.is_empty(), "No diagnostics expected when parent has __call, got: {:?}", diags);
}

// ── Interface method access ─────────────────────────────────────────────

#[test]
fn no_diagnostic_for_interface_method() {
    let content = r#"<?php
interface Renderable {
    public function render(): string;
}

class View implements Renderable {
    public function render(): string { return ''; }
}

class Consumer {
    public function run(Renderable $r): void {
        $r->render();
    }
}
"#;
    let mut renderable = with_methods(class("Renderable"), &["render"]);
    renderable.kind = ClassLikeKind::Interface;
    let mut view = with_methods(class("View"), &["render"]);
    view.interfaces.push("Renderable".to_string());
    let diags = Fixture::new(content)
        .plain(renderable.clone(), "interface Renderable")
        .plain(view, "class View")
        .plain(with_methods(class("Consumer"), &["run"]), "class Consumer")
        .access("$r->render()", "$r", "render", false, true)
        .var("$r->render()", "$r", vec![renderable])
        .run();
    assert!(diags.is_empty(), "No diagnostics expected for interface method, got: {:?}", diags);
}

// ── Static property access ──────────────────────────────────────────────

#[test]
fn no_diagnostic_for_existing_static_property() {
    let content = r#"<?php
class Config {
    public static string $appName = 'test';
}

$name = Config::$appName;
"#;
    let mut config = class("Config");
    config.properties.push(prop("appName", true));
    let diags = Fixture::new(content)
        .plain(config, "class Config")
        .access("Config::$appName", "Config", "appName", true, false)
        .run();
    assert!(diags.is_empty(), "No diagnostics expected for existing static property, got: {:?}", diags);
}

// ── Union type suppression ──────────────────────────────────────────────

const LAMP_FAUCET: &str = r#"<?php
class Lamp {
    public function dim(): void {}
    public function turnOff(): void {}
}

class Faucet {
    public function drip(): void {}
    public function turnOff(): void {}
}

class Consumer {
    public function run(): void {
        if (rand(0, 1)) {
            $ambiguous = new Lamp();
        } else {
            $ambiguous = new Faucet();
        }
        $ambiguous->turnOff();
        $ambiguous->dim();
        $ambiguous->drip();
    }
}
"#;

#[test]
fn no_diagnostic_for_member_on_any_union_branch() {
    let content = LAMP_FAUCET;
    let lamp = with_methods(class("Lamp"), &["dim", "turnOff"]);
    let faucet = with_methods(class("Faucet"), &["drip", "turnOff"]);
    let both = vec![lamp.clone(), faucet.clone()];
    let diags = Fixture::new(content)
        .plain(lamp.clone(), "class Lamp")
        .plain(faucet.clone(), "class Faucet")
        .plain(with_methods(class("Consumer"), &["run"]), "class Consumer")
        .access("$ambiguous->turnOff()", "$ambiguous", "turnOff", false, true)
        .var("$ambiguous->turnOff()", "$ambiguous", both.clone())
        .access("$ambiguous->dim()", "$ambiguous", "dim", false, true)
        .var("$ambiguous->dim()", "$ambiguous", both.clone())
        .access("$ambiguous->drip()", "$ambiguous", "drip", false, true)
        .var("$ambiguous->drip()", "$ambiguous", both)
        .run();
    // dim() is on Lamp, drip() is on Faucet, turnOff() is on both.
    assert!(diags.is_empty(), "No diagnostics expected for union branch members, got: {:?}", diags);
}

#[test]
fn flags_member_missing_from_all_union_branches() {
    let content = r#"<?php
class Lamp {
    public function dim(): void {}
    public function turnOff(): void {}
}

class Faucet {
    public function drip(): void {}
    public function turnOff(): void {}
}

class Consumer {
    public function run(): void {
        if (rand(0, 1)) {
            $ambiguous = new Lamp();
        } else {
            $ambiguous = new Faucet();
        }
        $ambiguous->nonexistent();
    }
}
"#;
    let lamp = with_methods(class("Lamp"), &["dim", "turnOff"]);
    let faucet = with_methods(class("Faucet"), &["drip", "turnOff"]);
    let diags = Fixture::new(content)
        .plain(lamp.clone(), "class Lamp")
        .plain(faucet.clone(), "class Faucet")
        .plain(with_methods(class("Consumer"), &["run"]), "class Consumer")
        .access("$ambiguous->nonexistent()", "$ambiguous", "nonexistent", false, true)
        .var("$ambiguous->nonexistent()", "$ambiguous", vec![lamp, faucet])
        .run();
    assert!(flags(&diags, "nonexistent"), "Expected unknown method diagnostic when member is on no union branch, got: {:?}", diags);
}

#[test]
fn union_diagnostic_message_mentions_multiple_types() {
    let content = r#"<?php
class Lamp {
    public function dim(): void {}
}

class Faucet {
    public function drip(): void {}
}

class Consumer {
    public function run(): void {
        if (rand(0, 1)) {
            $ambiguous = new Lamp();
        } else {
            $ambiguous = new Faucet();
        }
        $ambiguous->nonexistent();
    }
}
"#;
    let lamp = with_methods(class("Lamp"), &["dim"]);
    let faucet = with_methods(class("Faucet"), &["drip"]);
    let diags = Fixture::new(content)
        .plain(lamp.clone(), "class Lamp")
        .plain(faucet.clone(), "class Faucet")
        .plain(with_methods(class("Consumer"), &["run"]), "class Consumer")
        .access("$ambiguous->nonexistent()", "$ambiguous", "nonexistent", false, true)
        .var("$ambiguous->nonexistent()", "$ambiguous", vec![lamp, faucet])
        .run();
    assert!(!diags.is_empty(), "Expected at least one diagnostic");
    assert!(
        diags[0].message.contains("Lamp") && diags[0].message.contains("Faucet"),
        "Expected both union types in the message, got: {}",
        diags[0].message
    );
}

#[test]
fn no_diagnostic_when_any_union_branch_has_magic_call() {
    let content = r#"<?php
class Strict {
    public function known(): void {}
}

class Flexible {
    public function __call(string $name, array $args): mixed {}
}

class Consumer {
    public function run(): void {
        if (rand(0, 1)) {
            $obj = new Strict();
        } else {
            $obj = new Flexible();
        }
        $obj->anything();
    }
}
"#;
    let strict = with_methods(class("Strict"), &["known"]);
    let flexible = with_methods(class("Flexible"), &["__call"]);
    let diags = Fixture::new(content)
        .plain(strict.clone(), "class Strict")
        .plain(flexible.clone(), "class Flexible")
        .plain(with_methods(class("Consumer"), &["run"]), "class Consumer")
        .access("$obj->anything()", "$obj", "anything", false, true)
        .var("$obj->anything()", "$obj", vec![strict, flexible])
        .run();
    assert!(diags.is_empty(), "No diagnostics expected when any union branch has __call, got: {:?}", diags);
}

// ── Exact messages and ranges ───────────────────────────────────────────

#[test]
fn single_class_message_and_range() {
    let diags = foo_missing();
    assert_eq!(diags.len(), 1);
    assert_eq!(diags[0].message, "Method 'missing' not found on class 'Foo'");
    // `$f->missing()` is on line 6, after eight spaces.
    assert_eq!(diags[0].range.start.line, 6);
    assert_eq!(diags[0].range.start.character, 8);
    assert_eq!(diags[0].range.end.line, 6);
    assert_eq!(diags[0].range.end.character, 8 + 13);
}

#[test]
fn union_message_lists_all_types() {
    let content = LAMP_FAUCET;
    let lamp = class("Lamp");
    let mut faucet = class("Faucet");
    faucet.file_namespace = Some("App".to_string());
    let diags = Fixture::new(content)
        .plain(lamp.clone(), "class Lamp")
        .access("$ambiguous->dim()", "$ambiguous", "dim", false, false)
        .var("$ambiguous->dim()", "$ambiguous", vec![lamp, faucet])
        .run();
    assert_eq!(diags.len(), 1);
    assert_eq!(
        diags[0].message,
        "Property 'dim' not found on any of the 2 possible types (Lamp, Faucet)"
    );
}

#[test]
fn static_non_method_is_labelled_member() {
    let content = r#"<?php
class Foo {}

$x = Foo::NOPE;
"#;
    let diags = Fixture::new(content)
        .plain(class("Foo"), "class Foo")
        .access("Foo::NOPE", "Foo", "NOPE", true, false)
        .run();
    assert_eq!(diags.len(), 1);
    assert_eq!(diags[0].message, "Member 'NOPE' not found on class 'Foo'");
}

#[test]
fn anonymous_class_is_displayed_by_its_internal_name() {
    let content = r#"<?php
class Pen {
    public function write(): void {}
}

class Factory {
    public function create(): Pen {
        return new class extends Pen {
            public function demo() {
                $this->nonexistent();
            }
        };
    }
}
"#;
    let (anon, resolved) = anonymous_pen(content, "new class extends Pen", &["demo"], &[]);
    let diags = Fixture::new(content)
        .plain(with_methods(class("Pen"), &["write"]), "class Pen")
        .plain(with_methods(class("Factory"), &["create"]), "class Factory")
        .class(anon, resolved, "new class extends Pen")
        .access("$this->nonexistent()", "$this", "nonexistent", false, true)
        .run();
    let expected = format!(
        "Method 'nonexistent' not found on class '__anonymous@{}'",
        offset_of(content, "new class extends Pen")
    );
    assert_eq!(diags.len(), 1);
    assert_eq!(diags[0].message, expected);
}

#[test]
fn unknown_file_gives_no_diagnostics() {
    let backend = Backend { files: Vec::new(), classes: Vec::new() };
    let mut out = Vec::new();
    backend.collect_unknown_member_diagnostics("file:///other.php", "<?php\n", &mut out);
    assert!(out.is_empty());
}

#[test]
fn static_method_call_on_instance_magic_only_is_flagged() {
    // `__call` does not serve static calls: only `__callStatic` does.
    let content = r#"<?php
class Magic {
    public function __call(string $name, array $args): mixed {}
}

Magic::anything();
"#;
    let diags = Fixture::new(content)
        .plain(with_methods(class("Magic"), &["__call"]), "class Magic")
        .access("Magic::anything()", "Magic", "anything", true, true)
        .run();
    assert_eq!(diags.len(), 1);
}

#[test]
fn no_diagnostic_when_class_has_only_magic_set() {
    let content = r#"<?php
class Settable {
    public function __set(string $name, mixed $value): void {}
}

class Consumer {
    public function run(): void {
        $s = new Settable();
        $s->anything;
    }
}
"#;
    let settable = with_methods(class("Settable"), &["__set"]);
    let diags = Fixture::new(content)
        .plain(settable.clone(), "class Settable")
        .plain(with_methods(class("Consumer"), &["run"]), "class Consumer")
        .access("$s->anything", "$s", "anything", false, false)
        .var("$s->anything", "$s", vec![settable])
        .run();
    assert!(diags.is_empty(), "No diagnostics expected when __set exists, got: {:?}", diags);
}
