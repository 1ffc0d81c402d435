//! PHPDoc tag extraction.

use phpantom::docblock::{extract_method_tags, extract_property_tags};

fn props(doc: &str) -> Vec<(String, String)> {
    extract_property_tags(doc)
}

#[test]
fn property_tag_with_type_and_name() {
    assert_eq!(props("/** @property int $id */"), vec![("id".to_string(), "int".to_string())]);
}

#[test]
fn property_tag_without_type() {
    assert_eq!(props("/** @property $untyped */"), vec![("untyped".to_string(), String::new())]);
}

#[test]
fn property_read_and_write_tags() {
    let doc = "/**\n * @property-read Session $session\n * @property-write string $title\n */";
    assert_eq!(
        props(doc),
        vec![
            ("session".to_string(), "Session".to_string()),
            ("title".to_string(), "string".to_string()),
        ]
    );
}

#[test]
fn nullable_types_are_cleaned() {
    let doc = "/**\n * @property ?int $a\n * @property null|string $b\n * @property Foo|null $c\n * @property int|string $d\n */";
    assert_eq!(
        props(doc),
        vec![
            ("a".to_string(), "int".to_string()),
            ("b".to_string(), "string".to_string()),
            ("c".to_string(), "Foo".to_string()),
            ("d".to_string(), "int|string".to_string()),
        ]
    );
}

#[test]
fn generic_type_with_spaces_is_one_type() {
    let doc = "/** @property array<string, int> $map description here */";
    assert_eq!(props(doc), vec![("map".to_string(), "array<string, int>".to_string())]);
}

#[test]
fn tag_word_must_end_at_whitespace() {
    let doc = "/**\n * @propertyfoo int $x\n * @methods void x()\n * @property-other int $y\n */";
    assert!(props(doc).is_empty());
    assert!(extract_method_tags(doc).is_empty());
}

#[test]
fn property_without_dollar_name_is_skipped() {
    assert!(props("/** @property int id */").is_empty());
    assert!(props("/** @property int $ */").is_empty());
}

#[test]
fn crlf_lines_are_read() {
    let doc = "/**\r\n * @property int $id\r\n * @method void save()\r\n */";
    assert_eq!(props(doc), vec![("id".to_string(), "int".to_string())]);
    let methods = extract_method_tags(doc);
    assert_eq!(methods.len(), 1);
    assert_eq!(methods[0].name, "save");
}

#[test]
fn method_without_return_type() {
    let methods = extract_method_tags("/** @method save() */");
    assert_eq!(methods.len(), 1);
    assert_eq!(methods[0].name, "save");
    assert_eq!(methods[0].return_type, None);
    assert!(!methods[0].is_static);
}

#[test]
fn static_method_without_return_type() {
    let methods = extract_method_tags("/** @method static make() */");
    assert_eq!(methods.len(), 1);
    assert_eq!(methods[0].name, "make");
    assert!(methods[0].is_static);
    assert_eq!(methods[0].return_type, None);
}

#[test]
fn method_parameters_in_detail() {
    let doc = "/** @method Builder where(string|array $column, mixed &$ref, int ...$rest, array $opts = ['a' => 1, 'b' => 2]) */";
    let methods = extract_method_tags(doc);
    assert_eq!(methods.len(), 1);
    let m = &methods[0];
    assert_eq!(m.name, "where");
    assert_eq!(m.return_type.as_deref(), Some("Builder"));
    assert_eq!(m.parameters.len(), 4);

    assert_eq!(m.parameters[0].name, "$column");
    assert_eq!(m.parameters[0].type_hint.as_deref(), Some("string|array"));
    assert!(m.parameters[0].is_required);

    assert_eq!(m.parameters[1].name, "$ref");
    assert_eq!(m.parameters[1].type_hint.as_deref(), Some("mixed"));
    assert!(m.parameters[1].is_reference);
    assert!(m.parameters[1].is_required);

    assert_eq!(m.parameters[2].name, "$rest");
    assert!(m.parameters[2].is_variadic);
    assert!(!m.parameters[2].is_required);
    assert_eq!(m.parameters[2].type_hint.as_deref(), Some("int"));

    assert_eq!(m.parameters[3].name, "$opts");
    assert!(!m.parameters[3].is_required);
}

#[test]
fn method_without_parentheses_is_skipped() {
    assert!(extract_method_tags("/** @method string name */").is_empty());
    assert!(extract_method_tags("/** @method () */").is_empty());
}

#[test]
fn tags_come_in_source_order() {
    let doc = "/**\n * Some description.\n *\n * @method void b()\n * @param int $x\n * @method int a()\n */";
    let names: Vec<String> = extract_method_tags(doc).into_iter().map(|m| m.name).collect();
    assert_eq!(names, vec!["b".to_string(), "a".to_string()]);
}
