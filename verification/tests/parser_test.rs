use packs::location::Location;
use packs::location::Range;
use packs::parser::extract_from_ast;
use packs::parser::Reference;
use packs::parser::RubyNode;

fn loc(begin: usize, end: usize) -> Location {
    Location { begin, end }
}

fn cnst(scope: Option<RubyNode>, name: &str, begin: usize, end: usize) -> RubyNode {
    RubyNode::Const { scope: scope.map(Box::new), name: name.to_string(), loc: loc(begin, end) }
}

fn class(name: RubyNode, body: Option<RubyNode>, begin: usize, end: usize) -> RubyNode {
    RubyNode::Class {
        name: Box::new(name),
        superclass: None,
        body: body.map(Box::new),
        loc: loc(begin, end),
    }
}

fn module_node(name: RubyNode, body: Option<RubyNode>) -> RubyNode {
    RubyNode::Module { name: Box::new(name), body: body.map(Box::new) }
}

fn extract(contents: &str, ast: RubyNode) -> Vec<Reference> {
    extract_from_ast(contents.as_bytes(), &Some(Box::new(ast))).unwrap()
}

fn assert_reference(r: &Reference, name: &str, nesting: &[&str], range: (usize, usize, usize, usize)) {
    assert_eq!(r.name, name);
    let expected: Vec<String> = nesting.iter().map(|s| s.to_string()).collect();
    assert_eq!(r.module_nesting, expected);
    assert_eq!(
        r.location,
        Range { start_row: range.0, start_col: range.1, end_row: range.2, end_col: range.3 }
    );
}

#[test]
fn test_trivial_case() {
    let contents: String = String::from("Foo");
    let refs = extract(&contents, cnst(None, "Foo", 0, 3));
    assert_eq!(refs.len(), 1);
    assert_reference(&refs[0], "Foo", &[], (1, 1, 1, 4));
}

#[test]
fn test_nested_constant() {
    let contents: String = String::from("Foo::Bar");
    let refs = extract(&contents, cnst(Some(cnst(None, "Foo", 0, 3)), "Bar", 0, 8));
    assert_eq!(refs.len(), 1);
    assert_reference(&refs[0], "Foo::Bar", &[], (1, 1, 1, 9));
}

#[test]
fn test_deeply_nested_constant() {
    let contents: String = String::from("Foo::Bar::Baz");
    let ast = cnst(Some(cnst(Some(cnst(None, "Foo", 0, 3)), "Bar", 0, 8)), "Baz", 0, 13);
    let refs = extract(&contents, ast);
    assert_eq!(refs.len(), 1);
    assert_reference(&refs[0], "Foo::Bar::Baz", &[], (1, 1, 1, 14));
}

#[test]
fn test_very_deeply_nested_constant() {
    let contents: String = String::from("Foo::Bar::Baz::Boo");
    let ast = cnst(
        Some(cnst(Some(cnst(Some(cnst(None, "Foo", 0, 3)), "Bar", 0, 8)), "Baz", 0, 13)),
        "Boo",
        0,
        18,
    );
    let refs = extract(&contents, ast);
    assert_eq!(refs.len(), 1);
    assert_reference(&refs[0], "Foo::Bar::Baz::Boo", &[], (1, 1, 1, 19));
}

#[test]
fn test_class_definition() {
    let contents: String = String::from("class Foo\n    end\n            ");
    let ast = class(cnst(None, "Foo", 6, 9), None, 0, 17);
    let refs = extract(&contents, ast);
    // The class definition is recorded as a definition of `Foo`; the walk
    // never enters the class's own name expression, so no reference results.
    assert_eq!(refs.len(), 0);
}

#[test]
fn test_class_namespaced_constant() {
    let contents: String = String::from("class Foo\n  Bar\nend\n        ");
    let ast = class(cnst(None, "Foo", 6, 9), Some(cnst(None, "Bar", 12, 15)), 0, 19);
    let refs = extract(&contents, ast);
    assert_eq!(refs.len(), 1);
    assert_reference(&refs[0], "Bar", &["Foo"], (2, 3, 2, 6));
}

#[test]
fn test_deeply_class_namespaced_constant() {
    let contents: String = String::from("class Foo\n  class Bar\n    Baz\n  end\nend\n        ");
    let inner = class(cnst(None, "Bar", 18, 21), Some(cnst(None, "Baz", 26, 29)), 12, 36);
    let ast = class(cnst(None, "Foo", 6, 9), Some(inner), 0, 40);
    let refs = extract(&contents, ast);
    assert_eq!(refs.len(), 1);
    assert_reference(&refs[0], "Baz", &["Foo::Bar", "Foo"], (3, 5, 3, 8));
}

#[test]
fn test_very_deeply_class_namespaced_constant() {
    let contents: String =
        String::from("class Foo\n  class Bar\n    class Baz\n      Boo\n    end\n  end\nend\n        ");
    let innermost = class(cnst(None, "Baz", 32, 35), Some(cnst(None, "Boo", 42, 45)), 26, 55);
    let inner = class(cnst(None, "Bar", 18, 21), Some(innermost), 12, 61);
    let ast = class(cnst(None, "Foo", 6, 9), Some(inner), 0, 65);
    let refs = extract(&contents, ast);
    assert_eq!(refs.len(), 1);
    assert_reference(&refs[0], "Boo", &["Foo::Bar::Baz", "Foo::Bar", "Foo"], (4, 7, 4, 10));
}

#[test]
fn test_module_namespaced_constant() {
    let contents: String = String::from("module Foo\n  Bar\nend\n        ");
    let ast = module_node(cnst(None, "Foo", 7, 10), Some(cnst(None, "Bar", 13, 16)));
    let refs = extract(&contents, ast);
    assert_eq!(refs.len(), 1);
    assert_reference(&refs[0], "Bar", &["Foo"], (2, 3, 2, 6));
}

#[test]
fn test_deeply_module_namespaced_constant() {
    let contents: String = String::from("module Foo\n  module Bar\n    Baz\n  end\nend\n        ");
    let inner = module_node(cnst(None, "Bar", 20, 23), Some(cnst(None, "Baz", 28, 31)));
    let ast = module_node(cnst(None, "Foo", 7, 10), Some(inner));
    let refs = extract(&contents, ast);
    assert_eq!(refs.len(), 1);
    assert_reference(&refs[0], "Baz", &["Foo::Bar", "Foo"], (3, 5, 3, 8));
}

#[test]
fn test_very_deeply_module_namespaced_constant() {
    let contents: String = String::from(
        "module Foo\n  module Bar\n    module Baz\n      Boo\n    end\n  end\nend\n        ",
    );
    let innermost = module_node(cnst(None, "Baz", 35, 38), Some(cnst(None, "Boo", 45, 48)));
    let inner = module_node(cnst(None, "Bar", 20, 23), Some(innermost));
    let ast = module_node(cnst(None, "Foo", 7, 10), Some(inner));
    let refs = extract(&contents, ast);
    assert_eq!(refs.len(), 1);
    assert_reference(&refs[0], "Boo", &["Foo::Bar::Baz", "Foo::Bar", "Foo"], (4, 7, 4, 10));
}

#[test]
fn test_mixed_namespaced_constant() {
    let contents: String =
        String::from("class Foo\n  module Bar\n    class Baz\n      Boo\n    end\n  end\nend\n        ");
    let innermost = class(cnst(None, "Baz", 33, 36), Some(cnst(None, "Boo", 43, 46)), 27, 56);
    let inner = module_node(cnst(None, "Bar", 19, 22), Some(innermost));
    let ast = class(cnst(None, "Foo", 6, 9), Some(inner), 0, 66);
    let refs = extract(&contents, ast);
    assert_eq!(refs.len(), 1);
    assert_reference(&refs[0], "Boo", &["Foo::Bar::Baz", "Foo::Bar", "Foo"], (4, 7, 4, 10));
}

#[test]
fn test_compact_style_class_definition_constant() {
    let contents: String = String::from("class Foo::Bar\n  Baz\nend\n        ");
    let name = cnst(Some(cnst(None, "Foo", 6, 9)), "Bar", 6, 14);
    let ast = class(name, Some(cnst(None, "Baz", 17, 20)), 0, 24);
    let refs = extract(&contents, ast);
    assert_eq!(refs.len(), 1);
    assert_reference(&refs[0], "Baz", &["Foo::Bar"], (2, 3, 2, 6));
}

#[test]
fn test_compact_style_with_nesting_class_definition_constant() {
    let contents: String = String::from("class Foo::Bar\n  module Baz\n    Baz\n  end\nend\n        ");
    let name = cnst(Some(cnst(None, "Foo", 6, 9)), "Bar", 6, 14);
    let inner = module_node(cnst(None, "Baz", 24, 27), Some(cnst(None, "Baz", 32, 35)));
    let ast = class(name, Some(inner), 0, 45);
    let refs = extract(&contents, ast);
    assert_eq!(refs.len(), 1);
    assert_reference(&refs[0], "Baz", &["Foo::Bar::Baz", "Foo::Bar"], (3, 5, 3, 8));
}

#[test]
fn test_array_of_constant() {
    let contents: String = String::from("[Foo]");
    let ast = RubyNode::Other { children: vec![cnst(None, "Foo", 1, 4)] };
    let references = extract(&contents, ast);
    assert_eq!(references.len(), 1);
    let reference = references.get(0).expect("There should be a reference at index 0");
    assert_reference(reference, "Foo", &[], (1, 2, 1, 5));
}

#[test]
fn test_array_of_multiple_constants() {
    let contents: String = String::from("[Foo, Bar]");
    let ast = RubyNode::Other { children: vec![cnst(None, "Foo", 1, 4), cnst(None, "Bar", 6, 9)] };
    let references = extract(&contents, ast);
    assert_eq!(references.len(), 2);
    let reference1 = references.get(0).expect("There should be a reference at index 0");
    assert_reference(reference1, "Foo", &[], (1, 2, 1, 5));
    let reference2 = references.get(1).expect("There should be a reference at index 1");
    assert_reference(reference2, "Bar", &[], (1, 7, 1, 10));
}

#[test]
fn test_array_of_nested_constant() {
    let contents: String = String::from("[Baz::Boo]");
    let ast = RubyNode::Other {
        children: vec![cnst(Some(cnst(None, "Baz", 1, 4)), "Boo", 1, 9)],
    };
    let references = extract(&contents, ast);
    assert_eq!(references.len(), 1);
    let reference = references.get(0).expect("There should be a reference at index 0");
    assert_reference(reference, "Baz::Boo", &[], (1, 2, 1, 10));
}

#[test]
fn test_globally_referenced_constant() {
    let contents: String = String::from("::Foo");
    let ast = cnst(Some(RubyNode::Cbase), "Foo", 0, 5);
    let references = extract(&contents, ast);
    assert_eq!(references.len(), 1);
    let reference = references.get(0).expect("There should be a reference at index 0");
    assert_reference(reference, "::Foo", &[], (1, 1, 1, 6));
}

#[test]
fn test_metaprogrammatically_referenced_constant() {
    let contents: String = String::from("described_class::Foo");
    let ast = cnst(Some(RubyNode::Dynamic { children: vec![] }), "Foo", 0, 20);
    let references = extract(&contents, ast);
    assert_eq!(references.len(), 0);
}

#[test]
fn test_ignore_local_constant() {
    let contents: String =
        String::from("class Foo\n  BAR = 1\n  def use_bar\n    puts BAR\n  end\nend\n        ");
    let casgn = RubyNode::Casgn { scope: None, name: "BAR".to_string(), loc: loc(12, 19) };
    let method_body =
        RubyNode::Dynamic { children: vec![cnst(None, "BAR", 43, 46)] };
    let def_node = RubyNode::Other { children: vec![method_body] };
    let body = RubyNode::Other { children: vec![casgn, def_node] };
    let ast = class(cnst(None, "Foo", 6, 9), Some(body), 0, 57);
    assert_eq!(extract(&contents, ast).len(), 0);
}
