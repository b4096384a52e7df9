use packs::location::Location;
use packs::location::Range;
use packs::pack::Pack;
use packs::pack_set::PackSet;
use packs::parser::extract_from_ast;
use packs::parser::Reference;
use packs::parser::RubyNode;

fn loc(begin: usize, end: usize) -> Location {
    Location { begin, end }
}

fn cnst(scope: Option<RubyNode>, name: &str, begin: usize, end: usize) -> RubyNode {
    RubyNode::Const { scope: scope.map(Box::new), name: name.to_string(), loc: loc(begin, end) }
}

fn pack(name: &str, yml: &str) -> Pack {
    Pack { name: name.to_string(), yml: yml.to_string(), violations: Vec::new() }
}

// A small project: `packs/foo` declares a service whose class body references
// a constant owned by `packs/bar` and a private constant owned by
// `packs/baz`. The extracted references carry the exact offending positions,
// and the ownership index resolves each analyzed file to its pack, which is
// what a violation checker joins the two on.
#[test]
fn references_and_ownership_line_up_for_a_small_project() {
    let foo_service = "class Foo\n  Bar\n  Baz::Private\nend\n";
    let body = RubyNode::Other {
        children: vec![
            cnst(None, "Bar", 12, 15),
            cnst(Some(cnst(None, "Baz", 18, 21)), "Private", 18, 30),
        ],
    };
    let ast = RubyNode::Class {
        name: Box::new(cnst(None, "Foo", 6, 9)),
        superclass: None,
        body: Some(Box::new(body)),
        loc: loc(0, 34),
    };
    let references: Vec<Reference> =
        extract_from_ast(foo_service.as_bytes(), &Some(Box::new(ast))).unwrap();

    assert_eq!(references.len(), 2);
    assert_eq!(references[0].name, "Bar");
    assert_eq!(references[0].module_nesting, vec!["Foo".to_string()]);
    assert_eq!(
        references[0].location,
        Range { start_row: 2, start_col: 3, end_row: 2, end_col: 6 }
    );
    assert_eq!(references[1].name, "Baz::Private");
    assert_eq!(references[1].module_nesting, vec!["Foo".to_string()]);
    assert_eq!(
        references[1].location,
        Range { start_row: 3, start_col: 3, end_row: 3, end_col: 15 }
    );

    let packs = vec![
        pack(".", "package.yml"),
        pack("packs/foo", "packs/foo/package.yml"),
        pack("packs/bar", "packs/bar/package.yml"),
        pack("packs/baz", "packs/baz/package.yml"),
    ];
    let mapping = vec![
        (
            "packs/foo/app/services/foo.rb".to_string(),
            "packs/foo/package.yml".to_string(),
        ),
        ("packs/bar/app/models/bar.rb".to_string(), "packs/bar/package.yml".to_string()),
        (
            "packs/baz/app/models/baz/private.rb".to_string(),
            "packs/baz/package.yml".to_string(),
        ),
    ];
    let pack_set = PackSet::build(packs, mapping).unwrap();

    let referencing = pack_set.for_file("packs/foo/app/services/foo.rb").unwrap();
    assert_eq!(referencing.name, "packs/foo");
    assert_eq!(pack_set.for_file("packs/bar/app/models/bar.rb").unwrap().name, "packs/bar");
    assert_eq!(
        pack_set.for_file("packs/baz/app/models/baz/private.rb").unwrap().name,
        "packs/baz"
    );
    assert_eq!(pack_set.root_pack().name, ".");
}
