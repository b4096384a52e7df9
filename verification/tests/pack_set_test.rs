use packs::pack::Pack;
use packs::pack::ViolationIdentifier;
use packs::pack_set::PackSet;
use packs::pack_set::PackSetError;

fn pack(name: &str, yml: &str) -> Pack {
    Pack { name: name.to_string(), yml: yml.to_string(), violations: Vec::new() }
}

fn pack_with_violations(name: &str, yml: &str, violations: &[&str]) -> Pack {
    Pack {
        name: name.to_string(),
        yml: yml.to_string(),
        violations: violations
            .iter()
            .map(|v| ViolationIdentifier { key: v.to_string() })
            .collect(),
    }
}

fn example_pack_set() -> PackSet {
    let foo_pack = pack("packs/foo", "packs/foo/package.yml");
    let root_pack = pack(".", "package.yml");
    let packs = vec![foo_pack, root_pack];
    PackSet::build(packs, Vec::new()).unwrap()
}

#[test]
fn from_pack() {
    let pack_set = example_pack_set();
    let actual_pack = pack_set.for_pack("packs/foo");
    assert!(actual_pack.is_ok());
}

#[test]
fn from_pack_with_slash() {
    let pack_set = example_pack_set();
    let actual_pack = pack_set.for_pack("packs/foo/");
    assert!(actual_pack.is_ok());
}

#[test]
fn from_pack_same_with_and_without_slash() {
    let pack_set = example_pack_set();
    let bare = pack_set.for_pack("packs/foo").unwrap().name.clone();
    let slashed = pack_set.for_pack("packs/foo/").unwrap().name.clone();
    assert_eq!(bare, slashed);
}

#[test]
fn from_pack_unknown_name_is_recoverable() {
    let pack_set = example_pack_set();
    let missing = pack_set.for_pack("packs/nope");
    assert_eq!(missing.err(), Some("No pack found."));
}

#[test]
fn build_without_root_pack_fails() {
    let packs = vec![pack("packs/foo", "packs/foo/package.yml")];
    let result = PackSet::build(packs, Vec::new());
    assert!(matches!(result, Err(PackSetError::MissingRootPack)));
}

#[test]
fn root_pack_returns_the_dot_pack() {
    let pack_set = example_pack_set();
    assert_eq!(pack_set.root_pack().name, ".");
}

#[test]
fn packs_are_sorted_longest_name_first_then_lexicographic() {
    let packs = vec![
        pack(".", "package.yml"),
        pack("packs/b", "packs/b/package.yml"),
        pack("packs/a", "packs/a/package.yml"),
        pack("packs/long/nested", "packs/long/nested/package.yml"),
    ];
    let pack_set = PackSet::build(packs, Vec::new()).unwrap();
    let names: Vec<String> = pack_set.packs.iter().map(|p| p.name.clone()).collect();
    assert_eq!(names, vec!["packs/long/nested", "packs/a", "packs/b", "."]);
}

#[test]
fn for_file_prefers_the_most_specific_pack() {
    let file = "/root/a/b/service.rb";
    let packs = vec![
        pack(".", "package.yml"),
        pack("a", "a/package.yml"),
        pack("a/b", "a/b/package.yml"),
    ];
    let mapping = vec![(file.to_string(), "a/b/package.yml".to_string())];
    let pack_set = PackSet::build(packs, mapping).unwrap();
    assert_eq!(pack_set.for_file(file).unwrap().name, "a/b");

    // The same result regardless of the order the packs were given in.
    let packs_reversed = vec![
        pack("a/b", "a/b/package.yml"),
        pack("a", "a/package.yml"),
        pack(".", "package.yml"),
    ];
    let mapping = vec![(file.to_string(), "a/b/package.yml".to_string())];
    let pack_set = PackSet::build(packs_reversed, mapping).unwrap();
    assert_eq!(pack_set.for_file(file).unwrap().name, "a/b");
}

#[test]
fn for_file_without_recorded_owner_is_none() {
    let packs = vec![pack(".", "package.yml"), pack("a", "a/package.yml")];
    let mapping = vec![
        ("/root/known.rb".to_string(), "a/package.yml".to_string()),
        ("/root/unknown_yml.rb".to_string(), "b/package.yml".to_string()),
    ];
    let pack_set = PackSet::build(packs, mapping).unwrap();
    assert!(pack_set.for_file("/root/known.rb").is_some());
    // A file whose configuration file belongs to no pack is left unowned.
    assert!(pack_set.for_file("/root/unknown_yml.rb").is_none());
    // A file that was never mapped at all is unowned too.
    assert!(pack_set.for_file("/root/never_seen.rb").is_none());
}

#[test]
fn all_violations_are_aggregated_and_deduplicated() {
    let packs = vec![
        pack_with_violations(".", "package.yml", &["dep:a->b"]),
        pack_with_violations("packs/a", "packs/a/package.yml", &["dep:a->b", "privacy:a->c"]),
    ];
    let pack_set = PackSet::build(packs, Vec::new()).unwrap();
    let mut keys: Vec<String> =
        pack_set.all_violations.iter().map(|v| v.key.clone()).collect();
    keys.sort();
    assert_eq!(keys, vec!["dep:a->b", "privacy:a->c"]);
}
