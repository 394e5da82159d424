use cargo_udeps::model::{DependencyKind, KindGroup, PackageId};
use cargo_udeps::name_map::NameMap;
use cargo_udeps::name_set::NameSet;
use cargo_udeps::package_map::PackageMap;

fn names_of(set: &NameSet) -> Vec<String> {
    (0..set.len()).map(|i| set.name(i).clone()).collect()
}

#[test]
fn a_set_is_walked_in_ascending_order_whatever_the_order_of_insertion() {
    let mut one = NameSet::new();
    assert!(one.is_empty());
    for name in ["serde", "left-pad", "zeta", "alpha", "serde", "left_pad"] {
        one.insert(name.to_string());
    }
    let mut other = NameSet::new();
    for name in ["zeta", "left_pad", "alpha", "left-pad", "serde"] {
        other.insert(name.to_string());
    }
    let expected: Vec<String> = ["alpha", "left-pad", "left_pad", "serde", "zeta"].iter().map(|s| s.to_string()).collect();
    assert_eq!(names_of(&one), expected);
    assert_eq!(names_of(&other), expected);
    assert_eq!(one.len(), 5);
    assert!(!one.is_empty());
    assert!(one.contains("serde"));
    assert!(!one.contains("serd"));
    assert!(!one.contains(""));
}

#[test]
fn a_set_takes_in_all_the_names_of_another() {
    let mut one = NameSet::new();
    one.insert("b".to_string());
    one.insert("d".to_string());
    let mut other = NameSet::new();
    other.insert("c".to_string());
    other.insert("b".to_string());
    other.insert("a".to_string());
    one.insert_all(&other);
    assert_eq!(names_of(&one), vec!["a".to_string(), "b".to_string(), "c".to_string(), "d".to_string()]);
    assert_eq!(other.len(), 3);
    one.insert_all(&NameSet::new());
    assert_eq!(one.len(), 4);
}

#[test]
fn a_name_map_inserts_replaces_and_removes() {
    let mut map: NameMap<u32> = NameMap::new();
    assert_eq!(map.len(), 0);
    assert_eq!(map.get("a"), None);
    map.insert("b".to_string(), 2);
    map.insert("a".to_string(), 1);
    map.insert("c".to_string(), 3);
    assert_eq!(map.len(), 3);
    assert_eq!(map.key(0), "a");
    assert_eq!(map.key(1), "b");
    assert_eq!(map.key(2), "c");
    assert_eq!(*map.value(1), 2);
    assert_eq!(map.position("c"), Some(2));
    assert_eq!(map.position("d"), None);
    map.insert("b".to_string(), 20);
    assert_eq!(map.len(), 3);
    assert_eq!(map.get("b"), Some(&20));
    assert_eq!(map.remove("a"), Some(1));
    assert_eq!(map.remove("a"), None);
    assert_eq!(map.len(), 2);
    assert_eq!(map.key(0), "b");
    assert_eq!(map.get("c"), Some(&3));
}

#[test]
fn a_package_map_inserts_replaces_and_removes() {
    let mut map: PackageMap<&str> = PackageMap::new();
    map.insert(PackageId(30), "c");
    map.insert(PackageId(10), "a");
    map.insert(PackageId(20), "b");
    assert_eq!(map.len(), 3);
    assert_eq!(map.id(0), PackageId(10));
    assert_eq!(map.id(1), PackageId(20));
    assert_eq!(map.id(2), PackageId(30));
    assert_eq!(*map.value(0), "a");
    assert_eq!(map.position(PackageId(20)), Some(1));
    assert_eq!(map.position(PackageId(25)), None);
    map.insert(PackageId(20), "bb");
    assert_eq!(map.len(), 3);
    assert_eq!(map.get(PackageId(20)), Some(&"bb"));
    assert_eq!(map.remove(PackageId(10)), Some("a"));
    assert_eq!(map.remove(PackageId(10)), None);
    assert_eq!(map.get(PackageId(10)), None);
    assert_eq!(map.id(0), PackageId(20));
    assert_eq!(map.len(), 2);
}

#[test]
fn kinds_are_observed_in_two_groups() {
    assert_eq!(DependencyKind::Normal.group(), KindGroup::NormalDevelopment);
    assert_eq!(DependencyKind::Development.group(), KindGroup::NormalDevelopment);
    assert_eq!(DependencyKind::Build.group(), KindGroup::Build);
}
