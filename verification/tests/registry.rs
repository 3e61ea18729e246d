use cargo_install_update::registry::{add_package, find_group, registry_before};
use cargo_install_update::registry::{Registry, RegistryGroup};

fn registry(url: &str, name: &str) -> Registry {
    Registry { url: url.to_string(), name: name.to_string() }
}

fn group(url: &str, name: &str, packages: &[&str]) -> RegistryGroup {
    RegistryGroup {
        registry: registry(url, name),
        packages: packages.iter().map(|p| p.to_string()).collect(),
    }
}

#[test]
fn packages_are_grouped_in_order_of_their_registries() {
    let mut groups = vec![];
    add_package(&mut groups, registry("https://m", "m"), "one".to_string());
    add_package(&mut groups, registry("https://a", "a"), "two".to_string());
    add_package(&mut groups, registry("https://z", "z"), "three".to_string());
    add_package(&mut groups, registry("https://m", "m"), "four".to_string());
    add_package(&mut groups, registry("https://m", "b"), "five".to_string());
    assert_eq!(
        groups,
        vec![
            group("https://a", "a", &["two"]),
            group("https://m", "b", &["five"]),
            group("https://m", "m", &["one", "four"]),
            group("https://z", "z", &["three"]),
        ]
    );
}

#[test]
fn packages_are_found_in_the_first_group_with_their_name() {
    let groups = vec![group("a", "a", &["x"]), group("b", "b", &["y", "z"]), group("c", "c", &["y"])];
    assert_eq!(find_group(&groups, &"x".to_string()), Some(0));
    assert_eq!(find_group(&groups, &"y".to_string()), Some(1));
    assert_eq!(find_group(&groups, &"z".to_string()), Some(1));
    assert_eq!(find_group(&groups, &"w".to_string()), None);
}

#[test]
fn registries_are_ordered_by_address_and_by_name() {
    assert!(registry_before(&registry("a", "z"), &registry("b", "a")));
    assert!(registry_before(&registry("a", "a"), &registry("a", "b")));
    assert!(!registry_before(&registry("a", "a"), &registry("a", "a")));
    assert!(!registry_before(&registry("b", "a"), &registry("a", "z")));
}

#[test]
fn every_grouped_package_is_found_in_its_own_group() {
    let mut groups = vec![];
    for (url, package) in [("b", "one"), ("a", "two"), ("b", "three"), ("c", "four")] {
        add_package(&mut groups, registry(url, url), package.to_string());
    }
    for (url, package) in [("b", "one"), ("a", "two"), ("b", "three"), ("c", "four")] {
        let at = find_group(&groups, &package.to_string()).unwrap();
        assert_eq!(groups[at].registry, registry(url, url));
    }
}
