use nixgen::{
    descriptor_path, generation_from_read, generation_index, parse_descriptor, select_generations, sort_by_index, GenError,
    Generation, NixGen,
};

fn generation(label: &str) -> Generation {
    let text = format!(
        r#"{{"org.nixos.bootspec.v1": {{"init": "/i", "kernel": "/k", "kernelParams": [], "label": "{}", "system": "x86_64-linux"}},
            "org.nixos.specialisation.v1": {{}}}}"#,
        label
    );
    parse_descriptor("/p", &text).unwrap()
}

#[test]
fn generation_names_give_their_index() {
    assert_eq!(generation_index("system-42-link").unwrap(), Some(42));
    assert_eq!(generation_index("system-0-link").unwrap(), Some(0));
    assert_eq!(generation_index("system-007-link").unwrap(), Some(7));
    assert_eq!(generation_index("system-18446744073709551615-link").unwrap(), Some(usize::MAX));
}

#[test]
fn other_names_are_skipped() {
    for name in [
        "system",
        "system--link",
        "system-4a-link",
        "xsystem-1-link",
        "system-1-link.bak",
        "System-1-link",
        "system-1-lin",
        "per-user",
        "",
        "system-١-link",
    ] {
        assert_eq!(generation_index(name).unwrap(), None, "{}", name);
    }
}

#[test]
fn oversized_index_is_an_error() {
    match generation_index("system-18446744073709551616-link") {
        Err(GenError::IndexOutOfRange { name }) => assert_eq!(name, "system-18446744073709551616-link"),
        other => panic!("unexpected {:?}", other),
    }
}

#[test]
fn paths_in_the_profile_directory() {
    let g = NixGen::new("/p/profiles");
    assert_eq!(g.profiles_dir(), "/p/profiles");
    assert_eq!(g.system_link(), "/p/profiles/system");
    assert_eq!(g.entry_path("system-3-link"), "/p/profiles/system-3-link");
    assert_eq!(NixGen::new("/p/").system_link(), "/p/system");
    assert_eq!(NixGen::default().system_link(), "/nix/var/nix/profiles/system");
}

#[test]
fn descriptor_inside_a_directory() {
    assert_eq!(descriptor_path("/nix/store/abc", true), "/nix/store/abc/boot.json");
    assert_eq!(descriptor_path("/nix/store/abc/boot.json", false), "/nix/store/abc/boot.json");
}

#[test]
fn unresolvable_profile_link_names_the_link() {
    let g = NixGen::new("/p/profiles");
    match g.current_target(Err("No such file or directory".to_string())) {
        Err(GenError::ProfileLink { link, cause }) => {
            assert_eq!(link, "/p/profiles/system");
            assert_eq!(cause, "No such file or directory");
        }
        other => panic!("unexpected {:?}", other),
    }
    assert_eq!(g.current_target(Ok("/nix/store/abc".to_string())).unwrap(), "/nix/store/abc");
}

#[test]
fn current_generation_label_comes_from_its_descriptor() {
    let text = r#"{"org.nixos.bootspec.v1": {"init": "/i", "kernel": "/k", "kernelParams": [], "label": "NixOS 24.11", "system": "x86_64-linux"},
                  "org.nixos.specialisation.v1": {}}"#;
    let g = NixGen::new("/p");
    let target = g.current_target(Ok("/nix/store/abc".to_string())).unwrap();
    let path = descriptor_path(&target, true);
    let generation = generation_from_read(&path, Ok(text.to_string())).unwrap();
    assert_eq!(generation.label(), "NixOS 24.11");
}

#[test]
fn unreadable_descriptor_names_the_path() {
    match generation_from_read("/x/boot.json", Err("denied".to_string())) {
        Err(GenError::NotFound { path, cause }) => {
            assert_eq!(path, "/x/boot.json");
            assert_eq!(cause, "denied");
        }
        other => panic!("unexpected {:?}", other),
    }
}

#[test]
fn generations_are_sorted_by_index() {
    let gens = vec![(10, generation("ten")), (2, generation("two")), (7, generation("seven")), (1, generation("one"))];
    let sorted = sort_by_index(gens);
    let order: Vec<(usize, String)> = sorted.iter().map(|(i, g)| (*i, g.label())).collect();
    assert_eq!(
        order,
        vec![(1, "one".to_string()), (2, "two".to_string()), (7, "seven".to_string()), (10, "ten".to_string())]
    );
}

#[test]
fn sorting_nothing_gives_nothing() {
    assert!(sort_by_index(Vec::new()).is_empty());
}

#[test]
fn only_generation_links_are_selected() {
    let names: Vec<String> = ["system", "system-3-link", "per-user", "system-12-link", "system-x-link", "system-1-link"]
        .iter()
        .map(|s| s.to_string())
        .collect();
    let selected = select_generations(&names).unwrap();
    assert_eq!(
        selected,
        vec![(3, "system-3-link".to_string()), (12, "system-12-link".to_string()), (1, "system-1-link".to_string())]
    );
}

#[test]
fn selecting_an_oversized_link_fails() {
    let names = vec!["system-1-link".to_string(), "system-99999999999999999999999-link".to_string()];
    assert!(matches!(select_generations(&names), Err(GenError::IndexOutOfRange { .. })));
    assert!(select_generations(&Vec::new()).unwrap().is_empty());
}

#[test]
fn equal_indices_keep_their_order() {
    let gens = vec![(2, generation("b1")), (1, generation("a")), (2, generation("b2")), (2, generation("b3"))];
    let order: Vec<(usize, String)> = sort_by_index(gens).iter().map(|(i, g)| (*i, g.label())).collect();
    assert_eq!(
        order,
        vec![(1, "a".to_string()), (2, "b1".to_string()), (2, "b2".to_string()), (2, "b3".to_string())]
    );
}

#[test]
fn listing_order_does_not_depend_on_reading_order() {
    let one = vec![(3, generation("c")), (1, generation("a")), (2, generation("b"))];
    let other = vec![(2, generation("b")), (3, generation("c")), (1, generation("a"))];
    let labels = |v: Vec<(usize, Generation)>| -> Vec<(usize, String)> {
        sort_by_index(v).iter().map(|(i, g)| (*i, g.label())).collect()
    };
    assert_eq!(labels(one), labels(other));
}
