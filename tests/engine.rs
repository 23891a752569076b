use gitconf::cascade::{
    config_candidates, config_file_for, config_subpath_parts, marker_dir_for, profile_applied,
    resolve_cascade, CascadeError, Configuration, Probe,
};
use gitconf::flow::{
    choose_profile, first_use_after_apply, first_use_after_choice, first_use_step, plan_set_profile,
    CommandError, FirstUseAction, FlowError, SetProfileRequest,
};
use gitconf::path::{ancestors, DirPath, PathIter};
use gitconf::registry::{ProfileRegistry, RegistryError};

fn dir(s: &str) -> DirPath {
    let parts: Vec<String> = s.split('/').filter(|c| !c.is_empty()).map(|c| c.to_string()).collect();
    DirPath::new(s.starts_with('/'), parts)
}

fn text(p: &DirPath) -> String {
    let body = p.parts.join("/");
    if p.absolute {
        format!("/{}", body)
    } else {
        body
    }
}

fn texts(ps: &[DirPath]) -> Vec<String> {
    ps.iter().map(text).collect()
}

fn registry(names: &[&str]) -> ProfileRegistry {
    let names: Vec<String> = names.iter().map(|n| n.to_string()).collect();
    ProfileRegistry::from_storage(&dir("/profiles"), &names)
}

#[test]
fn walk_from_nested_directory() {
    let got = ancestors(&dir("/home/user/repo"));
    assert_eq!(texts(&got), vec!["/home/user/repo", "/home/user", "/home", "/etc"]);
}

#[test]
fn walk_from_root_yields_system_dir_only() {
    let got = ancestors(&DirPath::root());
    assert_eq!(texts(&got), vec!["/etc"]);
}

#[test]
fn walk_below_system_dir_does_not_repeat_it() {
    let got = ancestors(&dir("/etc/git"));
    assert_eq!(texts(&got), vec!["/etc/git", "/etc"]);
    let got = ancestors(&dir("/etc"));
    assert_eq!(texts(&got), vec!["/etc"]);
}

#[test]
fn walk_has_no_consecutive_duplicates_and_shrinks() {
    let got = ancestors(&dir("/a/b/c/d/e"));
    assert_eq!(got.len(), 6);
    for w in got.windows(2) {
        assert_ne!(text(&w[0]), text(&w[1]));
    }
    for i in 0..got.len() - 2 {
        assert!(got[i].depth() > got[i + 1].depth());
    }
}

#[test]
fn walk_of_relative_path_ends_at_empty_path() {
    let got = ancestors(&dir("a/b"));
    assert_eq!(texts(&got), vec!["a/b", "a", ""]);
}

#[test]
fn iterator_is_exhausted_after_last_element() {
    let mut it = PathIter::new(dir("/x"));
    assert_eq!(text(&it.next().unwrap()), "/x");
    assert_eq!(text(&it.next().unwrap()), "/etc");
    assert!(it.next().is_none());
    assert!(it.next().is_none());
}

#[test]
fn path_operations() {
    let mut p = dir("/a/b");
    assert!(p.same_as(&dir("/a/b")));
    assert!(!p.same_as(&dir("a/b")));
    assert!(!p.same_as(&dir("/a/c")));
    assert_eq!(p.file_name().unwrap(), "b");
    assert!(p.pop());
    assert_eq!(text(&p), "/a");
    assert!(p.pop());
    assert!(p.is_root());
    assert!(!p.pop());
    assert!(DirPath::root().file_name().is_none());
    assert_eq!(text(&DirPath::system_dir()), "/etc");
    assert_eq!(text(&dir("/a").duplicate()), "/a");
}

#[test]
fn config_and_marker_locations() {
    assert_eq!(config_subpath_parts(), vec![".git", ".gitconf", "profile"]);
    assert_eq!(text(&config_file_for(&dir("/repo"))), "/repo/.git/.gitconf/profile");
    assert_eq!(text(&marker_dir_for(&dir("/repo"))), "/repo/.git/.gitconf");
    let c = config_candidates(&dir("/repo/sub"));
    assert_eq!(
        texts(&c),
        vec![
            "/repo/sub/.git/.gitconf/profile",
            "/repo/.git/.gitconf/profile",
            "/etc/.git/.gitconf/profile"
        ]
    );
}

#[test]
fn cascade_without_files_gives_standard_configuration() {
    let c = config_candidates(&dir("/repo/sub"));
    let probes = vec![Probe::Missing, Probe::Missing, Probe::Missing];
    let loaded = resolve_cascade(&c, &probes).unwrap();
    assert!(loaded.source.is_none());
    assert!(loaded.config.profile.is_none());
    assert!(loaded.config.interactive);
    assert!(loaded.config.select_profile_on_first_use);
    assert!(loaded.config.show_current_profile);
}

#[test]
fn cascade_nearest_file_wins() {
    let c = config_candidates(&dir("/a1/below"));
    let probes = vec![
        Probe::Missing,
        Probe::Found("/profiles/near".to_string()),
        Probe::Found("/profiles/far".to_string()),
    ];
    let loaded = resolve_cascade(&c, &probes).unwrap();
    assert_eq!(text(loaded.source.as_ref().unwrap()), "/a1/.git/.gitconf/profile");
    assert_eq!(loaded.config.profile.unwrap(), "/profiles/near");
}

#[test]
fn cascade_unreadable_nearest_file_is_an_error() {
    let c = config_candidates(&dir("/a/b"));
    let probes = vec![
        Probe::Missing,
        Probe::Unreadable,
        Probe::Found("/profiles/far".to_string()),
        Probe::Missing,
    ];
    match resolve_cascade(&c, &probes) {
        Err(CascadeError::Unreadable(p)) => assert_eq!(text(&p), "/a/.git/.gitconf/profile"),
        other => panic!("unexpected {:?}", other),
    }
}

#[test]
fn cascade_unreadable_farther_file_is_not_read() {
    let c = config_candidates(&dir("/a/b"));
    let probes = vec![
        Probe::Found("/profiles/p".to_string()),
        Probe::Unreadable,
        Probe::Missing,
        Probe::Missing,
    ];
    let loaded = resolve_cascade(&c, &probes).unwrap();
    assert_eq!(text(loaded.source.as_ref().unwrap()), "/a/b/.git/.gitconf/profile");
}

#[test]
fn registry_lists_and_resolves() {
    let reg = registry(&["work", "home", "work"]);
    assert_eq!(reg.len(), 2);
    assert_eq!(reg.names(), vec!["work", "home"]);
    assert_eq!(text(&reg.resolve(&"home".to_string()).unwrap()), "/profiles/home");
    match reg.resolve(&"play".to_string()) {
        Err(RegistryError::NotFound(n)) => assert_eq!(n, "play"),
        other => panic!("unexpected {:?}", other),
    }
}

#[test]
fn empty_registry() {
    let reg = registry(&[]);
    assert_eq!(reg.len(), 0);
    assert!(reg.names().is_empty());
}

#[test]
fn set_profile_example_round_trip() {
    let reg = registry(&["work", "home"]);
    let request = plan_set_profile(&Configuration::standard(), &reg, Some("work".to_string())).unwrap();
    let location = match request {
        SetProfileRequest::Apply(p) => p,
        other => panic!("unexpected {:?}", other),
    };
    assert_eq!(text(&location), "/profiles/work");
    let target = dir("/repo");
    let written = config_file_for(&target);
    assert_eq!(text(&written), "/repo/.git/.gitconf/profile");

    // The cascade from the target and from below it now finds the pointer.
    for start in ["/repo", "/repo/sub"] {
        let c = config_candidates(&dir(start));
        let probes: Vec<Probe> = c
            .iter()
            .map(|p| if p.same_as(&written) { Probe::Found(text(&location)) } else { Probe::Missing })
            .collect();
        let loaded = resolve_cascade(&c, &probes).unwrap();
        assert_eq!(text(loaded.source.as_ref().unwrap()), "/repo/.git/.gitconf/profile");
        assert_eq!(loaded.config.profile.as_deref(), Some("/profiles/work"));
        if start == "/repo" {
            assert!(profile_applied(&target, &loaded.source));
            // Applying the same profile again finds the same file.
            assert!(profile_applied(&target, &loaded.source));
        }
    }
}

#[test]
fn set_profile_at_root_is_not_confirmed() {
    let root = DirPath::root();
    let written = config_file_for(&root);
    let c = config_candidates(&root);
    let probes: Vec<Probe> = c
        .iter()
        .map(|p| if p.same_as(&written) { Probe::Found("/profiles/x".to_string()) } else { Probe::Missing })
        .collect();
    let loaded = resolve_cascade(&c, &probes).unwrap();
    assert!(!profile_applied(&root, &loaded.source));
    assert!(!profile_applied(&dir("/repo"), &None));
}

#[test]
fn first_use_with_no_profiles_creates_marker_then_stays_quiet() {
    let config = Configuration::standard();
    let reg = registry(&[]);
    assert!(matches!(first_use_step(&config, true, false, reg.len()), FirstUseAction::CreateMarker));
    // Next invocation: the marker is there.
    assert!(matches!(first_use_step(&config, true, true, reg.len()), FirstUseAction::Proceed));
}

#[test]
fn first_use_offers_picker_only_when_enabled_in_fresh_repo() {
    let mut config = Configuration::standard();
    assert!(matches!(first_use_step(&config, true, false, 2), FirstUseAction::OfferPicker));
    assert!(matches!(first_use_step(&config, false, false, 2), FirstUseAction::Proceed));
    assert!(matches!(first_use_step(&config, true, true, 2), FirstUseAction::Proceed));
    config.interactive = false;
    assert!(matches!(first_use_step(&config, true, false, 2), FirstUseAction::Proceed));
    config.interactive = true;
    config.select_profile_on_first_use = false;
    assert!(matches!(first_use_step(&config, true, false, 2), FirstUseAction::Proceed));
}

#[test]
fn first_use_after_picker() {
    let reg = registry(&["work", "home"]);
    assert!(matches!(first_use_after_choice(&reg, None), FirstUseAction::CreateMarker));
    match first_use_after_choice(&reg, Some("home".to_string())) {
        FirstUseAction::Apply(p) => assert_eq!(text(&p), "/profiles/home"),
        other => panic!("unexpected {:?}", other),
    }
    match first_use_after_choice(&reg, Some("gone".to_string())) {
        FirstUseAction::Abort(FlowError::NotFound(n)) => assert_eq!(n, "gone"),
        other => panic!("unexpected {:?}", other),
    }
    assert!(matches!(first_use_after_apply(true), FirstUseAction::Proceed));
    assert!(matches!(first_use_after_apply(false), FirstUseAction::Abort(FlowError::ApplyFailed)));
}

#[test]
fn set_profile_command_errors() {
    let mut config = Configuration::standard();
    let empty = registry(&[]);
    assert!(matches!(plan_set_profile(&config, &empty, Some("work".to_string())), Err(CommandError::NoProfiles)));
    let reg = registry(&["work"]);
    assert!(matches!(plan_set_profile(&config, &reg, None), Ok(SetProfileRequest::Pick)));
    match plan_set_profile(&config, &reg, Some("home".to_string())) {
        Err(CommandError::NotFound(n)) => assert_eq!(n, "home"),
        other => panic!("unexpected {:?}", other),
    }
    config.interactive = false;
    assert!(matches!(plan_set_profile(&config, &reg, None), Err(CommandError::NotSelected)));
    assert!(matches!(choose_profile(&reg, None), Err(CommandError::NotSelected)));
    assert_eq!(text(&choose_profile(&reg, Some("work".to_string())).unwrap()), "/profiles/work");
}
