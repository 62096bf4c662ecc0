use sy::streaming::paths::{
    components, has_prefix, normalize, normalize_path, validate_path, validate_symlink_target,
    Component, PathError,
};

fn name(s: &str) -> Component {
    Component::Normal(s.as_bytes().to_vec())
}

#[test]
fn unsafe_paths_are_rejected() {
    assert_eq!(validate_path("/root", ""), Err(PathError::Empty));
    assert_eq!(validate_path("/root", "/abs"), Err(PathError::Absolute));
    assert_eq!(validate_path("/root", "a/../../b"), Err(PathError::Traversal));
    assert_eq!(validate_path("/root", ".."), Err(PathError::Traversal));
    assert_eq!(validate_path("/root", "a/../b"), Err(PathError::Traversal));
    assert_eq!(validate_path("/root", "../evil"), Err(PathError::Traversal));
}

#[test]
fn safe_paths_are_joined_to_the_root() {
    assert_eq!(validate_path("/root", "a"), Ok("/root/a".to_string()));
    assert_eq!(validate_path("/root", "a/b"), Ok("/root/a/b".to_string()));
    assert_eq!(validate_path("/root", "a/./b"), Ok("/root/a/./b".to_string()));
    assert_eq!(validate_path("/root/", "a"), Ok("/root/a".to_string()));
    assert_eq!(validate_path("", "a"), Ok("a".to_string()));
    assert_eq!(validate_path("rel/root", "x..y"), Ok("rel/root/x..y".to_string()));
}

#[test]
fn accepted_paths_lie_under_the_normalized_root() {
    let root = normalize_path("/srv/./data/");
    assert_eq!(root, vec![Component::RootDir, name("srv"), name("data")]);
    for relative in vec!["a", "a/b", "a/./b"] {
        let full = validate_path("/srv/./data/", relative).unwrap();
        let normalized = normalize_path(&full);
        assert!(has_prefix(&normalized, &root));
    }
    assert_eq!(
        normalize_path("/srv/./data/a/./b"),
        vec![Component::RootDir, name("srv"), name("data"), name("a"), name("b")]
    );
}

#[test]
fn components_follow_the_separators() {
    assert_eq!(components(b""), vec![]);
    assert_eq!(components(b"/"), vec![Component::RootDir]);
    assert_eq!(components(b"a//b/"), vec![name("a"), name("b")]);
    assert_eq!(components(b"./a"), vec![Component::CurDir, name("a")]);
    assert_eq!(components(b"a/./b"), vec![name("a"), name("b")]);
    assert_eq!(components(b"/./a"), vec![Component::RootDir, name("a")]);
    assert_eq!(
        components(b"../a/.."),
        vec![Component::ParentDir, name("a"), Component::ParentDir]
    );
    assert_eq!(components(b"..."), vec![name("...")]);
}

#[test]
fn normal_form_folds_dots() {
    let folded = normalize(&components(b"/a/b/../c/./d"));
    assert_eq!(folded, vec![Component::RootDir, name("a"), name("c"), name("d")]);
    // The root has no parent, and neither has nothing.
    assert_eq!(normalize(&components(b"/../a")), vec![Component::RootDir, name("a")]);
    assert_eq!(normalize(&components(b"../a")), vec![name("a")]);
    assert_eq!(normalize(&components(b"a/..")), vec![]);
}

#[test]
fn prefixes_are_whole_components() {
    let path = components(b"/root/abc");
    assert!(has_prefix(&path, &components(b"/root")));
    assert!(has_prefix(&path, &components(b"")));
    assert!(!has_prefix(&path, &components(b"/roo")));
    assert!(!has_prefix(&path, &components(b"root")));
    assert!(!has_prefix(&components(b"/root"), &path));
}

#[test]
fn symlink_targets_are_confined() {
    assert_eq!(
        validate_symlink_target("/root", "/root/link", "/etc/passwd"),
        Err(PathError::AbsoluteTarget)
    );
    assert_eq!(
        validate_symlink_target("/root", "/root/link", "../outside"),
        Err(PathError::TargetEscapesRoot)
    );
    assert_eq!(
        validate_symlink_target("/root", "/root/d/link", "../../../x"),
        Err(PathError::TargetEscapesRoot)
    );
    assert_eq!(validate_symlink_target("/root", "/root/d/link", "../sibling"), Ok(()));
    assert_eq!(validate_symlink_target("/root", "/root/link", "target.txt"), Ok(()));
    assert_eq!(validate_symlink_target("/root", "/root/link", "./d/t"), Ok(()));
    // A link without a parent directory is not looked at further.
    assert_eq!(validate_symlink_target("/root", "/", "../x"), Ok(()));
}
