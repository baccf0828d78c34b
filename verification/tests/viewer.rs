use dkb::viewer::{
    candidate_viewer_paths, detect_default_viewer, open_command_args, resolve_viewer_path,
    ViewerPreference,
};

fn existing(paths: &[String]) -> Vec<bool> {
    paths.iter().map(|p| std::path::Path::new(p).exists()).collect()
}

#[test]
fn test_viewer_preference_default() {
    assert_eq!(ViewerPreference::default(), ViewerPreference::Auto);
}

#[test]
fn test_viewer_custom_path() {
    let custom = ViewerPreference::Custom("/Applications/Marked 2.app".to_string());
    assert_eq!(
        resolve_viewer_path(&custom, None),
        Some("/Applications/Marked 2.app".to_string())
    );
}

#[test]
fn test_viewer_priority_ordering() {
    let candidates = candidate_viewer_paths(None);
    let detected = detect_default_viewer(&candidates, &existing(&candidates));
    let pref_auto = ViewerPreference::Auto;
    let resolved = resolve_viewer_path(&pref_auto, detected.clone());
    assert_eq!(resolved, detected);

    if let Some(path) = resolved {
        assert!(path.ends_with(".app"));
        assert!(std::path::Path::new(&path).exists());
    }
}

#[test]
fn candidate_paths_in_order() {
    assert_eq!(
        candidate_viewer_paths(None),
        vec!["/Applications/Marked.app", "/Applications/Marked 2.app", "/Applications/MD-Viewer.app"]
    );
    assert_eq!(
        candidate_viewer_paths(Some("/Users/me")),
        vec![
            "/Applications/Marked.app",
            "/Users/me/Applications/Marked.app",
            "/Applications/Marked 2.app",
            "/Users/me/Applications/Marked 2.app",
            "/Applications/MD-Viewer.app",
            "/Users/me/Applications/MD-Viewer.app",
        ]
    );
}

#[test]
fn detect_picks_first_existing_candidate() {
    let c: Vec<String> = vec!["a".into(), "b".into(), "c".into()];
    assert_eq!(detect_default_viewer(&c, &vec![false, true, true]), Some("b".to_string()));
    assert_eq!(detect_default_viewer(&c, &vec![false, false, false]), None);
    let custom = ViewerPreference::Custom("x.app".to_string());
    assert_eq!(resolve_viewer_path(&custom, Some("b".to_string())), Some("x.app".to_string()));
}

#[test]
fn test_build_open_command_with_custom_viewer() {
    let args = open_command_args("/tmp/test.md", Some("/Applications/Marked 2.app"));
    assert_eq!(args, vec!["-a", "/Applications/Marked 2.app", "/tmp/test.md"]);
}

#[test]
fn test_build_open_command_with_no_viewer() {
    let args = open_command_args("/tmp/test.md", None);
    assert_eq!(args, vec!["/tmp/test.md"]);
}
