use garden_sea::cleanup::{is_directory_used, may_remove, sweep_candidates, Probe};

fn path(parts: &[&str]) -> Vec<String> {
    parts.iter().map(|part| part.to_string()).collect()
}

fn texts(names: &[&str]) -> Vec<String> {
    names.iter().map(|name| name.to_string()).collect()
}

#[test]
fn current_generation_is_no_candidate() {
    let stale = texts(&["1-a.r", "2-b.r", "3-c.r"]);
    assert_eq!(sweep_candidates(&stale, "2-b.r"), texts(&["1-a.r", "3-c.r"]));
    assert_eq!(sweep_candidates(&stale, "4-d.r"), stale);
    assert_eq!(sweep_candidates(&texts(&["1-a.r", "1-a.r"]), "1-a.r"), Vec::<String>::new());
    assert_eq!(sweep_candidates(&[], "1-a.r"), Vec::<String>::new());
}

#[test]
fn candidates_keep_their_order() {
    let stale = texts(&["3-c.r", "1-a.r", "2-b.r", "1-a.r"]);
    assert_eq!(sweep_candidates(&stale, "2-b.r"), texts(&["3-c.r", "1-a.r", "1-a.r"]));
}

#[test]
fn running_binary_keeps_its_generation() {
    let dir = path(&["/", "home", "u", "garden", "1-a.r"]);
    let images = vec![
        path(&["/", "usr", "bin", "bash"]),
        path(&["/", "home", "u", "garden", "1-a.r", "bin", "node"]),
    ];
    assert!(is_directory_used(&dir, &images));
    assert!(!may_remove(&dir, &Probe::Images(images)));
}

#[test]
fn generation_is_removed_once_its_process_is_gone() {
    let dir = path(&["/", "home", "u", "garden", "1-a.r"]);
    let running = vec![
        path(&["/", "usr", "bin", "bash"]),
        path(&["/", "home", "u", "garden", "1-a.r", "bin", "node"]),
    ];
    assert!(!may_remove(&dir, &Probe::Images(running)));
    let gone = vec![path(&["/", "usr", "bin", "bash"])];
    assert!(!is_directory_used(&dir, &gone));
    assert!(may_remove(&dir, &Probe::Images(gone)));
}

#[test]
fn use_is_decided_by_whole_components() {
    let dir = path(&["/", "garden", "1-a.r"]);
    assert!(!is_directory_used(&dir, &[path(&["/", "garden", "1-a.r2", "bin", "node"])]));
    assert!(!is_directory_used(&dir, &[path(&["/", "garden", "2-b.r", "bin", "node"])]));
    assert!(!is_directory_used(&dir, &[path(&["/", "garden"])]));
    assert!(!is_directory_used(&dir, &[path(&["garden", "1-a.r", "bin", "node"])]));
    assert!(is_directory_used(&dir, &[path(&["/", "garden", "1-a.r"])]));
    assert!(is_directory_used(&dir, &[path(&["/", "garden", "1-a.r", "x"])]));
    assert!(!is_directory_used(&dir, &[path(&[])]));
    assert!(!is_directory_used(&dir, &[]));
}

#[test]
fn every_image_lies_inside_the_empty_path() {
    assert!(is_directory_used(&[], &[path(&["/", "usr", "bin", "bash"])]));
    assert!(!is_directory_used(&[], &[]));
}

#[test]
fn rename_probe_decides_removal() {
    let dir = path(&["C:", "garden", "1-a.r"]);
    assert!(may_remove(&dir, &Probe::Renamed(true)));
    assert!(!may_remove(&dir, &Probe::Renamed(false)));
}

#[test]
fn failed_probe_keeps_the_directory() {
    let dir = path(&["/", "garden", "1-a.r"]);
    assert!(!may_remove(&dir, &Probe::Failed));
}

#[test]
fn no_process_at_all_allows_removal() {
    let dir = path(&["/", "garden", "1-a.r"]);
    assert!(may_remove(&dir, &Probe::Images(vec![])));
}
