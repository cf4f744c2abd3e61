use garden_sea::artifacts::{
    extracts_needed, is_extract_needed, marker_file_name, marker_files, GardenArtifact, Marker,
};

const BIN: GardenArtifact = GardenArtifact { name: "bin", archive: b"bin-archive", sha256: b"0123" };
const NATIVE: GardenArtifact =
    GardenArtifact { name: "native", archive: b"native-archive", sha256: b"4567" };
const STATIC: GardenArtifact =
    GardenArtifact { name: "static", archive: b"static-archive", sha256: b"89ab" };
const SOURCE: GardenArtifact =
    GardenArtifact { name: "source", archive: b"source-archive", sha256: b"cdef" };

fn store() -> Vec<GardenArtifact> {
    vec![BIN, NATIVE, STATIC, SOURCE]
}

fn good_markers() -> Vec<Marker> {
    vec![
        Marker::Present(b"0123".to_vec()),
        Marker::Present(b"4567".to_vec()),
        Marker::Present(b"89ab".to_vec()),
        Marker::Present(b"cdef".to_vec()),
    ]
}

#[test]
fn marker_file_is_named_after_the_artifact() {
    assert_eq!(marker_file_name(&BIN), "bin.sha256sum");
    assert_eq!(marker_file_name(&SOURCE), "source.sha256sum");
}

#[test]
fn marker_files_follow_the_store() {
    assert_eq!(
        marker_files(&store()),
        vec!["bin.sha256sum", "native.sha256sum", "static.sha256sum", "source.sha256sum"]
    );
    assert_eq!(marker_files(&[]), Vec::<String>::new());
}

#[test]
fn matching_marker_needs_no_extraction() {
    assert!(!is_extract_needed(&Marker::Present(b"0123".to_vec()), &BIN));
}

#[test]
fn missing_marker_needs_extraction() {
    assert!(is_extract_needed(&Marker::Missing, &BIN));
}

#[test]
fn unreadable_marker_needs_extraction() {
    assert!(is_extract_needed(&Marker::Unreadable, &BIN));
}

#[test]
fn marker_with_other_bytes_needs_extraction() {
    assert!(is_extract_needed(&Marker::Present(b"0124".to_vec()), &BIN));
    assert!(is_extract_needed(&Marker::Present(b"012".to_vec()), &BIN));
    assert!(is_extract_needed(&Marker::Present(b"01234".to_vec()), &BIN));
    assert!(is_extract_needed(&Marker::Present(Vec::new()), &BIN));
    assert!(is_extract_needed(&Marker::Present(b"4567".to_vec()), &BIN));
}

#[test]
fn empty_digest_matches_empty_marker_only() {
    let empty = GardenArtifact { name: "empty", archive: b"", sha256: b"" };
    assert!(!is_extract_needed(&Marker::Present(Vec::new()), &empty));
    assert!(is_extract_needed(&Marker::Present(vec![0]), &empty));
    assert!(is_extract_needed(&Marker::Missing, &empty));
}

#[test]
fn all_markers_matching_needs_no_extraction() {
    assert!(!extracts_needed(&store(), &good_markers()));
}

#[test]
fn one_spoilt_marker_needs_extraction() {
    for spoilt in 0..4 {
        for bad in [Marker::Missing, Marker::Unreadable, Marker::Present(b"xxxx".to_vec())] {
            let mut markers = good_markers();
            markers[spoilt] = bad;
            assert!(extracts_needed(&store(), &markers));
        }
    }
}

#[test]
fn markers_are_matched_by_position() {
    let mut markers = good_markers();
    markers.swap(0, 1);
    assert!(extracts_needed(&store(), &markers));
}

#[test]
fn too_few_markers_need_extraction() {
    let mut markers = good_markers();
    markers.pop();
    assert!(extracts_needed(&store(), &markers));
    assert!(extracts_needed(&store(), &[]));
}

#[test]
fn further_markers_are_ignored() {
    let mut markers = good_markers();
    markers.push(Marker::Missing);
    assert!(!extracts_needed(&store(), &markers));
}

#[test]
fn no_artifacts_need_no_extraction() {
    assert!(!extracts_needed(&[], &[]));
    assert!(!extracts_needed(&[], &[Marker::Missing]));
}
