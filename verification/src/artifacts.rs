//! Embedded artifacts and the digest markers that record their extraction.

use vstd::prelude::*;
use vstd::string::StringExecFns;

verus! {

/// One embedded archive: its short name, the compressed payload, and the
/// digest the payload was built with.
#[derive(Copy, Clone)]
pub struct GardenArtifact {
    pub name: &'static str,
    pub archive: &'static [u8],
    pub sha256: &'static [u8],
}

/// An artifact as a mathematical value.
pub struct ArtifactModel {
    pub name: Seq<char>,
    pub archive: Seq<u8>,
    pub digest: Seq<u8>,
}

impl View for GardenArtifact {
    type V = ArtifactModel;

    open spec fn view(&self) -> ArtifactModel {
        ArtifactModel { name: self.name@, archive: self.archive@, digest: self.sha256@ }
    }
}

impl DeepView for GardenArtifact {
    type V = ArtifactModel;

    open spec fn deep_view(&self) -> ArtifactModel {
        self@
    }
}

/// What was found where an artifact's digest marker is expected inside a
/// generation directory.
#[derive(Debug, Clone, PartialEq, Eq)]
pub enum Marker {
    /// No marker file exists.
    Missing,
    /// A marker file exists but could not be read.
    Unreadable,
    /// The marker file holds these bytes.
    Present(Vec<u8>),
}

/// A marker as a mathematical value.
pub enum MarkerModel {
    Missing,
    Unreadable,
    Present(Seq<u8>),
}

impl View for Marker {
    type V = MarkerModel;

    open spec fn view(&self) -> MarkerModel {
        match self {
            Marker::Missing => MarkerModel::Missing,
            Marker::Unreadable => MarkerModel::Unreadable,
            Marker::Present(bytes) => MarkerModel::Present(bytes@),
        }
    }
}

impl DeepView for Marker {
    type V = MarkerModel;

    open spec fn deep_view(&self) -> MarkerModel {
        self@
    }
}

/// A marker vouches for an artifact exactly when it holds the artifact's
/// digest, byte for byte.
pub open spec fn marker_matches(marker: MarkerModel, artifact: ArtifactModel) -> bool {
    marker == MarkerModel::Present(artifact.digest)
}

/// The artifact at position `i` has a matching marker at the same position.
/// An artifact for which no marker was reported counts as unmarked.
pub open spec fn marked_at(artifacts: Seq<ArtifactModel>, markers: Seq<MarkerModel>, i: int) -> bool {
    i < markers.len() && marker_matches(markers[i], artifacts[i])
}

/// A generation is valid when every artifact, in order, has a matching marker.
pub open spec fn generation_valid(artifacts: Seq<ArtifactModel>, markers: Seq<MarkerModel>) -> bool {
    forall|i: int| 0 <= i < artifacts.len() ==> #[trigger] marked_at(artifacts, markers, i)
}

/// What is appended to an artifact's name to name its marker file.
pub open spec fn marker_extension() -> Seq<char> {
    ".sha256sum"@
}

/// The name of the marker file of the artifact called `artifact`.
pub open spec fn marker_file_name_of(artifact: Seq<char>) -> Seq<char> {
    artifact + marker_extension()
}

/// The names of the marker files of `artifacts`, in the order of the
/// artifacts.
pub open spec fn marker_files_of(artifacts: Seq<ArtifactModel>) -> Seq<Seq<char>> {
    artifacts.map_values(|artifact: ArtifactModel| marker_file_name_of(artifact.name))
}

/// Compares two byte strings.
fn bytes_equal(a: &[u8], b: &[u8]) -> (same: bool)
    ensures
        same == (a@ == b@),
{
    if a.len() != b.len() {
        return false;
    }
    let mut i: usize = 0;
    while i < a.len()
        invariant
            a.len() == b.len(),
            i <= a.len(),
            forall|j: int| 0 <= j < i ==> a@[j] == b@[j],
        decreases a.len() - i,
    {
        if a[i] != b[i] {
            return false;
        }
        i += 1;
    }
    assert(a@ =~= b@);
    true
}

/// The name of the file, inside a generation directory, that records the
/// digest of `artifact` once it has been extracted there.
pub fn marker_file_name(artifact: &GardenArtifact) -> (file: String)
    ensures
        file@ == marker_file_name_of(artifact@.name),
{
    let mut file = String::from_str(artifact.name);
    file.append(".sha256sum");
    file
}

/// The names of the marker files of `artifacts`, in the order of the
/// artifacts.
pub fn marker_files(artifacts: &[GardenArtifact]) -> (files: Vec<String>)
    ensures
        files.deep_view() == marker_files_of(artifacts.deep_view()),
{
    let mut files: Vec<String> = Vec::new();
    let mut i: usize = 0;
    while i < artifacts.len()
        invariant
            i <= artifacts.len(),
            files.deep_view() == marker_files_of(artifacts.deep_view()).take(i as int),
        decreases artifacts.len() - i,
    {
        let ghost before = files.deep_view();
        files.push(marker_file_name(&artifacts[i]));
        assert(files.deep_view() =~= before.push(marker_files_of(artifacts.deep_view())[i as int]));
        i += 1;
    }
    assert(files.deep_view() =~= marker_files_of(artifacts.deep_view()));
    files
}

/// Whether one artifact has to be extracted again, given what was found in
/// place of its marker. A missing or unreadable marker asks for extraction;
/// so does a marker with any other content than the artifact's digest.
pub fn is_extract_needed(marker: &Marker, artifact: &GardenArtifact) -> (needed: bool)
    ensures
        needed == !marker_matches(marker@, artifact@),
{
    match marker {
        Marker::Missing => true,
        Marker::Unreadable => true,
        Marker::Present(bytes) => !bytes_equal(bytes.as_slice(), artifact.sha256),
    }
}

/// Whether a generation needs a fresh extraction: `markers[i]` is what was
/// found for `artifacts[i]`.
pub fn extracts_needed(artifacts: &[GardenArtifact], markers: &[Marker]) -> (needed: bool)
    ensures
        needed == !generation_valid(artifacts.deep_view(), markers.deep_view()),
{
    let mut i: usize = 0;
    while i < artifacts.len()
        invariant
            i <= artifacts.len(),
            forall|j: int|
                0 <= j < i ==> #[trigger] marked_at(
                    artifacts.deep_view(),
                    markers.deep_view(),
                    j,
                ),
        decreases artifacts.len() - i,
    {
        if i >= markers.len() || is_extract_needed(&markers[i], &artifacts[i]) {
            assert(!marked_at(artifacts.deep_view(), markers.deep_view(), i as int));
            return true;
        }
        i += 1;
    }
    false
}

/// One artifact without a matching marker is enough to ask for a fresh
/// extraction, whether its marker is missing, unreadable, or holds anything
/// but the artifact's digest.
pub proof fn lemma_one_spoilt_marker_invalidates(
    artifacts: Seq<ArtifactModel>,
    markers: Seq<MarkerModel>,
    i: int,
)
    requires
        0 <= i < artifacts.len(),
        i >= markers.len() || markers[i] is Missing || markers[i] is Unreadable || (
        markers[i] matches MarkerModel::Present(bytes) && bytes != artifacts[i].digest),
    ensures
        !generation_valid(artifacts, markers),
{
    assert(!marked_at(artifacts, markers, i));
}

} // verus!
