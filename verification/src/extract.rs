//! The extraction cache: which generation directory a launch runs from.
//!
//! The cache is a state machine. It never touches the file system itself: it
//! names the next action, the caller performs it and reports the outcome as an
//! event, and the machine answers with the next action, until it selects a
//! generation or gives up.

use crate::artifacts::{
    extracts_needed, generation_valid, marker_file_name, marker_file_name_of, marker_files,
    marker_files_of, ArtifactModel, GardenArtifact, Marker, MarkerModel,
};
use crate::listing::{
    find_existing_extract_dirs, latest_generation, older_generations, DirEntry, EntryModel,
};
use crate::names::{fresh_suffix, generation_name, generation_name_of, is_suffix, SUFFIX_LENGTH};
use vstd::prelude::*;
use vstd::slice::slice_to_vec;
use vstd::string::StringExecFns;

verus! {

/// Why a launch cannot get a generation directory.
#[derive(Debug, Clone, PartialEq, Eq)]
pub enum Failure {
    /// The root directory could not be created or listed.
    Setup,
    /// The directory of the new generation could not be created.
    CreateGeneration { generation: String },
    /// The archive of `artifact` could not be unpacked into `generation`.
    Unpack { artifact: String, generation: String },
    /// The digest marker of `artifact` could not be written into `generation`.
    WriteMarker { artifact: String, generation: String },
    /// An event arrived that answers no action the machine had asked for.
    OutOfTurn,
}

/// A failure as a mathematical value.
pub enum FailureModel {
    Setup,
    CreateGeneration { generation: Seq<char> },
    Unpack { artifact: Seq<char>, generation: Seq<char> },
    WriteMarker { artifact: Seq<char>, generation: Seq<char> },
    OutOfTurn,
}

impl View for Failure {
    type V = FailureModel;

    open spec fn view(&self) -> FailureModel {
        match self {
            Failure::Setup => FailureModel::Setup,
            Failure::CreateGeneration { generation } => FailureModel::CreateGeneration {
                generation: generation@,
            },
            Failure::Unpack { artifact, generation } => FailureModel::Unpack {
                artifact: artifact@,
                generation: generation@,
            },
            Failure::WriteMarker { artifact, generation } => FailureModel::WriteMarker {
                artifact: artifact@,
                generation: generation@,
            },
            Failure::OutOfTurn => FailureModel::OutOfTurn,
        }
    }
}

impl FailureModel {
    /// The failure in words, with the artifact and the generation that it
    /// concerns.
    pub open spec fn message(self) -> Seq<char> {
        match self {
            FailureModel::Setup => "Failed to prepare the root directory"@,
            FailureModel::CreateGeneration { generation } => "Failed to create generation "@
                + generation,
            FailureModel::Unpack { artifact, generation } => "Failed to extract archive "@
                + artifact + " into "@ + generation,
            FailureModel::WriteMarker { artifact, generation } => "Failed to write checksum file of "@
                + artifact + " into "@ + generation,
            FailureModel::OutOfTurn => "Event out of turn"@,
        }
    }
}

impl Failure {
    /// The failure in words, with the artifact and the generation that it
    /// concerns.
    pub fn message(&self) -> (text: String)
        ensures
            text@ == self@.message(),
    {
        match self {
            Failure::Setup => String::from_str("Failed to prepare the root directory"),
            Failure::CreateGeneration { generation } => {
                let mut text = String::from_str("Failed to create generation ");
                text.append(generation.as_str());
                text
            },
            Failure::Unpack { artifact, generation } => {
                let mut text = String::from_str("Failed to extract archive ");
                text.append(artifact.as_str());
                text.append(" into ");
                text.append(generation.as_str());
                text
            },
            Failure::WriteMarker { artifact, generation } => {
                let mut text = String::from_str("Failed to write checksum file of ");
                text.append(artifact.as_str());
                text.append(" into ");
                text.append(generation.as_str());
                text
            },
            Failure::OutOfTurn => String::from_str("Event out of turn"),
        }
    }
}

/// Where the selection of a generation stands.
#[derive(Debug, Clone, PartialEq, Eq)]
pub enum CacheState {
    /// Nothing has been asked for yet.
    Start,
    /// The root directory is being created.
    EnsuringRoot,
    /// The root directory is being listed.
    Listing,
    /// The markers of the latest generation are being read. `older` are the
    /// generations that sort before it.
    Probing { latest: String, older: Vec<String> },
    /// A new generation is needed and the clock is being read for its name.
    /// `stale` are the generations it will supersede.
    Timing { stale: Vec<String> },
    /// The directory of the new generation `name` is being created.
    Creating { name: String, stale: Vec<String> },
    /// The artifact at `index` is being unpacked into the new generation.
    Unpacking { name: String, stale: Vec<String>, index: usize },
    /// The marker of the artifact at `index` is being written.
    Marking { name: String, stale: Vec<String>, index: usize },
    /// A generation was selected, or the selection was given up.
    Finished,
}

/// A state as a mathematical value.
pub enum StateModel {
    Start,
    EnsuringRoot,
    Listing,
    Probing { latest: Seq<char>, older: Seq<Seq<char>> },
    Timing { stale: Seq<Seq<char>> },
    Creating { name: Seq<char>, stale: Seq<Seq<char>> },
    Unpacking { name: Seq<char>, stale: Seq<Seq<char>>, index: nat },
    Marking { name: Seq<char>, stale: Seq<Seq<char>>, index: nat },
    Finished,
}

impl View for CacheState {
    type V = StateModel;

    open spec fn view(&self) -> StateModel {
        match self {
            CacheState::Start => StateModel::Start,
            CacheState::EnsuringRoot => StateModel::EnsuringRoot,
            CacheState::Listing => StateModel::Listing,
            CacheState::Probing { latest, older } => StateModel::Probing {
                latest: latest@,
                older: older.deep_view(),
            },
            CacheState::Timing { stale } => StateModel::Timing { stale: stale.deep_view() },
            CacheState::Creating { name, stale } => StateModel::Creating {
                name: name@,
                stale: stale.deep_view(),
            },
            CacheState::Unpacking { name, stale, index } => StateModel::Unpacking {
                name: name@,
                stale: stale.deep_view(),
                index: *index as nat,
            },
            CacheState::Marking { name, stale, index } => StateModel::Marking {
                name: name@,
                stale: stale.deep_view(),
                index: *index as nat,
            },
            CacheState::Finished => StateModel::Finished,
        }
    }
}

/// What the caller reports back to the machine.
#[derive(Debug, Clone, PartialEq, Eq)]
pub enum CacheEvent {
    /// The launch begins.
    Begin,
    /// The action asked for was carried out.
    Succeeded,
    /// The action asked for could not be carried out.
    Failed,
    /// The directory to create exists already.
    AlreadyExists,
    /// The entries of the root directory.
    Listed(Vec<DirEntry>),
    /// What was found for the marker of each artifact, in the order of the
    /// artifacts.
    Markers(Vec<Marker>),
    /// The time, in whole seconds since the epoch.
    Clock(u64),
}

/// An event as a mathematical value.
pub enum EventModel {
    Begin,
    Succeeded,
    Failed,
    AlreadyExists,
    Listed(Seq<EntryModel>),
    Markers(Seq<MarkerModel>),
    Clock(nat),
}

impl View for CacheEvent {
    type V = EventModel;

    open spec fn view(&self) -> EventModel {
        match self {
            CacheEvent::Begin => EventModel::Begin,
            CacheEvent::Succeeded => EventModel::Succeeded,
            CacheEvent::Failed => EventModel::Failed,
            CacheEvent::AlreadyExists => EventModel::AlreadyExists,
            CacheEvent::Listed(entries) => EventModel::Listed(entries.deep_view()),
            CacheEvent::Markers(markers) => EventModel::Markers(markers.deep_view()),
            CacheEvent::Clock(secs) => EventModel::Clock(*secs as nat),
        }
    }
}

/// What the machine asks the caller to do next.
#[derive(Debug, Clone, PartialEq, Eq)]
pub enum CacheAction {
    /// Create the root directory unless it exists; report `Succeeded` or
    /// `Failed`.
    EnsureRoot,
    /// List the root directory; report `Listed` or `Failed`.
    ListRoot,
    /// Read inside `generation` the marker files called `files`; report
    /// `Markers`, with what was found for each, in the same order.
    ReadMarkers { generation: String, files: Vec<String> },
    /// Read the clock; report `Clock`.
    ReadClock,
    /// Create the directory `name` inside the root; report `Succeeded`,
    /// `AlreadyExists` if something of that name is there, or `Failed`.
    CreateGeneration { name: String },
    /// Unpack the archive of the artifact at position `artifact` into
    /// `generation`; report `Succeeded` or `Failed`.
    Unpack { generation: String, artifact: usize },
    /// Write the bytes `digest` into the file called `file` inside
    /// `generation`; report `Succeeded` or `Failed`.
    WriteMarker { generation: String, file: String, digest: Vec<u8> },
    /// Launch from `current`, and hand `stale` to the sweeper. Nothing is
    /// left to report.
    Select { current: String, stale: Vec<String> },
    /// Give the launch up. Nothing is left to report.
    Abort { failure: Failure },
}

/// An action as a mathematical value.
pub enum ActionModel {
    EnsureRoot,
    ListRoot,
    ReadMarkers { generation: Seq<char>, files: Seq<Seq<char>> },
    ReadClock,
    CreateGeneration { name: Seq<char> },
    Unpack { generation: Seq<char>, artifact: nat },
    WriteMarker { generation: Seq<char>, file: Seq<char>, digest: Seq<u8> },
    Select { current: Seq<char>, stale: Seq<Seq<char>> },
    Abort { failure: FailureModel },
}

impl View for CacheAction {
    type V = ActionModel;

    open spec fn view(&self) -> ActionModel {
        match self {
            CacheAction::EnsureRoot => ActionModel::EnsureRoot,
            CacheAction::ListRoot => ActionModel::ListRoot,
            CacheAction::ReadMarkers { generation, files } => ActionModel::ReadMarkers {
                generation: generation@,
                files: files.deep_view(),
            },
            CacheAction::ReadClock => ActionModel::ReadClock,
            CacheAction::CreateGeneration { name } => ActionModel::CreateGeneration { name: name@ },
            CacheAction::Unpack { generation, artifact } => ActionModel::Unpack {
                generation: generation@,
                artifact: *artifact as nat,
            },
            CacheAction::WriteMarker { generation, file, digest } => ActionModel::WriteMarker {
                generation: generation@,
                file: file@,
                digest: digest@,
            },
            CacheAction::Select { current, stale } => ActionModel::Select {
                current: current@,
                stale: stale.deep_view(),
            },
            CacheAction::Abort { failure } => ActionModel::Abort { failure: failure@ },
        }
    }
}

/// The machine gives up with `failure`.
pub open spec fn abort(failure: FailureModel) -> (StateModel, ActionModel) {
    (StateModel::Finished, ActionModel::Abort { failure })
}

/// The new generation `name` has its first `index` artifacts in place: the
/// next one is unpacked, or, when none is left, the generation is selected.
pub open spec fn unpack_from(
    artifacts: Seq<ArtifactModel>,
    name: Seq<char>,
    stale: Seq<Seq<char>>,
    index: nat,
) -> (StateModel, ActionModel) {
    if index < artifacts.len() {
        (
            StateModel::Unpacking { name, stale, index },
            ActionModel::Unpack { generation: name, artifact: index },
        )
    } else {
        (StateModel::Finished, ActionModel::Select { current: name, stale })
    }
}

/// The machine's answer to `event` in `state`: the state it moves to and the
/// action it asks for. `suffix` is the random part of the name that a new
/// generation gets, should this step name one.
pub open spec fn next(
    artifacts: Seq<ArtifactModel>,
    state: StateModel,
    event: EventModel,
    suffix: Seq<char>,
) -> (StateModel, ActionModel) {
    match (state, event) {
        (StateModel::Start, EventModel::Begin) => (
            StateModel::EnsuringRoot,
            ActionModel::EnsureRoot,
        ),
        (StateModel::EnsuringRoot, EventModel::Succeeded) => (
            StateModel::Listing,
            ActionModel::ListRoot,
        ),
        (StateModel::EnsuringRoot, EventModel::Failed) => abort(FailureModel::Setup),
        (StateModel::Listing, EventModel::Listed(entries)) => match latest_generation(entries) {
            Some(latest) => (
                StateModel::Probing { latest, older: older_generations(entries) },
                ActionModel::ReadMarkers { generation: latest, files: marker_files_of(artifacts) },
            ),
            None => (
                StateModel::Timing { stale: older_generations(entries) },
                ActionModel::ReadClock,
            ),
        },
        (StateModel::Listing, EventModel::Failed) => abort(FailureModel::Setup),
        (StateModel::Probing { latest, older }, EventModel::Markers(markers)) => {
            if generation_valid(artifacts, markers) {
                (StateModel::Finished, ActionModel::Select { current: latest, stale: older })
            } else {
                (StateModel::Timing { stale: older.push(latest) }, ActionModel::ReadClock)
            }
        },
        (StateModel::Timing { stale }, EventModel::Clock(secs)) => {
            let name = generation_name_of(secs, suffix);
            (StateModel::Creating { name, stale }, ActionModel::CreateGeneration { name })
        },
        (StateModel::Creating { name, stale }, EventModel::Succeeded) => unpack_from(
            artifacts,
            name,
            stale,
            0,
        ),
        (StateModel::Creating { name, stale }, EventModel::AlreadyExists) => (
            StateModel::Listing,
            ActionModel::ListRoot,
        ),
        (StateModel::Creating { name, stale }, EventModel::Failed) => abort(
            FailureModel::CreateGeneration { generation: name },
        ),
        (StateModel::Unpacking { name, stale, index }, EventModel::Succeeded) => {
            if index < artifacts.len() {
                (
                    StateModel::Marking { name, stale, index },
                    ActionModel::WriteMarker {
                        generation: name,
                        file: marker_file_name_of(artifacts[index as int].name),
                        digest: artifacts[index as int].digest,
                    },
                )
            } else {
                abort(FailureModel::OutOfTurn)
            }
        },
        (StateModel::Unpacking { name, stale, index }, EventModel::Failed) => {
            if index < artifacts.len() {
                abort(
                    FailureModel::Unpack {
                        artifact: artifacts[index as int].name,
                        generation: name,
                    },
                )
            } else {
                abort(FailureModel::OutOfTurn)
            }
        },
        (StateModel::Marking { name, stale, index }, EventModel::Succeeded) => {
            if index < artifacts.len() {
                unpack_from(artifacts, name, stale, index + 1)
            } else {
                abort(FailureModel::OutOfTurn)
            }
        },
        (StateModel::Marking { name, stale, index }, EventModel::Failed) => {
            if index < artifacts.len() {
                abort(
                    FailureModel::WriteMarker {
                        artifact: artifacts[index as int].name,
                        generation: name,
                    },
                )
            } else {
                abort(FailureModel::OutOfTurn)
            }
        },
        _ => abort(FailureModel::OutOfTurn),
    }
}

fn give_up(failure: Failure) -> (answer: (CacheState, CacheAction))
    ensures
        (answer.0@, answer.1@) == abort(failure@),
{
    (CacheState::Finished, CacheAction::Abort { failure })
}

fn unpack_next(
    artifacts: &[GardenArtifact],
    name: String,
    stale: Vec<String>,
    index: usize,
) -> (answer: (CacheState, CacheAction))
    ensures
        (answer.0@, answer.1@) == unpack_from(
            artifacts.deep_view(),
            name@,
            stale.deep_view(),
            index as nat,
        ),
{
    if index < artifacts.len() {
        let generation = name.clone();
        (
            CacheState::Unpacking { name, stale, index },
            CacheAction::Unpack { generation, artifact: index },
        )
    } else {
        (CacheState::Finished, CacheAction::Select { current: name, stale })
    }
}

/// The machine's answer to `event` in `state`, where a new generation, should
/// this step name one, gets the random part `suffix`.
pub fn advance(
    artifacts: &[GardenArtifact],
    state: CacheState,
    event: CacheEvent,
    suffix: &str,
) -> (answer: (CacheState, CacheAction))
    ensures
        (answer.0@, answer.1@) == next(artifacts.deep_view(), state@, event@, suffix@),
{
    match (state, event) {
        (CacheState::Start, CacheEvent::Begin) => (
            CacheState::EnsuringRoot,
            CacheAction::EnsureRoot,
        ),
        (CacheState::EnsuringRoot, CacheEvent::Succeeded) => (
            CacheState::Listing,
            CacheAction::ListRoot,
        ),
        (CacheState::EnsuringRoot, CacheEvent::Failed) => give_up(Failure::Setup),
        (CacheState::Listing, CacheEvent::Listed(entries)) => {
            let (found, older) = find_existing_extract_dirs(entries.as_slice());
            match found {
                Some(latest) => {
                    let generation = latest.clone();
                    let files = marker_files(artifacts);
                    (
                        CacheState::Probing { latest, older },
                        CacheAction::ReadMarkers { generation, files },
                    )
                },
                None => (CacheState::Timing { stale: older }, CacheAction::ReadClock),
            }
        },
        (CacheState::Listing, CacheEvent::Failed) => give_up(Failure::Setup),
        (CacheState::Probing { latest, older }, CacheEvent::Markers(markers)) => {
            if extracts_needed(artifacts, markers.as_slice()) {
                let ghost before = older.deep_view();
                let mut stale = older;
                let ghost last = latest@;
                stale.push(latest);
                assert(stale.deep_view() =~= before.push(last));
                (CacheState::Timing { stale }, CacheAction::ReadClock)
            } else {
                (CacheState::Finished, CacheAction::Select { current: latest, stale: older })
            }
        },
        (CacheState::Timing { stale }, CacheEvent::Clock(secs)) => {
            let name = generation_name(secs, suffix);
            let created = name.clone();
            (CacheState::Creating { name, stale }, CacheAction::CreateGeneration { name: created })
        },
        (CacheState::Creating { name, stale }, CacheEvent::Succeeded) => unpack_next(
            artifacts,
            name,
            stale,
            0,
        ),
        (CacheState::Creating { name, stale }, CacheEvent::AlreadyExists) => (
            CacheState::Listing,
            CacheAction::ListRoot,
        ),
        (CacheState::Creating { name, stale }, CacheEvent::Failed) => give_up(
            Failure::CreateGeneration { generation: name },
        ),
        (CacheState::Unpacking { name, stale, index }, CacheEvent::Succeeded) => {
            if index < artifacts.len() {
                let generation = name.clone();
                let file = marker_file_name(&artifacts[index]);
                let digest = slice_to_vec(artifacts[index].sha256);
                (
                    CacheState::Marking { name, stale, index },
                    CacheAction::WriteMarker { generation, file, digest },
                )
            } else {
                give_up(Failure::OutOfTurn)
            }
        },
        (CacheState::Unpacking { name, stale, index }, CacheEvent::Failed) => {
            if index < artifacts.len() {
                give_up(
                    Failure::Unpack {
                        artifact: artifacts[index].name.to_owned(),
                        generation: name,
                    },
                )
            } else {
                give_up(Failure::OutOfTurn)
            }
        },
        (CacheState::Marking { name, stale, index }, CacheEvent::Succeeded) => {
            if index < artifacts.len() {
                unpack_next(artifacts, name, stale, index + 1)
            } else {
                give_up(Failure::OutOfTurn)
            }
        },
        (CacheState::Marking { name, stale, index }, CacheEvent::Failed) => {
            if index < artifacts.len() {
                give_up(
                    Failure::WriteMarker {
                        artifact: artifacts[index].name.to_owned(),
                        generation: name,
                    },
                )
            } else {
                give_up(Failure::OutOfTurn)
            }
        },
        _ => give_up(Failure::OutOfTurn),
    }
}

/// Whether the answer to `event` in `state` names a new generation.
pub open spec fn names_generation(state: StateModel, event: EventModel) -> bool {
    state is Timing && event is Clock
}

/// Only the step that names a new generation depends on the random part.
pub proof fn lemma_suffix_matters_only_for_naming(
    artifacts: Seq<ArtifactModel>,
    state: StateModel,
    event: EventModel,
    suffix: Seq<char>,
    other: Seq<char>,
)
    requires
        !names_generation(state, event),
    ensures
        next(artifacts, state, event, suffix) == next(artifacts, state, event, other),
{
}

fn is_naming(state: &CacheState, event: &CacheEvent) -> (naming: bool)
    ensures
        naming == names_generation(state@, event@),
{
    match state {
        CacheState::Timing { stale } => match event {
            CacheEvent::Clock(secs) => true,
            _ => false,
        },
        _ => false,
    }
}

/// The machine's answer to `event` in `state`. Where the step names a new
/// generation, the random part of the name is drawn here, so two calls on the
/// same state and event may name different generations.
pub fn step(
    artifacts: &[GardenArtifact],
    state: CacheState,
    event: CacheEvent,
) -> (answer: (CacheState, CacheAction))
    ensures
        exists|suffix: Seq<char>|
            is_suffix(suffix) && (answer.0@, answer.1@) == #[trigger] next(
                artifacts.deep_view(),
                state@,
                event@,
                suffix,
            ),
{
    if is_naming(&state, &event) {
        let suffix = fresh_suffix();
        advance(artifacts, state, event, suffix.as_str())
    } else {
        let ghost any = Seq::new(SUFFIX_LENGTH as nat, |i: int| '0');
        proof {
            assert(is_suffix(any));
            lemma_suffix_matters_only_for_naming(
                artifacts.deep_view(),
                state@,
                event@,
                ""@,
                any,
            );
        }
        advance(artifacts, state, event, "")
    }
}

/// The machine selects a generation only when every artifact has its marker
/// there: either the markers of the latest generation were all found to
/// match, or the last artifact of a new generation has just been marked.
pub proof fn lemma_selects_only_complete_generations(
    artifacts: Seq<ArtifactModel>,
    state: StateModel,
    event: EventModel,
    suffix: Seq<char>,
)
    requires
        next(artifacts, state, event, suffix).1 is Select,
    ensures
        match state {
            StateModel::Probing { latest, older } => {
                &&& event matches EventModel::Markers(markers)
                &&& generation_valid(artifacts, markers)
                &&& next(artifacts, state, event, suffix).1 == (ActionModel::Select {
                    current: latest,
                    stale: older,
                })
            },
            StateModel::Creating { name, stale } => {
                &&& event is Succeeded
                &&& artifacts.len() == 0
                &&& next(artifacts, state, event, suffix).1 == (ActionModel::Select {
                    current: name,
                    stale,
                })
            },
            StateModel::Marking { name, stale, index } => {
                &&& event is Succeeded
                &&& index + 1 == artifacts.len()
                &&& next(artifacts, state, event, suffix).1 == (ActionModel::Select {
                    current: name,
                    stale,
                })
            },
            _ => false,
        },
{
}

/// The artifacts of a new generation are unpacked and marked one after the
/// other, in the order of the store: once an artifact is unpacked, its marker
/// is written, with the artifact's digest, and once that is done, the next
/// artifact is unpacked.
pub proof fn lemma_extracts_in_order(
    artifacts: Seq<ArtifactModel>,
    name: Seq<char>,
    stale: Seq<Seq<char>>,
    index: nat,
    suffix: Seq<char>,
)
    requires
        index < artifacts.len(),
    ensures
        next(
            artifacts,
            StateModel::Unpacking { name, stale, index },
            EventModel::Succeeded,
            suffix,
        ) == (
            StateModel::Marking { name, stale, index },
            ActionModel::WriteMarker {
                generation: name,
                file: marker_file_name_of(artifacts[index as int].name),
                digest: artifacts[index as int].digest,
            },
        ),
        index + 1 < artifacts.len() ==> next(
            artifacts,
            StateModel::Marking { name, stale, index },
            EventModel::Succeeded,
            suffix,
        ) == (
            StateModel::Unpacking { name, stale, index: index + 1 },
            ActionModel::Unpack { generation: name, artifact: index + 1 },
        ),
{
}

} // verus!
