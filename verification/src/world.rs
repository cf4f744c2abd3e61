//! Launches against a root directory that does what it is asked.
//!
//! The machine of the extraction cache decides; a file system answers. This
//! module describes a file system that never fails, runs the machine against
//! it, alone or two launches at a time, and states what then holds of the
//! generation that each launch selects.

use crate::artifacts::{
    generation_valid, marked_at, marker_extension, marker_file_name_of, marker_files_of,
    ArtifactModel, MarkerModel,
};
use crate::extract::{next, ActionModel, EventModel, StateModel};
use crate::listing::{
    generation_dirs, latest_generation, lemma_generation_dirs_push, lemma_latest_is_listed,
    lemma_no_generation, lemma_single_generation, older_generations, EntryModel,
};
use crate::names::{generation_name_of, lemma_generation_name_carries_tag};
use vstd::prelude::*;

verus! {

/// A root directory: its entries, and what each directory in it holds under
/// each file name.
pub struct Root {
    pub entries: Seq<EntryModel>,
    pub files: Map<Seq<char>, Map<Seq<char>, MarkerModel>>,
}

/// The entry of a generation directory called `name`.
pub open spec fn generation_entry(name: Seq<char>) -> EntryModel {
    EntryModel { name, is_dir: true }
}

impl Root {
    /// The root directory with nothing in it.
    pub open spec fn empty() -> Root {
        Root { entries: Seq::empty(), files: Map::empty() }
    }

    /// Something called `name` stands in the root.
    pub open spec fn holds(self, name: Seq<char>) -> bool {
        exists|i: int| 0 <= i < self.entries.len() && (#[trigger] self.entries[i]).name == name
    }

    /// A directory called `name` stands in the root.
    pub open spec fn has_generation(self, name: Seq<char>) -> bool {
        self.entries.contains(generation_entry(name))
    }

    /// What is found under the name `file` inside `generation`.
    pub open spec fn found(self, generation: Seq<char>, file: Seq<char>) -> MarkerModel {
        if self.files.dom().contains(generation) && self.files[generation].dom().contains(file) {
            self.files[generation][file]
        } else {
            MarkerModel::Missing
        }
    }

    /// What is found inside `generation` under each of the names `files`.
    pub open spec fn read(self, generation: Seq<char>, files: Seq<Seq<char>>) -> Seq<MarkerModel> {
        files.map_values(|file: Seq<char>| self.found(generation, file))
    }

    /// What stands in place of each artifact's marker inside `generation`.
    pub open spec fn markers_of(
        self,
        artifacts: Seq<ArtifactModel>,
        generation: Seq<char>,
    ) -> Seq<MarkerModel> {
        self.read(generation, marker_files_of(artifacts))
    }

    /// The root after the directory `name` was created in it, empty.
    pub open spec fn with_generation(self, name: Seq<char>) -> Root {
        Root {
            entries: self.entries.push(generation_entry(name)),
            files: self.files.insert(name, Map::empty()),
        }
    }

    /// The root after `bytes` were written into `file` inside `generation`.
    pub open spec fn with_file(self, generation: Seq<char>, file: Seq<char>, bytes: Seq<u8>) -> Root {
        let inside = if self.files.dom().contains(generation) {
            self.files[generation]
        } else {
            Map::empty()
        };
        Root {
            entries: self.entries,
            files: self.files.insert(generation, inside.insert(file, MarkerModel::Present(bytes))),
        }
    }
}

/// What the file system makes of `action`, and what it reports back, at a
/// time when the clock shows `secs`.
pub open spec fn respond(
    artifacts: Seq<ArtifactModel>,
    root: Root,
    action: ActionModel,
    secs: nat,
) -> (Root, EventModel) {
    match action {
        ActionModel::EnsureRoot => (root, EventModel::Succeeded),
        ActionModel::ListRoot => (root, EventModel::Listed(root.entries)),
        ActionModel::ReadMarkers { generation, files } => (
            root,
            EventModel::Markers(root.read(generation, files)),
        ),
        ActionModel::ReadClock => (root, EventModel::Clock(secs)),
        ActionModel::CreateGeneration { name } => {
            if root.holds(name) {
                (root, EventModel::AlreadyExists)
            } else {
                (root.with_generation(name), EventModel::Succeeded)
            }
        },
        ActionModel::Unpack { generation, artifact } => (root, EventModel::Succeeded),
        ActionModel::WriteMarker { generation, file, digest } => {
            if root.has_generation(generation) {
                (root.with_file(generation, file, digest), EventModel::Succeeded)
            } else {
                (root, EventModel::Failed)
            }
        },
        ActionModel::Select { current, stale } => (root, EventModel::Begin),
        ActionModel::Abort { failure } => (root, EventModel::Begin),
    }
}

/// How far a launch has come.
pub enum Progress {
    /// The machine is in `state` and `event` is about to reach it.
    Running { state: StateModel, event: EventModel },
    /// The machine has ended with `action`, a selection or an abort.
    Ended { action: ActionModel },
}

/// A launch that has not begun.
pub open spec fn beginning() -> Progress {
    Progress::Running { state: StateModel::Start, event: EventModel::Begin }
}

/// Who launches: the random part that the launch gives to the name of a new
/// generation, and the time it reads from the clock.
pub struct Launcher {
    pub suffix: Seq<char>,
    pub secs: nat,
}

impl Launcher {
    /// The name that this launch gives to a new generation.
    pub open spec fn fresh_name(self) -> Seq<char> {
        generation_name_of(self.secs, self.suffix)
    }
}

/// One turn of a launch: the machine answers the event, and the file system
/// carries out what the machine asks for. A launch that has ended stays as it
/// is.
pub open spec fn turn(
    artifacts: Seq<ArtifactModel>,
    root: Root,
    progress: Progress,
    who: Launcher,
) -> (Root, Progress) {
    match progress {
        Progress::Ended { action } => (root, progress),
        Progress::Running { state, event } => {
            let (after, action) = next(artifacts, state, event, who.suffix);
            if action is Select || action is Abort {
                (root, Progress::Ended { action })
            } else {
                let (changed, reply) = respond(artifacts, root, action, who.secs);
                (changed, Progress::Running { state: after, event: reply })
            }
        },
    }
}

/// `count` turns of a launch that nothing else interferes with.
pub open spec fn turns(
    artifacts: Seq<ArtifactModel>,
    root: Root,
    progress: Progress,
    who: Launcher,
    count: nat,
) -> (Root, Progress)
    decreases count,
{
    if count == 0 {
        (root, progress)
    } else {
        let (changed, moved) = turn(artifacts, root, progress, who);
        turns(artifacts, changed, moved, who, (count - 1) as nat)
    }
}

/// A whole launch that nothing else interferes with: as many turns as any
/// launch takes that meets no name already taken.
pub open spec fn launch(artifacts: Seq<ArtifactModel>, root: Root, who: Launcher) -> (Root, Progress) {
    turns(artifacts, root, beginning(), who, 2 * artifacts.len() + 6)
}

/// The first `upto` artifacts have matching markers.
pub open spec fn valid_up_to(
    artifacts: Seq<ArtifactModel>,
    markers: Seq<MarkerModel>,
    upto: nat,
) -> bool {
    forall|i: int| 0 <= i < upto ==> #[trigger] marked_at(artifacts, markers, i)
}

/// The generation `name` stands in the root with a marker slot for each
/// artifact, and its first `upto` artifacts have matching markers.
pub open spec fn extracted_up_to(
    artifacts: Seq<ArtifactModel>,
    root: Root,
    name: Seq<char>,
    upto: nat,
) -> bool {
    &&& root.has_generation(name)
    &&& valid_up_to(artifacts, root.markers_of(artifacts, name), upto)
}

/// The launch of `who` is on its way to a new generation that supersedes
/// `stale`, and the root holds of that generation what the launch has put
/// there so far.
pub open spec fn extracting(
    artifacts: Seq<ArtifactModel>,
    root: Root,
    progress: Progress,
    who: Launcher,
    stale: Seq<Seq<char>>,
) -> bool {
    let name = who.fresh_name();
    match progress {
        Progress::Running { state: StateModel::Listing, event: EventModel::Listed(entries) } => {
            &&& entries == Seq::<EntryModel>::empty()
            &&& stale == Seq::<Seq<char>>::empty()
            &&& !root.holds(name)
        },
        Progress::Running { state: StateModel::Timing { stale: superseded }, event: EventModel::Clock(secs) } => {
            &&& superseded == stale
            &&& secs == who.secs
            &&& !root.holds(name)
        },
        Progress::Running {
            state: StateModel::Creating { name: created, stale: superseded },
            event: EventModel::Succeeded,
        } => {
            &&& superseded == stale
            &&& created == name
            &&& extracted_up_to(artifacts, root, name, 0)
        },
        Progress::Running {
            state: StateModel::Unpacking { name: created, stale: superseded, index },
            event: EventModel::Succeeded,
        } => {
            &&& superseded == stale
            &&& created == name
            &&& index < artifacts.len()
            &&& extracted_up_to(artifacts, root, name, index)
        },
        Progress::Running {
            state: StateModel::Marking { name: created, stale: superseded, index },
            event: EventModel::Succeeded,
        } => {
            &&& superseded == stale
            &&& created == name
            &&& index < artifacts.len()
            &&& extracted_up_to(artifacts, root, name, index + 1)
        },
        Progress::Ended { action: ActionModel::Select { current, stale: superseded } } => {
            &&& superseded == stale
            &&& current == name
            &&& extracted_up_to(artifacts, root, name, artifacts.len())
        },
        _ => false,
    }
}

/// The number of turns that a launch on its way to a new generation still
/// takes.
pub open spec fn turns_left(artifacts: Seq<ArtifactModel>, progress: Progress) -> nat {
    match progress {
        Progress::Running { state: StateModel::Listing, event } => 2 * artifacts.len() + 3,
        Progress::Running { state: StateModel::Timing { stale }, event } => 2 * artifacts.len() + 2,
        Progress::Running { state: StateModel::Creating { name, stale }, event } => 2
            * artifacts.len() + 1,
        Progress::Running { state: StateModel::Unpacking { name, stale, index }, event } => (2 * (
        artifacts.len() - index)) as nat,
        Progress::Running { state: StateModel::Marking { name, stale, index }, event } => (2 * (
        artifacts.len() - index) - 1) as nat,
        _ => 0,
    }
}

/// Whether the launch has created its generation directory.
pub open spec fn has_created(progress: Progress) -> bool {
    match progress {
        Progress::Running { state: StateModel::Listing, event } => false,
        Progress::Running { state: StateModel::Timing { stale }, event } => false,
        _ => true,
    }
}

/// From `before` to `after` nothing changed in the root but, at most, the
/// generation `name`: no entry went away, none but `name` came, and every
/// file of every other directory holds what it held.
pub open spec fn touches_only(before: Root, after: Root, name: Seq<char>) -> bool {
    &&& after.entries == before.entries || after.entries == before.entries.push(
        generation_entry(name),
    )
    &&& forall|other: Seq<char>, file: Seq<char>|
        other != name ==> #[trigger] after.found(other, file) == before.found(other, file)
}

/// Artifacts that share a name share the digest, so that a marker file never
/// has to vouch for two different digests. A store in which no two artifacts
/// have the same name is of this kind.
pub open spec fn consistent(artifacts: Seq<ArtifactModel>) -> bool {
    forall|i: int, j: int|
        0 <= i < artifacts.len() && 0 <= j < artifacts.len() && (#[trigger] artifacts[i]).name == (
        #[trigger] artifacts[j]).name ==> artifacts[i].digest == artifacts[j].digest
}

/// Marker files of the same name belong to artifacts of the same name.
pub proof fn lemma_marker_file_names_differ(a: Seq<char>, b: Seq<char>)
    requires
        marker_file_name_of(a) == marker_file_name_of(b),
    ensures
        a == b,
{
    let extension = marker_extension();
    assert(a.len() == b.len()) by {
        assert((a + extension).len() == (b + extension).len());
    }
    assert(a =~= (a + extension).subrange(0, a.len() as int));
    assert(b =~= (b + extension).subrange(0, b.len() as int));
}

/// What the markers of a generation are found to be, read by their file
/// names.
proof fn lemma_markers_of(artifacts: Seq<ArtifactModel>, root: Root, generation: Seq<char>)
    ensures
        root.markers_of(artifacts, generation).len() == artifacts.len(),
        forall|i: int|
            0 <= i < artifacts.len() ==> #[trigger] root.markers_of(artifacts, generation)[i]
                == root.found(generation, marker_file_name_of(artifacts[i].name)),
{
}

/// One turn of a launch that is on its way to a new generation brings it one
/// turn nearer to selecting it, and changes nothing in the root but that
/// generation: the directory is created in the turn that follows the reading
/// of the clock, and never again.
pub proof fn lemma_extracting_turn(
    artifacts: Seq<ArtifactModel>,
    root: Root,
    progress: Progress,
    who: Launcher,
    stale: Seq<Seq<char>>,
)
    requires
        consistent(artifacts),
        extracting(artifacts, root, progress, who, stale),
    ensures
        ({
            let (changed, moved) = turn(artifacts, root, progress, who);
            &&& extracting(artifacts, changed, moved, who, stale)
            &&& has_created(progress) ==> has_created(moved)
            &&& touches_only(root, changed, who.fresh_name())
            &&& changed.entries == if has_created(progress) == has_created(moved) {
                root.entries
            } else {
                root.entries.push(generation_entry(who.fresh_name()))
            }
            &&& turns_left(artifacts, progress) > 0 ==> turns_left(artifacts, moved) + 1
                == turns_left(artifacts, progress)
            &&& turns_left(artifacts, progress) == 0 ==> moved == progress
        }),
{
    let name = who.fresh_name();
    let (changed, moved) = turn(artifacts, root, progress, who);
    match progress {
        Progress::Running { state: StateModel::Listing, event: EventModel::Listed(entries) } => {
            lemma_generation_dirs_push(entries, generation_entry(name));
            lemma_no_generation(entries);
        },
        Progress::Running { state: StateModel::Timing { stale: superseded }, event } => {
            assert(changed == root.with_generation(name));
            assert(changed.entries.last() == generation_entry(name));
            assert(changed.has_generation(name));
        },
        Progress::Running { state: StateModel::Creating { name: created, stale: superseded }, event } => {
        },
        Progress::Running {
            state: StateModel::Unpacking { name: created, stale: superseded, index },
            event,
        } => {
            let file = marker_file_name_of(artifacts[index as int].name);
            let digest = artifacts[index as int].digest;
            assert(changed == root.with_file(name, file, digest));
            let before = root.markers_of(artifacts, name);
            let after = changed.markers_of(artifacts, name);
            lemma_markers_of(artifacts, root, name);
            lemma_markers_of(artifacts, changed, name);
            assert forall|i: int| 0 <= i < index + 1 implies #[trigger] marked_at(
                artifacts,
                after,
                i,
            ) by {
                let other = marker_file_name_of(artifacts[i].name);
                if other == file {
                    lemma_marker_file_names_differ(artifacts[i].name, artifacts[index as int].name);
                } else {
                    assert(marked_at(artifacts, before, i));
                    assert(changed.found(name, other) == root.found(name, other));
                }
            }
        },
        Progress::Running {
            state: StateModel::Marking { name: created, stale: superseded, index },
            event,
        } => {
        },
        _ => {},
    }
}

/// What another launch does to its own generation leaves a launch on its way
/// to a generation of another name where it was.
pub proof fn lemma_extracting_unaffected(
    artifacts: Seq<ArtifactModel>,
    before: Root,
    after: Root,
    other: Seq<char>,
    progress: Progress,
    who: Launcher,
    stale: Seq<Seq<char>>,
)
    requires
        extracting(artifacts, before, progress, who, stale),
        touches_only(before, after, other),
        other != who.fresh_name(),
    ensures
        extracting(artifacts, after, progress, who, stale),
{
    let name = who.fresh_name();
    assert(after.markers_of(artifacts, name) =~= before.markers_of(artifacts, name));
    if before.has_generation(name) {
        let at = choose|at: int|
            0 <= at < before.entries.len() && before.entries[at] == generation_entry(name);
        assert(after.entries[at] == generation_entry(name));
    }
    if after.holds(name) {
        let at = choose|at: int|
            0 <= at < after.entries.len() && (#[trigger] after.entries[at]).name == name;
        assert(before.entries[at].name == name);
    }
}

/// A launch on its way to a new generation, left alone for the turns it still
/// takes, selects that generation: fully extracted, every marker in place,
/// with nothing else in the root changed.
pub proof fn lemma_extracting_ends(
    artifacts: Seq<ArtifactModel>,
    root: Root,
    progress: Progress,
    who: Launcher,
    stale: Seq<Seq<char>>,
    count: nat,
)
    requires
        consistent(artifacts),
        extracting(artifacts, root, progress, who, stale),
        count >= turns_left(artifacts, progress),
    ensures
        ({
            let (changed, ended) = turns(artifacts, root, progress, who, count);
            &&& ended == Progress::Ended {
                action: ActionModel::Select { current: who.fresh_name(), stale },
            }
            &&& changed.has_generation(who.fresh_name())
            &&& generation_valid(artifacts, changed.markers_of(artifacts, who.fresh_name()))
            &&& touches_only(root, changed, who.fresh_name())
            &&& changed.entries == if has_created(progress) {
                root.entries
            } else {
                root.entries.push(generation_entry(who.fresh_name()))
            }
        }),
    decreases count,
{
    let name = who.fresh_name();
    lemma_extracting_turn(artifacts, root, progress, who, stale);
    if count == 0 {
        let markers = root.markers_of(artifacts, name);
        assert forall|i: int| 0 <= i < artifacts.len() implies #[trigger] marked_at(
            artifacts,
            markers,
            i,
        ) by {}
    } else {
        let (changed, moved) = turn(artifacts, root, progress, who);
        lemma_extracting_ends(artifacts, changed, moved, who, stale, (count - 1) as nat);
    }
}

/// The generations that a new generation supersedes: all that the listing
/// holds.
pub open spec fn superseded(entries: Seq<EntryModel>) -> Seq<Seq<char>> {
    match latest_generation(entries) {
        Some(latest) => older_generations(entries).push(latest),
        None => older_generations(entries),
    }
}

/// The latest generation in the root has a matching marker for every
/// artifact.
pub open spec fn latest_is_valid(artifacts: Seq<ArtifactModel>, root: Root) -> bool {
    latest_generation(root.entries) matches Some(latest) && generation_valid(
        artifacts,
        root.markers_of(artifacts, latest),
    )
}

/// A launch that has ended stays ended, and changes nothing any more.
pub proof fn lemma_turns_after_end(
    artifacts: Seq<ArtifactModel>,
    root: Root,
    action: ActionModel,
    who: Launcher,
    count: nat,
)
    ensures
        turns(artifacts, root, Progress::Ended { action }, who, count) == (
            root,
            Progress::Ended { action },
        ),
    decreases count,
{
    if count > 0 {
        lemma_turns_after_end(artifacts, root, action, who, (count - 1) as nat);
    }
}

/// Turns taken one after the other add up.
pub proof fn lemma_turns_add(
    artifacts: Seq<ArtifactModel>,
    root: Root,
    progress: Progress,
    who: Launcher,
    first: nat,
    then: nat,
)
    ensures
        turns(artifacts, root, progress, who, first + then) == ({
            let (changed, moved) = turns(artifacts, root, progress, who, first);
            turns(artifacts, changed, moved, who, then)
        }),
    decreases first,
{
    if first > 0 {
        let (changed, moved) = turn(artifacts, root, progress, who);
        lemma_turns_add(artifacts, changed, moved, who, (first - 1) as nat, then);
    }
}

/// The first two turns of any launch make sure of the root and list it.
proof fn lemma_launch_lists(artifacts: Seq<ArtifactModel>, root: Root, who: Launcher)
    ensures
        turns(artifacts, root, beginning(), who, 2) == (
            root,
            Progress::Running {
                state: StateModel::Listing,
                event: EventModel::Listed(root.entries),
            },
        ),
{
    reveal_with_fuel(turns, 3);
}

/// A launch that finds the latest generation valid selects it, hands the
/// older ones over as stale, and leaves the root as it found it: it creates
/// nothing and writes nothing.
pub proof fn lemma_valid_generation_is_reused(
    artifacts: Seq<ArtifactModel>,
    root: Root,
    who: Launcher,
)
    requires
        latest_is_valid(artifacts, root),
    ensures
        launch(artifacts, root, who) == (
            root,
            Progress::Ended {
                action: ActionModel::Select {
                    current: latest_generation(root.entries)->0,
                    stale: older_generations(root.entries),
                },
            },
        ),
{
    let rest = (2 * artifacts.len() + 2) as nat;
    let listed = Progress::Running {
        state: StateModel::Listing,
        event: EventModel::Listed(root.entries),
    };
    let select = ActionModel::Select {
        current: latest_generation(root.entries)->0,
        stale: older_generations(root.entries),
    };
    lemma_launch_lists(artifacts, root, who);
    lemma_turns_add(artifacts, root, beginning(), who, 2, rest + 2);
    assert(turns(artifacts, root, listed, who, 2) == (root, Progress::Ended { action: select })) by {
        reveal_with_fuel(turns, 3);
    }
    lemma_turns_add(artifacts, root, listed, who, 2, rest);
    lemma_turns_after_end(artifacts, root, select, who, rest);
}

/// A launch that finds no valid latest generation, and whose fresh name is
/// not taken, extracts a new generation under that name and selects it, with
/// every marker in place. All generations that were there are handed over as
/// stale, and none of them is touched.
pub proof fn lemma_new_generation_is_extracted(
    artifacts: Seq<ArtifactModel>,
    root: Root,
    who: Launcher,
)
    requires
        consistent(artifacts),
        !latest_is_valid(artifacts, root),
        !root.holds(who.fresh_name()),
    ensures
        ({
            let (changed, ended) = launch(artifacts, root, who);
            &&& ended == Progress::Ended {
                action: ActionModel::Select {
                    current: who.fresh_name(),
                    stale: superseded(root.entries),
                },
            }
            &&& changed.entries == root.entries.push(generation_entry(who.fresh_name()))
            &&& generation_valid(artifacts, changed.markers_of(artifacts, who.fresh_name()))
            &&& touches_only(root, changed, who.fresh_name())
        }),
{
    let stale = superseded(root.entries);
    let listed = Progress::Running {
        state: StateModel::Listing,
        event: EventModel::Listed(root.entries),
    };
    let timing = Progress::Running {
        state: StateModel::Timing { stale },
        event: EventModel::Clock(who.secs),
    };
    lemma_launch_lists(artifacts, root, who);
    assert(extracting(artifacts, root, timing, who, stale));
    if latest_generation(root.entries) is Some {
        let rest = (2 * artifacts.len() + 2) as nat;
        lemma_turns_add(artifacts, root, beginning(), who, 2, rest + 2);
        assert(turns(artifacts, root, listed, who, 2) == (root, timing)) by {
            reveal_with_fuel(turns, 3);
        }
        lemma_turns_add(artifacts, root, listed, who, 2, rest);
        lemma_extracting_ends(artifacts, root, timing, who, stale, rest);
    } else {
        let rest = (2 * artifacts.len() + 3) as nat;
        lemma_turns_add(artifacts, root, beginning(), who, 2, rest + 1);
        assert(turns(artifacts, root, listed, who, 1) == (root, timing)) by {
            reveal_with_fuel(turns, 2);
        }
        lemma_turns_add(artifacts, root, listed, who, 1, rest);
        lemma_extracting_ends(artifacts, root, timing, who, stale, rest);
    }
}

/// Two launches in a row against a root that starts out empty: the first
/// extracts a generation; the second selects that same generation, with
/// nothing stale, and leaves the root as the first left it, so that one
/// generation directory is all there is.
pub proof fn lemma_second_launch_reuses_first(
    artifacts: Seq<ArtifactModel>,
    first: Launcher,
    second: Launcher,
)
    requires
        consistent(artifacts),
    ensures
        ({
            let (extracted, first_end) = launch(artifacts, Root::empty(), first);
            let (reused, second_end) = launch(artifacts, extracted, second);
            let select = Progress::Ended {
                action: ActionModel::Select {
                    current: first.fresh_name(),
                    stale: Seq::<Seq<char>>::empty(),
                },
            };
            &&& first_end == select
            &&& second_end == select
            &&& reused == extracted
            &&& extracted.entries == seq![generation_entry(first.fresh_name())]
        }),
{
    let name = first.fresh_name();
    let nothing = Root::empty();
    lemma_generation_dirs_push(nothing.entries, generation_entry(name));
    lemma_no_generation(nothing.entries);
    lemma_new_generation_is_extracted(artifacts, nothing, first);
    let (extracted, first_end) = launch(artifacts, nothing, first);
    assert(extracted.entries =~= seq![generation_entry(name)]);
    lemma_generation_name_carries_tag(first.secs, first.suffix);
    assert(generation_dirs(extracted.entries) =~= seq![name]);
    lemma_single_generation(extracted.entries, name);
    lemma_valid_generation_is_reused(artifacts, extracted, second);
}

/// One marker of the latest generation that is missing, unreadable or holds
/// anything but its artifact's digest makes the next launch extract a new
/// generation and select that one. The spoilt generation is handed over as
/// stale, last in the list, and stays in the root as it was.
pub proof fn lemma_spoilt_marker_forces_new_generation(
    artifacts: Seq<ArtifactModel>,
    root: Root,
    who: Launcher,
    artifact: int,
)
    requires
        consistent(artifacts),
        latest_generation(root.entries) is Some,
        0 <= artifact < artifacts.len(),
        !marked_at(
            artifacts,
            root.markers_of(artifacts, latest_generation(root.entries)->0),
            artifact,
        ),
        !root.holds(who.fresh_name()),
    ensures
        ({
            let spoilt = latest_generation(root.entries)->0;
            let (changed, ended) = launch(artifacts, root, who);
            &&& ended == Progress::Ended {
                action: ActionModel::Select {
                    current: who.fresh_name(),
                    stale: older_generations(root.entries).push(spoilt),
                },
            }
            &&& who.fresh_name() != spoilt
            &&& generation_valid(artifacts, changed.markers_of(artifacts, who.fresh_name()))
            &&& root.has_generation(spoilt)
            &&& changed.has_generation(spoilt)
            &&& forall|file: Seq<char>| #[trigger]
                changed.found(spoilt, file) == root.found(spoilt, file)
        }),
{
    let spoilt = latest_generation(root.entries)->0;
    lemma_latest_is_listed(root.entries);
    let at = choose|at: int|
        0 <= at < root.entries.len() && root.entries[at] == generation_entry(spoilt);
    assert(root.entries[at].name == spoilt);
    lemma_new_generation_is_extracted(artifacts, root, who);
    let (changed, ended) = launch(artifacts, root, who);
    assert(changed.entries[at] == generation_entry(spoilt));
}

/// A launch whose fresh name is taken overwrites nothing: it is told so,
/// leaves the root as it is, and lists the root anew.
pub proof fn lemma_taken_name_is_not_overwritten(
    artifacts: Seq<ArtifactModel>,
    root: Root,
    who: Launcher,
    stale: Seq<Seq<char>>,
)
    requires
        root.holds(who.fresh_name()),
    ensures
        turns(
            artifacts,
            root,
            Progress::Running {
                state: StateModel::Timing { stale },
                event: EventModel::Clock(who.secs),
            },
            who,
            2,
        ) == (
            root,
            Progress::Running {
                state: StateModel::Listing,
                event: EventModel::Listed(root.entries),
            },
        ),
{
    reveal_with_fuel(turns, 3);
}

/// A launch that has listed the root and found nothing in it.
pub open spec fn listed_nothing() -> Progress {
    Progress::Running {
        state: StateModel::Listing,
        event: EventModel::Listed(Seq::<EntryModel>::empty()),
    }
}

/// Two launches against one root, taking turns in any order: `schedule` says
/// of each turn whether it is the first launch's.
pub open spec fn race(
    artifacts: Seq<ArtifactModel>,
    root: Root,
    first_progress: Progress,
    second_progress: Progress,
    first: Launcher,
    second: Launcher,
    schedule: Seq<bool>,
) -> (Root, Progress, Progress)
    decreases schedule.len(),
{
    if schedule.len() == 0 {
        (root, first_progress, second_progress)
    } else if schedule[0] {
        let (changed, moved) = turn(artifacts, root, first_progress, first);
        race(artifacts, changed, moved, second_progress, first, second, schedule.drop_first())
    } else {
        let (changed, moved) = turn(artifacts, root, second_progress, second);
        race(artifacts, changed, first_progress, moved, first, second, schedule.drop_first())
    }
}

/// The number of turns in `schedule` that belong to the first launch, where
/// `whose` is true, or to the second.
pub open spec fn turns_of(schedule: Seq<bool>, whose: bool) -> nat
    decreases schedule.len(),
{
    if schedule.len() == 0 {
        0
    } else if schedule[0] == whose {
        1 + turns_of(schedule.drop_first(), whose)
    } else {
        turns_of(schedule.drop_first(), whose)
    }
}

/// The turns that a launch still takes after it was given `given` turns.
pub open spec fn left_after(left: nat, given: nat) -> nat {
    if given >= left {
        0
    } else {
        (left - given) as nat
    }
}

/// Two launches on their way to generations of different names do not get in
/// each other's way, in whatever order they take their turns: each stays on
/// its way, is never brought to give up, and comes nearer to its selection by
/// every turn of its own.
pub proof fn lemma_race_keeps_launches_apart(
    artifacts: Seq<ArtifactModel>,
    root: Root,
    first_progress: Progress,
    second_progress: Progress,
    first: Launcher,
    second: Launcher,
    first_stale: Seq<Seq<char>>,
    second_stale: Seq<Seq<char>>,
    schedule: Seq<bool>,
)
    requires
        consistent(artifacts),
        extracting(artifacts, root, first_progress, first, first_stale),
        extracting(artifacts, root, second_progress, second, second_stale),
        first.fresh_name() != second.fresh_name(),
    ensures
        ({
            let (changed, first_moved, second_moved) = race(
                artifacts,
                root,
                first_progress,
                second_progress,
                first,
                second,
                schedule,
            );
            &&& extracting(artifacts, changed, first_moved, first, first_stale)
            &&& extracting(artifacts, changed, second_moved, second, second_stale)
            &&& !(first_moved matches Progress::Ended { action: ActionModel::Abort { failure } })
            &&& !(second_moved matches Progress::Ended { action: ActionModel::Abort { failure } })
            &&& turns_left(artifacts, first_moved) == left_after(
                turns_left(artifacts, first_progress),
                turns_of(schedule, true),
            )
            &&& turns_left(artifacts, second_moved) == left_after(
                turns_left(artifacts, second_progress),
                turns_of(schedule, false),
            )
        }),
    decreases schedule.len(),
{
    if schedule.len() > 0 {
        if schedule[0] {
            let (changed, moved) = turn(artifacts, root, first_progress, first);
            lemma_extracting_turn(artifacts, root, first_progress, first, first_stale);
            lemma_extracting_unaffected(
                artifacts,
                root,
                changed,
                first.fresh_name(),
                second_progress,
                second,
                second_stale,
            );
            lemma_race_keeps_launches_apart(
                artifacts,
                changed,
                moved,
                second_progress,
                first,
                second,
                first_stale,
                second_stale,
                schedule.drop_first(),
            );
        } else {
            let (changed, moved) = turn(artifacts, root, second_progress, second);
            lemma_extracting_turn(artifacts, root, second_progress, second, second_stale);
            lemma_extracting_unaffected(
                artifacts,
                root,
                changed,
                second.fresh_name(),
                first_progress,
                first,
                first_stale,
            );
            lemma_race_keeps_launches_apart(
                artifacts,
                changed,
                first_progress,
                moved,
                first,
                second,
                first_stale,
                second_stale,
                schedule.drop_first(),
            );
        }
    }
}

/// Two first launches at the same time, each of which found the root empty:
/// in whatever order they take their turns, once each has had the turns it
/// needs, each has selected a generation of its own, fully extracted with
/// every marker in place, and the two generations differ. The names that the
/// launches draw must differ.
pub proof fn lemma_simultaneous_first_launches(
    artifacts: Seq<ArtifactModel>,
    first: Launcher,
    second: Launcher,
    schedule: Seq<bool>,
)
    requires
        consistent(artifacts),
        first.fresh_name() != second.fresh_name(),
        turns_of(schedule, true) >= 2 * artifacts.len() + 3,
        turns_of(schedule, false) >= 2 * artifacts.len() + 3,
    ensures
        ({
            let (root, first_end, second_end) = race(
                artifacts,
                Root::empty(),
                listed_nothing(),
                listed_nothing(),
                first,
                second,
                schedule,
            );
            &&& first_end == Progress::Ended {
                action: ActionModel::Select {
                    current: first.fresh_name(),
                    stale: Seq::<Seq<char>>::empty(),
                },
            }
            &&& second_end == Progress::Ended {
                action: ActionModel::Select {
                    current: second.fresh_name(),
                    stale: Seq::<Seq<char>>::empty(),
                },
            }
            &&& root.has_generation(first.fresh_name())
            &&& root.has_generation(second.fresh_name())
            &&& generation_valid(artifacts, root.markers_of(artifacts, first.fresh_name()))
            &&& generation_valid(artifacts, root.markers_of(artifacts, second.fresh_name()))
        }),
{
    let nothing = Seq::<Seq<char>>::empty();
    lemma_race_keeps_launches_apart(
        artifacts,
        Root::empty(),
        listed_nothing(),
        listed_nothing(),
        first,
        second,
        nothing,
        nothing,
        schedule,
    );
    let (root, first_end, second_end) = race(
        artifacts,
        Root::empty(),
        listed_nothing(),
        listed_nothing(),
        first,
        second,
        schedule,
    );
    lemma_extracting_ends(artifacts, root, first_end, first, nothing, 0);
    lemma_extracting_ends(artifacts, root, second_end, second, nothing, 0);
}

} // verus!
