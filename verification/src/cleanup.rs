//! The sweeper's decisions: which stale generations to look at, whether a
//! generation is in use, and whether it may be removed.
//!
//! Whether a directory is in use is found out by the caller, in one of two
//! ways: by collecting the executable images of the running processes, or by
//! trying to rename the directory onto itself. Either finding is a snapshot:
//! a process may start right after it was taken. A removal that follows a
//! stale snapshot fails, or unlinks files that stay mapped in the process
//! that runs them.

use crate::names::same_name;
use crate::node::{runtime_binary, Platform};
use vstd::prelude::*;

verus! {

/// What the caller found out about one stale generation directory.
#[derive(Debug, Clone, PartialEq, Eq)]
pub enum Probe {
    /// The executable image of every running process, each path split into
    /// its components.
    Images(Vec<Vec<String>>),
    /// Whether renaming the directory onto itself succeeded. It fails while a
    /// process runs from inside the directory.
    Renamed(bool),
    /// Nothing could be found out.
    Failed,
}

/// A probe as a mathematical value.
pub enum ProbeModel {
    Images(Seq<Seq<Seq<char>>>),
    Renamed(bool),
    Failed,
}

impl View for Probe {
    type V = ProbeModel;

    open spec fn view(&self) -> ProbeModel {
        match self {
            Probe::Images(images) => ProbeModel::Images(images.deep_view()),
            Probe::Renamed(renamed) => ProbeModel::Renamed(*renamed),
            Probe::Failed => ProbeModel::Failed,
        }
    }
}

/// The path `image` is `dir` itself or lies somewhere below it: the
/// components of `dir` are the first components of `image`.
pub open spec fn lies_inside(image: Seq<Seq<char>>, dir: Seq<Seq<char>>) -> bool {
    dir.is_prefix_of(image)
}

/// Some process runs an executable from inside `dir`.
pub open spec fn in_use(dir: Seq<Seq<char>>, images: Seq<Seq<Seq<char>>>) -> bool {
    exists|i: int| 0 <= i < images.len() && lies_inside(#[trigger] images[i], dir)
}

/// A stale directory may be removed only on a finding that shows it unused.
pub open spec fn removable(dir: Seq<Seq<char>>, probe: ProbeModel) -> bool {
    match probe {
        ProbeModel::Images(images) => !in_use(dir, images),
        ProbeModel::Renamed(renamed) => renamed,
        ProbeModel::Failed => false,
    }
}

/// The stale generations that the sweeper looks at: all but the current one,
/// in their order.
pub open spec fn candidates(stale: Seq<Seq<char>>, current: Seq<char>) -> Seq<Seq<char>> {
    stale.filter(other_than(current))
}

/// The names that differ from `current`.
pub open spec fn other_than(current: Seq<char>) -> spec_fn(Seq<char>) -> bool {
    |name: Seq<char>| name != current
}

/// Whether the path `image` is `dir` or lies below it.
fn starts_with(image: &[String], dir: &[String]) -> (inside: bool)
    ensures
        inside == lies_inside(image.deep_view(), dir.deep_view()),
{
    if dir.len() > image.len() {
        return false;
    }
    let mut i: usize = 0;
    while i < dir.len()
        invariant
            i <= dir.len() <= image.len(),
            forall|k: int| 0 <= k < i ==> image@[k]@ == dir@[k]@,
        decreases dir.len() - i,
    {
        if image[i] != dir[i] {
            assert(image.deep_view()[i as int] != dir.deep_view()[i as int]);
            return false;
        }
        i += 1;
    }
    assert(dir.deep_view() =~= image.deep_view().subrange(0, dir.len() as int));
    true
}

/// Whether any running process has its executable image inside `dir`.
/// `images` holds the executable path of every running process; it and `dir`
/// are split into their components.
pub fn is_directory_used(dir: &[String], images: &[Vec<String>]) -> (used: bool)
    ensures
        used == in_use(dir.deep_view(), images.deep_view()),
{
    let mut i: usize = 0;
    while i < images.len()
        invariant
            i <= images.len(),
            forall|k: int|
                0 <= k < i ==> !lies_inside(#[trigger] images.deep_view()[k], dir.deep_view()),
        decreases images.len() - i,
    {
        if starts_with(images[i].as_slice(), dir) {
            assert(lies_inside(images.deep_view()[i as int], dir.deep_view()));
            return true;
        }
        i += 1;
    }
    false
}

/// Whether the sweeper may remove the stale directory `dir`, given what was
/// found out about it. A directory in use is kept, and so is one of which
/// nothing could be found out.
pub fn may_remove(dir: &[String], probe: &Probe) -> (remove: bool)
    ensures
        remove == removable(dir.deep_view(), probe@),
{
    match probe {
        Probe::Images(images) => !is_directory_used(dir, images.as_slice()),
        Probe::Renamed(renamed) => *renamed,
        Probe::Failed => false,
    }
}

/// The stale generations for the sweeper to probe, in order. The generation
/// that the launch runs from is never among them, whatever `stale` holds.
pub fn sweep_candidates(stale: &[String], current: &str) -> (names: Vec<String>)
    ensures
        names.deep_view() == candidates(stale.deep_view(), current@),
        forall|i: int| 0 <= i < names.len() ==> #[trigger] names.deep_view()[i] != current@,
{
    let ghost keep = other_than(current@);
    let mut names: Vec<String> = Vec::new();
    let mut i: usize = 0;
    proof {
        reveal(Seq::filter);
        assert(stale.deep_view().take(0) =~= Seq::empty());
        assert(names.deep_view() =~= Seq::empty());
    }
    while i < stale.len()
        invariant
            i <= stale.len(),
            keep == other_than(current@),
            names.deep_view() == stale.deep_view().take(i as int).filter(keep),
            forall|k: int| 0 <= k < names.len() ==> #[trigger] names.deep_view()[k] != current@,
        decreases stale.len() - i,
    {
        let ghost before = names.deep_view();
        proof {
            reveal(Seq::filter);
            assert(stale.deep_view().take(i + 1).drop_last() =~= stale.deep_view().take(i as int));
        }
        if !same_name(stale[i].as_str(), current) {
            names.push(stale[i].clone());
            assert(names.deep_view() =~= before.push(stale.deep_view()[i as int]));
        }
        i += 1;
    }
    assert(stale.deep_view().take(stale.len() as int) =~= stale.deep_view());
    names
}

/// A directory from inside which a process runs is kept: where the image of
/// some running process lies inside `dir`, a scan of the processes shows
/// `dir` in use, and the sweeper may not remove it.
pub proof fn lemma_running_generation_is_kept(
    dir: Seq<Seq<char>>,
    images: Seq<Seq<Seq<char>>>,
    i: int,
)
    requires
        0 <= i < images.len(),
        lies_inside(images[i], dir),
    ensures
        in_use(dir, images),
        !removable(dir, ProbeModel::Images(images)),
{
}

/// The runtime binary of a generation lies inside the generation, wherever
/// inside it stands.
pub proof fn lemma_binary_lies_inside(dir: Seq<Seq<char>>, binary: Seq<Seq<char>>)
    ensures
        lies_inside(dir + binary, dir),
{
    assert((dir + binary).subrange(0, dir.len() as int) =~= dir);
}

/// A generation whose runtime binary is the image of a running process is
/// kept, on either kind of system.
pub proof fn lemma_running_runtime_keeps_generation(
    dir: Seq<Seq<char>>,
    platform: Platform,
    images: Seq<Seq<Seq<char>>>,
    i: int,
)
    requires
        0 <= i < images.len(),
        images[i] == dir + runtime_binary(platform),
    ensures
        !removable(dir, ProbeModel::Images(images)),
{
    lemma_binary_lies_inside(dir, runtime_binary(platform));
    lemma_running_generation_is_kept(dir, images, i);
}

/// A directory from which no process runs any more is removed: where no
/// image lies inside `dir`, a scan of the processes shows `dir` unused, and
/// the sweeper may remove it.
pub proof fn lemma_idle_generation_is_removed(dir: Seq<Seq<char>>, images: Seq<Seq<Seq<char>>>)
    requires
        forall|i: int| 0 <= i < images.len() ==> !lies_inside(#[trigger] images[i], dir),
    ensures
        !in_use(dir, images),
        removable(dir, ProbeModel::Images(images)),
{
}

/// The sweeper looks at every stale generation but the current one, and
/// never at the current one.
pub proof fn lemma_candidates(stale: Seq<Seq<char>>, current: Seq<char>)
    ensures
        !candidates(stale, current).contains(current),
        forall|i: int|
            0 <= i < stale.len() && stale[i] != current ==> candidates(stale, current).contains(
                #[trigger] stale[i],
            ),
{
    let keep = other_than(current);
    if candidates(stale, current).contains(current) {
        let k = choose|k: int|
            0 <= k < candidates(stale, current).len() && candidates(stale, current)[k] == current;
        stale.lemma_filter_pred(keep, k);
    }
    assert forall|i: int| 0 <= i < stale.len() && stale[i] != current implies candidates(
        stale,
        current,
    ).contains(#[trigger] stale[i]) by {
        assert(keep(stale[i]));
        stale.lemma_filter_contains(keep, i);
    }
}

} // verus!
