//! How the runtime is started, and what the launcher makes of its end.
//!
//! The invocation is described without touching the file system: paths inside
//! the generation directory are given by their components, and the caller
//! resolves them against the directory it extracted into.

use crate::names::same_name;
use vstd::prelude::*;
use vstd::string::StringExecFns;

verus! {

/// The exit code of the launcher when the runtime ended without one.
pub const FALLBACK_EXIT_CODE: i32 = 11;

/// The exit code of the launcher when the launch itself failed.
pub const FAILURE_EXIT_CODE: i32 = 1;

/// The kind of system the launcher runs on.
#[derive(Debug, Copy, Clone, PartialEq, Eq, Structural)]
pub enum Platform {
    Unix,
    Windows,
}

/// The settings that the user may pass through the environment, each as it
/// was found: `None` where the variable is unset or is no valid text.
#[derive(Debug, Clone, PartialEq, Eq)]
pub struct LaunchSettings {
    /// Whether to run the runtime under the flame graph profiler.
    pub flamegraph: Option<String>,
    /// The size of the old generation of the heap.
    pub max_old_space_size: Option<String>,
    /// The size of a semi-space of the heap.
    pub max_semi_space_size: Option<String>,
    /// Whether the runtime keeps a compile cache.
    pub compile_cache: Option<String>,
    /// Further parameters for the runtime, separated by commas.
    pub node_extra_params: Option<String>,
    /// The C library that the launcher was built against, where the child
    /// is told about it.
    pub target_env: Option<String>,
}

impl Default for LaunchSettings {
    /// The settings of a user who has set nothing.
    fn default() -> (settings: LaunchSettings)
        ensures
            settings@ == (SettingsModel {
                flamegraph: None,
                max_old_space_size: None,
                max_semi_space_size: None,
                compile_cache: None,
                node_extra_params: None,
                target_env: None,
            }),
    {
        LaunchSettings {
            flamegraph: None,
            max_old_space_size: None,
            max_semi_space_size: None,
            compile_cache: None,
            node_extra_params: None,
            target_env: None,
        }
    }
}

/// The settings as a mathematical value.
pub struct SettingsModel {
    pub flamegraph: Option<Seq<char>>,
    pub max_old_space_size: Option<Seq<char>>,
    pub max_semi_space_size: Option<Seq<char>>,
    pub compile_cache: Option<Seq<char>>,
    pub node_extra_params: Option<Seq<char>>,
    pub target_env: Option<Seq<char>>,
}

impl View for LaunchSettings {
    type V = SettingsModel;

    open spec fn view(&self) -> SettingsModel {
        SettingsModel {
            flamegraph: self.flamegraph.deep_view(),
            max_old_space_size: self.max_old_space_size.deep_view(),
            max_semi_space_size: self.max_semi_space_size.deep_view(),
            compile_cache: self.compile_cache.deep_view(),
            node_extra_params: self.node_extra_params.deep_view(),
            target_env: self.target_env.deep_view(),
        }
    }
}

/// One word of the invocation: a program, an argument, or the value of an
/// environment variable.
#[derive(Debug, Clone, PartialEq, Eq)]
pub enum Value {
    /// The text as it stands.
    Text(String),
    /// The path reached from the generation directory through these
    /// components; the generation directory itself where there are none.
    InGeneration(Vec<String>),
    /// The path of the launcher's own executable, with symbolic links
    /// resolved.
    Launcher,
}

/// A word as a mathematical value.
pub enum ValueModel {
    Text(Seq<char>),
    InGeneration(Seq<Seq<char>>),
    Launcher,
}

impl View for Value {
    type V = ValueModel;

    open spec fn view(&self) -> ValueModel {
        match self {
            Value::Text(text) => ValueModel::Text(text@),
            Value::InGeneration(parts) => ValueModel::InGeneration(parts.deep_view()),
            Value::Launcher => ValueModel::Launcher,
        }
    }
}

impl DeepView for Value {
    type V = ValueModel;

    open spec fn deep_view(&self) -> ValueModel {
        self@
    }
}

/// How to start the runtime.
#[derive(Debug, Clone, PartialEq, Eq)]
pub struct Invocation {
    /// The program to run.
    pub program: Value,
    /// Its arguments, in order.
    pub args: Vec<Value>,
    /// The environment variables to set for it, in order, on top of the
    /// launcher's own environment.
    pub env: Vec<(String, Value)>,
    /// The directory, given by its components inside the generation
    /// directory, that has to exist before the program starts.
    pub cache_dir: Option<Vec<String>>,
}

/// An invocation as a mathematical value.
pub struct InvocationModel {
    pub program: ValueModel,
    pub args: Seq<ValueModel>,
    pub env: Seq<(Seq<char>, ValueModel)>,
    pub cache_dir: Option<Seq<Seq<char>>>,
}

impl View for Invocation {
    type V = InvocationModel;

    open spec fn view(&self) -> InvocationModel {
        InvocationModel {
            program: self.program@,
            args: self.args.deep_view(),
            env: self.env.deep_view(),
            cache_dir: self.cache_dir.deep_view(),
        }
    }
}

/// A toggle is on when it is set to `true` or `1`; unset, it is as
/// `default_on` says.
pub open spec fn enabled(toggle: Option<Seq<char>>, default_on: bool) -> bool {
    match toggle {
        Some(value) => value == "true"@ || value == "1"@,
        None => default_on,
    }
}

/// The setting's value, or `fallback` where it is unset.
pub open spec fn value_or(setting: Option<Seq<char>>, fallback: Seq<char>) -> Seq<char> {
    match setting {
        Some(value) => value,
        None => fallback,
    }
}

/// The pieces of `text` between the occurrences of `separator`: one more
/// piece than there are separators, so the empty text has one empty piece.
pub open spec fn split_on(text: Seq<char>, separator: char) -> Seq<Seq<char>>
    decreases text.len(),
{
    if text.len() == 0 {
        seq![Seq::empty()]
    } else {
        let before = split_on(text.drop_last(), separator);
        if text.last() == separator {
            before.push(Seq::empty())
        } else {
            before.drop_last().push(before.last().push(text.last()))
        }
    }
}

/// Where the runtime binary lies inside a generation directory.
pub open spec fn runtime_binary(platform: Platform) -> Seq<Seq<char>> {
    match platform {
        Platform::Unix => seq!["bin"@, "node"@],
        Platform::Windows => seq!["bin"@, "node.exe"@],
    }
}

/// Where the application's entry script lies inside a generation directory.
pub open spec fn entry_script() -> Seq<Seq<char>> {
    seq!["rollup"@, "garden.mjs"@]
}

/// Where the compile cache lies inside a generation directory.
pub open spec fn compile_cache_dir() -> Seq<Seq<char>> {
    seq!["v8cache"@]
}

/// The program that is started: the profiler where the flame graph is asked
/// for, else the runtime binary.
pub open spec fn program_of(platform: Platform, settings: SettingsModel) -> ValueModel {
    if enabled(settings.flamegraph, false) {
        ValueModel::Text("npx"@)
    } else {
        ValueModel::InGeneration(runtime_binary(platform))
    }
}

/// The arguments that hand the runtime binary to the profiler; none where the
/// runtime binary is started itself.
pub open spec fn profiler_args(platform: Platform, settings: SettingsModel) -> Seq<ValueModel> {
    if enabled(settings.flamegraph, false) {
        seq![
            ValueModel::Text("0x"@),
            ValueModel::Text("--"@),
            ValueModel::InGeneration(runtime_binary(platform)),
        ]
    } else {
        Seq::empty()
    }
}

/// The arguments that size the heap and silence deprecation warnings.
pub open spec fn heap_args(settings: SettingsModel) -> Seq<ValueModel> {
    seq![
        ValueModel::Text("--max-semi-space-size="@ + value_or(settings.max_semi_space_size, "64"@)),
        ValueModel::Text("--max-old-space-size="@ + value_or(settings.max_old_space_size, "4096"@)),
        ValueModel::Text("--no-deprecation"@),
    ]
}

/// The user's further parameters for the runtime, one argument per piece.
pub open spec fn extra_args(settings: SettingsModel) -> Seq<ValueModel> {
    match settings.node_extra_params {
        Some(list) => split_on(list, ',').map_values(|piece: Seq<char>| ValueModel::Text(piece)),
        None => Seq::empty(),
    }
}

/// The arguments of the launcher that are passed on: all but the first, which
/// names the launcher itself.
pub open spec fn passed_on(sea_args: Seq<Seq<char>>) -> Seq<ValueModel> {
    if sea_args.len() == 0 {
        Seq::empty()
    } else {
        sea_args.drop_first().map_values(|arg: Seq<char>| ValueModel::Text(arg))
    }
}

/// The arguments of the program, in order.
pub open spec fn args_of(
    platform: Platform,
    settings: SettingsModel,
    sea_args: Seq<Seq<char>>,
) -> Seq<ValueModel> {
    profiler_args(platform, settings) + heap_args(settings) + extra_args(settings) + seq![
        ValueModel::InGeneration(entry_script()),
    ] + passed_on(sea_args)
}

/// The environment variables set for the program, in order.
pub open spec fn env_of(settings: SettingsModel) -> Seq<(Seq<char>, ValueModel)> {
    let identity = seq![
        ("GARDEN_SEA_EXTRACTED_ROOT"@, ValueModel::InGeneration(Seq::empty())),
        ("GARDEN_SEA_EXECUTABLE_PATH"@, ValueModel::Launcher),
    ];
    let target = match settings.target_env {
        Some(flavour) => seq![("GARDEN_SEA_TARGET_ENV"@, ValueModel::Text(flavour))],
        None => Seq::empty(),
    };
    let cache = if enabled(settings.compile_cache, true) {
        seq![("NODE_COMPILE_CACHE"@, ValueModel::InGeneration(compile_cache_dir()))]
    } else {
        Seq::empty()
    };
    identity + target + cache
}

/// How the runtime is started on `platform` under `settings`, for a launcher
/// that was itself called with `sea_args`.
pub open spec fn invocation_of(
    platform: Platform,
    settings: SettingsModel,
    sea_args: Seq<Seq<char>>,
) -> InvocationModel {
    InvocationModel {
        program: program_of(platform, settings),
        args: args_of(platform, settings, sea_args),
        env: env_of(settings),
        cache_dir: if enabled(settings.compile_cache, true) {
            Some(compile_cache_dir())
        } else {
            None
        },
    }
}

/// Whether a toggle is on.
pub fn is_enabled(toggle: &Option<String>, default_on: bool) -> (on: bool)
    ensures
        on == enabled(toggle.deep_view(), default_on),
{
    match toggle {
        Some(value) => same_name(value.as_str(), "true") || same_name(value.as_str(), "1"),
        None => default_on,
    }
}

/// Splits `text` at every occurrence of `separator`.
pub fn split(text: &str, separator: char) -> (pieces: Vec<String>)
    ensures
        pieces.deep_view() == split_on(text@, separator),
{
    let mut done: Vec<String> = Vec::new();
    let mut piece = String::new();
    assert(text@.take(0) =~= Seq::empty());
    assert(done.deep_view().push(piece@) =~= seq![Seq::empty()]);
    for c in it: text.chars()
        invariant
            it.seq() == text@,
            done.deep_view().push(piece@) == split_on(text@.take(it.index() as int), separator),
    {
        let ghost so_far = text@.take(it.index() as int);
        let ghost longer = text@.take(it.index() + 1);
        let ghost before = done.deep_view();
        let ghost open = piece@;
        assert(longer.drop_last() =~= so_far);
        assert(longer.last() == c);
        assert(before.push(open).drop_last() =~= before);
        if c == separator {
            done.push(piece);
            piece = String::new();
            assert(done.deep_view() =~= before.push(open));
        } else {
            piece.push(c);
        }
    }
    assert(text@.take(text@.len() as int) =~= text@);
    let ghost before = done.deep_view();
    let ghost open = piece@;
    done.push(piece);
    assert(done.deep_view() =~= before.push(open));
    done
}

fn text(word: &str) -> (value: Value)
    ensures
        value@ == ValueModel::Text(word@),
{
    Value::Text(String::from_str(word))
}

fn inside(first: &str, second: &str) -> (parts: Vec<String>)
    ensures
        parts.deep_view() == seq![first@, second@],
{
    let mut parts: Vec<String> = Vec::new();
    parts.push(String::from_str(first));
    parts.push(String::from_str(second));
    assert(parts.deep_view() =~= seq![first@, second@]);
    parts
}

fn runtime_binary_parts(platform: Platform) -> (parts: Vec<String>)
    ensures
        parts.deep_view() == runtime_binary(platform),
{
    match platform {
        Platform::Unix => inside("bin", "node"),
        Platform::Windows => inside("bin", "node.exe"),
    }
}

fn compile_cache_parts() -> (parts: Vec<String>)
    ensures
        parts.deep_view() == compile_cache_dir(),
{
    let mut parts: Vec<String> = Vec::new();
    parts.push(String::from_str("v8cache"));
    assert(parts.deep_view() =~= compile_cache_dir());
    parts
}

fn setting(prefix: &str, value: &Option<String>, fallback: &str) -> (word: Value)
    ensures
        word@ == ValueModel::Text(prefix@ + value_or(value.deep_view(), fallback@)),
{
    let mut word = String::from_str(prefix);
    match value {
        Some(given) => word.append(given.as_str()),
        None => word.append(fallback),
    }
    Value::Text(word)
}

fn garden_args(
    platform: Platform,
    settings: &LaunchSettings,
    sea_args: &[String],
) -> (args: Vec<Value>)
    ensures
        args.deep_view() == args_of(platform, settings@, sea_args.deep_view()),
{
    let mut args: Vec<Value> = Vec::new();
    assert(args.deep_view() =~= Seq::empty());
    if is_enabled(&settings.flamegraph, false) {
        args.push(text("0x"));
        args.push(text("--"));
        args.push(Value::InGeneration(runtime_binary_parts(platform)));
    }
    assert(args.deep_view() =~= profiler_args(platform, settings@));
    args.push(setting("--max-semi-space-size=", &settings.max_semi_space_size, "64"));
    args.push(setting("--max-old-space-size=", &settings.max_old_space_size, "4096"));
    args.push(text("--no-deprecation"));
    assert(args.deep_view() =~= profiler_args(platform, settings@) + heap_args(settings@));
    let ghost fixed = args.deep_view();
    match &settings.node_extra_params {
        Some(list) => {
            let pieces = split(list.as_str(), ',');
            let mut i: usize = 0;
            while i < pieces.len()
                invariant
                    i <= pieces.len(),
                    pieces.deep_view() == split_on(list@, ','),
                    args.deep_view() == fixed + pieces.deep_view().take(i as int).map_values(
                        |piece: Seq<char>| ValueModel::Text(piece),
                    ),
                decreases pieces.len() - i,
            {
                let ghost before = args.deep_view();
                args.push(Value::Text(pieces[i].clone()));
                assert(args.deep_view() =~= before.push(
                    ValueModel::Text(pieces.deep_view()[i as int]),
                ));
                assert(pieces.deep_view().take(i + 1) =~= pieces.deep_view().take(i as int).push(
                    pieces.deep_view()[i as int],
                ));
                i += 1;
            }
            assert(pieces.deep_view().take(pieces.len() as int) =~= pieces.deep_view());
        },
        None => {},
    }
    assert(args.deep_view() =~= fixed + extra_args(settings@));
    args.push(Value::InGeneration(inside("rollup", "garden.mjs")));
    let ghost head = args.deep_view();
    assert(head =~= fixed + extra_args(settings@) + seq![ValueModel::InGeneration(entry_script())]);
    let mut j: usize = 1;
    while j < sea_args.len()
        invariant
            1 <= j,
            sea_args.len() > 0 ==> j <= sea_args.len(),
            sea_args.len() > 0 ==> args.deep_view() == head + sea_args.deep_view().drop_first().take(
                j - 1,
            ).map_values(|arg: Seq<char>| ValueModel::Text(arg)),
            sea_args.len() == 0 ==> args.deep_view() == head,
        decreases sea_args.len() - j,
    {
        let ghost before = args.deep_view();
        let ghost rest = sea_args.deep_view().drop_first();
        args.push(Value::Text(sea_args[j].clone()));
        assert(args.deep_view() =~= before.push(ValueModel::Text(sea_args.deep_view()[j as int])));
        assert(rest.take(j as int) =~= rest.take(j - 1).push(sea_args.deep_view()[j as int]));
        j += 1;
    }
    proof {
        if sea_args.len() > 0 {
            let rest = sea_args.deep_view().drop_first();
            assert(rest.take(sea_args.len() - 1) =~= rest);
        }
    }
    args
}

fn garden_env(settings: &LaunchSettings) -> (env: Vec<(String, Value)>)
    ensures
        env.deep_view() == env_of(settings@),
{
    let mut env: Vec<(String, Value)> = Vec::new();
    let root: Vec<String> = Vec::new();
    assert(root.deep_view() =~= Seq::empty());
    env.push((String::from_str("GARDEN_SEA_EXTRACTED_ROOT"), Value::InGeneration(root)));
    env.push((String::from_str("GARDEN_SEA_EXECUTABLE_PATH"), Value::Launcher));
    let ghost identity = seq![
        ("GARDEN_SEA_EXTRACTED_ROOT"@, ValueModel::InGeneration(Seq::empty())),
        ("GARDEN_SEA_EXECUTABLE_PATH"@, ValueModel::Launcher),
    ];
    assert(env.deep_view() =~= identity);
    match &settings.target_env {
        Some(flavour) => {
            env.push((String::from_str("GARDEN_SEA_TARGET_ENV"), Value::Text(flavour.clone())));
            assert(env.deep_view() =~= identity + seq![
                ("GARDEN_SEA_TARGET_ENV"@, ValueModel::Text(flavour@)),
            ]);
        },
        None => {
            assert(env.deep_view() =~= identity + Seq::empty());
        },
    }
    let ghost told = env.deep_view();
    if is_enabled(&settings.compile_cache, true) {
        env.push((String::from_str("NODE_COMPILE_CACHE"), Value::InGeneration(compile_cache_parts())));
        assert(env.deep_view() =~= told + seq![
            ("NODE_COMPILE_CACHE"@, ValueModel::InGeneration(compile_cache_dir())),
        ]);
    } else {
        assert(env.deep_view() =~= told + Seq::empty());
    }
    env
}

/// Describes how the runtime is started from a generation directory: the
/// program, its arguments, the environment variables that tell the child
/// where it was extracted and which launcher started it, and the directory
/// to create beforehand. `sea_args` are the launcher's own arguments; all but
/// the first are passed on behind the entry script.
pub fn garden_invocation(
    platform: Platform,
    settings: &LaunchSettings,
    sea_args: &[String],
) -> (plan: Invocation)
    ensures
        plan@ == invocation_of(platform, settings@, sea_args.deep_view()),
{
    let program = if is_enabled(&settings.flamegraph, false) {
        text("npx")
    } else {
        Value::InGeneration(runtime_binary_parts(platform))
    };
    let cache_dir = if is_enabled(&settings.compile_cache, true) {
        Some(compile_cache_parts())
    } else {
        None
    };
    Invocation {
        program,
        args: garden_args(platform, settings, sea_args),
        env: garden_env(settings),
        cache_dir,
    }
}

/// What waiting for the runtime brought.
#[derive(Debug, Copy, Clone, PartialEq, Eq, Structural)]
pub enum WaitReport {
    /// The runtime ended with this exit code.
    Code(i32),
    /// The runtime ended without an exit code: a signal ended it.
    NoCode,
    /// The wait itself failed, so nothing is known of how the runtime ended.
    Lost,
}

/// How the runtime ended.
#[derive(Debug, Copy, Clone, PartialEq, Eq, Structural)]
pub enum ExitOutcome {
    /// It ended of its own accord, with this exit code.
    Exited(i32),
    /// It ended without an exit code that could be attributed to it.
    TerminatedBySignal,
}

/// Why a launch came to nothing.
#[derive(Debug, Copy, Clone, PartialEq, Eq, Structural)]
pub enum LaunchError {
    /// No generation directory could be had.
    SelfExtract,
    /// The runtime could not be started.
    Spawn,
    /// The interrupt relay could not be installed.
    InstallRelay,
}

/// The outcome that a wait report stands for. A lost wait counts as an end
/// without exit code.
pub open spec fn outcome_of(report: WaitReport) -> ExitOutcome {
    match report {
        WaitReport::Code(code) => ExitOutcome::Exited(code),
        WaitReport::NoCode => ExitOutcome::TerminatedBySignal,
        WaitReport::Lost => ExitOutcome::TerminatedBySignal,
    }
}

/// The launcher's exit code after the runtime ended: the runtime's own, or
/// the fallback where it left none.
pub open spec fn exit_code_of(outcome: ExitOutcome) -> i32 {
    match outcome {
        ExitOutcome::Exited(code) => code,
        ExitOutcome::TerminatedBySignal => FALLBACK_EXIT_CODE,
    }
}

/// The launcher's exit code at the end of a launch.
pub open spec fn process_exit_code_of(end: Result<ExitOutcome, LaunchError>) -> i32 {
    match end {
        Ok(outcome) => exit_code_of(outcome),
        Err(_) => FAILURE_EXIT_CODE,
    }
}

/// Reads a wait report as the outcome of the runtime.
pub fn wait(report: WaitReport) -> (outcome: ExitOutcome)
    ensures
        outcome == outcome_of(report),
{
    match report {
        WaitReport::Code(code) => ExitOutcome::Exited(code),
        WaitReport::NoCode => ExitOutcome::TerminatedBySignal,
        WaitReport::Lost => ExitOutcome::TerminatedBySignal,
    }
}

/// The exit code with which the launcher ends after the runtime has ended.
pub fn launcher_exit_code(outcome: ExitOutcome) -> (code: i32)
    ensures
        code == exit_code_of(outcome),
{
    match outcome {
        ExitOutcome::Exited(code) => code,
        ExitOutcome::TerminatedBySignal => FALLBACK_EXIT_CODE,
    }
}

/// The exit code with which the launcher ends: that of the runtime where it
/// ran, and a fixed code where the launch failed before.
pub fn process_exit_code(end: Result<ExitOutcome, LaunchError>) -> (code: i32)
    ensures
        code == process_exit_code_of(end),
{
    match end {
        Ok(outcome) => launcher_exit_code(outcome),
        Err(_) => FAILURE_EXIT_CODE,
    }
}

/// The launcher ends with the exit code of the runtime wherever the runtime
/// left one, and with the fallback code wherever it left none.
pub proof fn lemma_exit_code_propagates(report: WaitReport)
    ensures
        report matches WaitReport::Code(code) ==> process_exit_code_of(Ok(outcome_of(report)))
            == code,
        !(report is Code) ==> process_exit_code_of(Ok(outcome_of(report))) == FALLBACK_EXIT_CODE,
{
}

/// The pieces put together again, with `separator` between each two.
pub open spec fn joined(pieces: Seq<Seq<char>>, separator: char) -> Seq<char>
    decreases pieces.len(),
{
    if pieces.len() == 0 {
        Seq::empty()
    } else if pieces.len() == 1 {
        pieces[0]
    } else {
        joined(pieces.drop_last(), separator).push(separator) + pieces.last()
    }
}

/// Splitting loses nothing and cuts at every separator: there is at least
/// one piece, no piece holds the separator, and the pieces joined by the
/// separator are the text.
pub proof fn lemma_split_on(text: Seq<char>, separator: char)
    ensures
        split_on(text, separator).len() >= 1,
        forall|i: int, j: int|
            0 <= i < split_on(text, separator).len() && 0 <= j < split_on(text, separator)[i].len()
                ==> #[trigger] split_on(text, separator)[i][j] != separator,
        joined(split_on(text, separator), separator) == text,
    decreases text.len(),
{
    let pieces = split_on(text, separator);
    if text.len() == 0 {
        assert(joined(pieces, separator) =~= text);
    } else {
        let before = split_on(text.drop_last(), separator);
        lemma_split_on(text.drop_last(), separator);
        assert(text =~= text.drop_last().push(text.last()));
        if text.last() == separator {
            assert(pieces.drop_last() =~= before);
            assert(joined(pieces, separator) =~= text);
        } else {
            let grown = before.last().push(text.last());
            assert(pieces.last() == grown);
            if before.len() == 1 {
                assert(before[0] == joined(before, separator));
                assert(joined(pieces, separator) =~= text);
            } else {
                assert(pieces.drop_last() =~= before.drop_last());
                assert(joined(pieces, separator) =~= text);
            }
            assert forall|i: int, j: int|
                0 <= i < pieces.len() && 0 <= j < pieces[i].len() implies #[trigger] pieces[i][j]
                != separator by {
                if i < pieces.len() - 1 {
                    assert(pieces[i] == before[i]);
                } else if j < before.last().len() {
                    assert(pieces[i][j] == before.last()[j]);
                }
            }
        }
    }
}

} // verus!
