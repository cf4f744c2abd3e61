use garden_sea::node::{
    garden_invocation, is_enabled, launcher_exit_code, process_exit_code, split, wait, ExitOutcome,
    Invocation, LaunchError, LaunchSettings, Platform, Value, WaitReport, FAILURE_EXIT_CODE,
    FALLBACK_EXIT_CODE,
};

fn text(word: &str) -> Value {
    Value::Text(word.to_string())
}

fn inside(parts: &[&str]) -> Value {
    Value::InGeneration(parts.iter().map(|part| part.to_string()).collect())
}

fn texts(words: &[&str]) -> Vec<String> {
    words.iter().map(|word| word.to_string()).collect()
}

fn some(word: &str) -> Option<String> {
    Some(word.to_string())
}

#[test]
fn default_invocation_on_unix() {
    let plan = garden_invocation(
        Platform::Unix,
        &LaunchSettings::default(),
        &texts(&["garden", "deploy", "--env", "dev"]),
    );
    assert_eq!(
        plan,
        Invocation {
            program: inside(&["bin", "node"]),
            args: vec![
                text("--max-semi-space-size=64"),
                text("--max-old-space-size=4096"),
                text("--no-deprecation"),
                inside(&["rollup", "garden.mjs"]),
                text("deploy"),
                text("--env"),
                text("dev"),
            ],
            env: vec![
                ("GARDEN_SEA_EXTRACTED_ROOT".to_string(), inside(&[])),
                ("GARDEN_SEA_EXECUTABLE_PATH".to_string(), Value::Launcher),
                ("NODE_COMPILE_CACHE".to_string(), inside(&["v8cache"])),
            ],
            cache_dir: Some(texts(&["v8cache"])),
        }
    );
}

#[test]
fn runtime_binary_on_windows() {
    let plan = garden_invocation(Platform::Windows, &LaunchSettings::default(), &texts(&["garden"]));
    assert_eq!(plan.program, inside(&["bin", "node.exe"]));
    assert_eq!(
        plan.args,
        vec![
            text("--max-semi-space-size=64"),
            text("--max-old-space-size=4096"),
            text("--no-deprecation"),
            inside(&["rollup", "garden.mjs"]),
        ]
    );
}

#[test]
fn no_launcher_arguments_pass_nothing_on() {
    let plan = garden_invocation(Platform::Unix, &LaunchSettings::default(), &[]);
    assert_eq!(plan.args.len(), 4);
    assert_eq!(plan.args[3], inside(&["rollup", "garden.mjs"]));
}

#[test]
fn flame_graph_runs_the_profiler() {
    for on in ["true", "1"] {
        let settings = LaunchSettings { flamegraph: some(on), ..LaunchSettings::default() };
        let plan = garden_invocation(Platform::Unix, &settings, &texts(&["garden", "version"]));
        assert_eq!(plan.program, text("npx"));
        assert_eq!(
            plan.args,
            vec![
                text("0x"),
                text("--"),
                inside(&["bin", "node"]),
                text("--max-semi-space-size=64"),
                text("--max-old-space-size=4096"),
                text("--no-deprecation"),
                inside(&["rollup", "garden.mjs"]),
                text("version"),
            ]
        );
    }
    let settings = LaunchSettings { flamegraph: some("1"), ..LaunchSettings::default() };
    let plan = garden_invocation(Platform::Windows, &settings, &[]);
    assert_eq!(plan.args[2], inside(&["bin", "node.exe"]));
}

#[test]
fn flame_graph_stays_off_for_other_values() {
    for off in ["false", "0", "", "TRUE", "yes", "true "] {
        let settings = LaunchSettings { flamegraph: some(off), ..LaunchSettings::default() };
        let plan = garden_invocation(Platform::Unix, &settings, &texts(&["garden"]));
        assert_eq!(plan.program, inside(&["bin", "node"]));
        assert_eq!(plan.args.len(), 4);
    }
}

#[test]
fn heap_sizes_follow_the_settings() {
    let settings = LaunchSettings {
        max_old_space_size: some("8192"),
        max_semi_space_size: some("128"),
        ..LaunchSettings::default()
    };
    let plan = garden_invocation(Platform::Unix, &settings, &texts(&["garden"]));
    assert_eq!(plan.args[0], text("--max-semi-space-size=128"));
    assert_eq!(plan.args[1], text("--max-old-space-size=8192"));
    let settings = LaunchSettings { max_old_space_size: some(""), ..LaunchSettings::default() };
    let plan = garden_invocation(Platform::Unix, &settings, &texts(&["garden"]));
    assert_eq!(plan.args[1], text("--max-old-space-size="));
}

#[test]
fn compile_cache_can_be_switched_off() {
    for off in ["false", "0", "", "no"] {
        let settings = LaunchSettings { compile_cache: some(off), ..LaunchSettings::default() };
        let plan = garden_invocation(Platform::Unix, &settings, &texts(&["garden"]));
        assert_eq!(plan.cache_dir, None);
        assert_eq!(
            plan.env,
            vec![
                ("GARDEN_SEA_EXTRACTED_ROOT".to_string(), inside(&[])),
                ("GARDEN_SEA_EXECUTABLE_PATH".to_string(), Value::Launcher),
            ]
        );
    }
    for on in ["true", "1"] {
        let settings = LaunchSettings { compile_cache: some(on), ..LaunchSettings::default() };
        let plan = garden_invocation(Platform::Unix, &settings, &texts(&["garden"]));
        assert_eq!(plan.cache_dir, Some(texts(&["v8cache"])));
        assert_eq!(plan.env.len(), 3);
    }
}

#[test]
fn target_env_is_told_to_the_child() {
    let settings = LaunchSettings { target_env: some("musl"), ..LaunchSettings::default() };
    let plan = garden_invocation(Platform::Unix, &settings, &texts(&["garden"]));
    assert_eq!(
        plan.env,
        vec![
            ("GARDEN_SEA_EXTRACTED_ROOT".to_string(), inside(&[])),
            ("GARDEN_SEA_EXECUTABLE_PATH".to_string(), Value::Launcher),
            ("GARDEN_SEA_TARGET_ENV".to_string(), text("musl")),
            ("NODE_COMPILE_CACHE".to_string(), inside(&["v8cache"])),
        ]
    );
}

#[test]
fn extra_parameters_come_before_the_script() {
    let settings = LaunchSettings {
        node_extra_params: some("--inspect,--trace-gc"),
        ..LaunchSettings::default()
    };
    let plan = garden_invocation(Platform::Unix, &settings, &texts(&["garden", "dev"]));
    assert_eq!(
        plan.args,
        vec![
            text("--max-semi-space-size=64"),
            text("--max-old-space-size=4096"),
            text("--no-deprecation"),
            text("--inspect"),
            text("--trace-gc"),
            inside(&["rollup", "garden.mjs"]),
            text("dev"),
        ]
    );
}

#[test]
fn empty_extra_parameters_give_one_empty_argument() {
    let settings = LaunchSettings { node_extra_params: some(""), ..LaunchSettings::default() };
    let plan = garden_invocation(Platform::Unix, &settings, &texts(&["garden"]));
    assert_eq!(plan.args.len(), 5);
    assert_eq!(plan.args[3], text(""));
}

#[test]
fn split_gives_one_more_piece_than_separators() {
    assert_eq!(split("a,b,c", ','), texts(&["a", "b", "c"]));
    assert_eq!(split("", ','), texts(&[""]));
    assert_eq!(split(",", ','), texts(&["", ""]));
    assert_eq!(split("a,,b", ','), texts(&["a", "", "b"]));
    assert_eq!(split(",a,", ','), texts(&["", "a", ""]));
    assert_eq!(split("abc", ','), texts(&["abc"]));
    assert_eq!(split("a b", ','), texts(&["a b"]));
    assert_eq!(split("\u{e9},\u{fc}", ','), texts(&["\u{e9}", "\u{fc}"]));
}

#[test]
fn split_agrees_with_the_standard_library() {
    for sample in ["", ",", ",,", "a", "a,", ",a", "a,b", "--x=1,--y=2,", "a;b,c"] {
        let expected: Vec<String> = sample.split(',').map(|piece| piece.to_string()).collect();
        assert_eq!(split(sample, ','), expected);
    }
}

#[test]
fn toggles_are_on_for_true_and_one() {
    assert!(is_enabled(&some("true"), false));
    assert!(is_enabled(&some("1"), false));
    assert!(!is_enabled(&some("false"), true));
    assert!(!is_enabled(&some("0"), true));
    assert!(!is_enabled(&some(""), true));
    assert!(!is_enabled(&some("True"), true));
    assert!(is_enabled(&None, true));
    assert!(!is_enabled(&None, false));
}

#[test]
fn exit_code_of_the_child_is_passed_on() {
    let outcome = wait(WaitReport::Code(42));
    assert_eq!(outcome, ExitOutcome::Exited(42));
    assert_eq!(launcher_exit_code(outcome), 42);
    assert_eq!(process_exit_code(Ok(outcome)), 42);
}

#[test]
fn every_exit_code_is_passed_on() {
    for code in [0, 1, 11, 255, -1, i32::MAX, i32::MIN] {
        assert_eq!(process_exit_code(Ok(wait(WaitReport::Code(code)))), code);
    }
}

#[test]
fn child_ended_by_signal_gives_the_fallback_code() {
    let outcome = wait(WaitReport::NoCode);
    assert_eq!(outcome, ExitOutcome::TerminatedBySignal);
    assert_eq!(launcher_exit_code(outcome), 11);
    assert_eq!(process_exit_code(Ok(outcome)), 11);
    assert_eq!(FALLBACK_EXIT_CODE, 11);
}

#[test]
fn lost_wait_counts_as_ended_by_signal() {
    assert_eq!(wait(WaitReport::Lost), ExitOutcome::TerminatedBySignal);
    assert_eq!(process_exit_code(Ok(wait(WaitReport::Lost))), 11);
}

#[test]
fn failed_launch_gives_the_failure_code() {
    for error in [LaunchError::SelfExtract, LaunchError::Spawn, LaunchError::InstallRelay] {
        assert_eq!(process_exit_code(Err(error)), 1);
    }
    assert_eq!(FAILURE_EXIT_CODE, 1);
}
