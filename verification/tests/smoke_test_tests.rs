use devignite::smoke_test::{
    check_stdout_pattern, test_cases_for, SmokeTestConfig, SmokeTestError, SmokeTestRunner,
    SuiteAction, TestRun,
};

fn names(cfg: &SmokeTestConfig) -> Vec<String> {
    cfg.test_cases.iter().map(|c| c.name.clone()).collect()
}

#[test]
fn python_defaults() {
    let cfg = SmokeTestConfig::default_for_language("Python", "3.12", "/py/bin/python3");
    assert_eq!(cfg.language, "Python");
    assert_eq!(cfg.version, "3.12");
    assert_eq!(cfg.binary_path, "/py/bin/python3");
    assert_eq!(names(&cfg), vec!["version_check", "import_test", "pip_check"]);
    let first = &cfg.test_cases[0];
    assert_eq!(first.command, "/py/bin/python3");
    assert_eq!(first.args, vec!["--version"]);
    assert_eq!(first.expected_exit_code, 0);
    assert_eq!(first.timeout_secs, 10);
    assert_eq!(first.stdin_input, None);
    assert_eq!(first.expected_stdout_pattern.as_deref(), Some("Python 3"));
    assert_eq!(cfg.test_cases[2].args, vec!["-m", "pip", "--version"]);
}

#[test]
fn node_and_aliases() {
    let cfg = SmokeTestConfig::default_for_language("NODEJS", "20", "/n/node");
    assert_eq!(names(&cfg), vec!["version_check", "eval_js", "npm_check"]);
    assert_eq!(cfg.test_cases[1].expected_stdout_pattern.as_deref(), Some("4"));
    assert_eq!(cfg.test_cases[2].expected_stdout_pattern.as_deref(), Some("true"));
}

#[test]
fn rust_checks_cargo_next_to_rustc() {
    let cfg = SmokeTestConfig::default_for_language("rustc", "1.80", "/r/bin/rustc");
    assert_eq!(names(&cfg), vec!["version_check", "cargo_check"]);
    assert_eq!(cfg.test_cases[1].command, "/r/bin/cargo");
}

#[test]
fn other_languages() {
    assert_eq!(names(&SmokeTestConfig::default_for_language("golang", "1", "/g")), vec!["version_check", "env_check"]);
    let java = SmokeTestConfig::default_for_language("JDK", "21", "/j");
    assert_eq!(java.test_cases[0].args, vec!["-version"]);
    assert_eq!(names(&SmokeTestConfig::default_for_language("g++", "13", "/c")), vec!["version_check"]);
    assert_eq!(names(&SmokeTestConfig::default_for_language("Ruby", "3", "/rb")), vec!["version_check", "eval_ruby"]);
    assert_eq!(names(&SmokeTestConfig::default_for_language("deno", "2", "/d")), vec!["version_check", "eval_ts"]);
    let zig = SmokeTestConfig::default_for_language("zig", "0.13", "/z");
    assert_eq!(names(&zig), vec!["version_check"]);
    assert_eq!(zig.test_cases[0].args, vec!["--version"]);
}

#[test]
fn lower_casing_is_unicode_aware() {
    // The Kelvin sign lower-cases to 'k'.
    let cfg = SmokeTestConfig::default_for_language("JD\u{212A}", "21", "/j");
    assert_eq!(cfg.test_cases[0].args, vec!["-version"]);
    assert_eq!(test_cases_for("Python", "/p").len(), 1);
}

#[test]
fn stdout_pattern() {
    assert!(check_stdout_pattern("Python 3.12.1", Some("Python 3")));
    assert!(!check_stdout_pattern("Python 2.7", Some("Python 3")));
    assert!(check_stdout_pattern("anything", None));
}

#[test]
fn runner_bounds() {
    assert_eq!(SmokeTestRunner::new().timeout_secs, 30);
    assert_eq!(SmokeTestRunner::with_timeout(5).timeout_secs, 5);
}

#[test]
fn suite_collects_outcomes_in_order() {
    let cfg = SmokeTestConfig::default_for_language("node", "20", "/n/node");
    let runner = SmokeTestRunner::new();
    let mut run = runner.run_suite(cfg);
    assert!(matches!(run.next_action(0), SuiteAction::RunTest { index: 0 }));
    assert!(run
        .record(TestRun::Completed { exit_code: Some(0), stdout: "v20.1.0\n".into(), stderr: String::new(), duration_ms: 7 })
        .is_none());
    assert!(matches!(run.next_action(8), SuiteAction::RunTest { index: 1 }));
    assert!(run
        .record(TestRun::Completed { exit_code: Some(0), stdout: "5\n".into(), stderr: "warn".into(), duration_ms: 3 })
        .is_none());
    assert!(matches!(run.next_action(12), SuiteAction::RunTest { index: 2 }));
    assert!(run.record(TestRun::BinaryMissing { duration_ms: 1 }).is_none());
    match run.next_action(15) {
        SuiteAction::Finish(Ok(res)) => {
            assert_eq!(res.language, "node");
            assert_eq!(res.version, "20");
            assert!(!res.all_passed);
            assert_eq!(res.total_duration_ms, 15);
            assert_eq!(res.outcomes.len(), 3);
            assert!(res.outcomes[0].passed);
            assert_eq!(res.outcomes[0].stdout, "v20.1.0\n");
            assert!(!res.outcomes[1].passed);
            assert_eq!(res.outcomes[1].stderr, "warn");
            assert_eq!(res.outcomes[2].test_name, "npm_check");
            assert_eq!(res.outcomes[2].exit_code, -1);
            assert_eq!(res.outcomes[2].error.as_deref(), Some("Binary not found at: /n/node"));
        }
        _ => panic!("expected a result"),
    }
    assert!(matches!(run.next_action(16), SuiteAction::Finish(Err(SmokeTestError::UnexpectedResult))));
}

#[test]
fn suite_all_passed_and_signal_exit() {
    let cfg = SmokeTestConfig::default_for_language("java", "21", "/j/java");
    let mut run = SmokeTestRunner::new().run_suite(cfg);
    run.next_action(0);
    run.record(TestRun::Completed { exit_code: Some(0), stdout: String::new(), stderr: "openjdk".into(), duration_ms: 2 });
    match run.next_action(3) {
        SuiteAction::Finish(Ok(res)) => assert!(res.all_passed),
        _ => panic!("expected a result"),
    }
    let cfg = SmokeTestConfig::default_for_language("java", "21", "/j/java");
    let mut run = SmokeTestRunner::new().run_suite(cfg);
    run.next_action(0);
    run.record(TestRun::Completed { exit_code: None, stdout: String::new(), stderr: String::new(), duration_ms: 2 });
    match run.next_action(3) {
        SuiteAction::Finish(Ok(res)) => {
            assert!(!res.all_passed);
            assert_eq!(res.outcomes[0].exit_code, -1);
        }
        _ => panic!("expected a result"),
    }
}

#[test]
fn suite_stops_when_a_test_cannot_run() {
    let cfg = SmokeTestConfig::default_for_language("python", "3", "/p");
    let mut run = SmokeTestRunner::new().run_suite(cfg);
    run.next_action(0);
    match run.record(TestRun::Failed { message: "Failed to execute test command".into() }) {
        Some(SmokeTestError::RunFailed(m)) => assert_eq!(m, "Failed to execute test command"),
        _ => panic!("expected failure"),
    }
    assert!(run.finished);
}

#[test]
fn empty_suite_passes() {
    let cfg = SmokeTestConfig { language: "x".into(), version: "1".into(), binary_path: "/x".into(), test_cases: vec![] };
    let mut run = SmokeTestRunner::new().run_suite(cfg);
    match run.next_action(0) {
        SuiteAction::Finish(Ok(res)) => {
            assert!(res.all_passed);
            assert!(res.outcomes.is_empty());
        }
        _ => panic!("expected a result"),
    }
}

#[test]
fn language_case_does_not_change_the_test_cases() {
    let a = SmokeTestConfig::default_for_language("PyThOn", "3", "/p");
    let b = SmokeTestConfig::default_for_language("python", "3", "/p");
    assert_eq!(a.language, "PyThOn");
    assert_eq!(names(&a), names(&b));
    assert_eq!(a.test_cases.len(), b.test_cases.len());
    for (x, y) in a.test_cases.iter().zip(b.test_cases.iter()) {
        assert_eq!(x.args, y.args);
        assert_eq!(x.expected_stdout_pattern, y.expected_stdout_pattern);
    }
}
