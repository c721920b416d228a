//! Smoke tests of an installed runtime: the default test cases per language,
//! and the decisions of a test-suite run.
//!
//! A suite run is a state machine (`SuiteRun`): it asks for one test case to
//! be run at a time and turns each process result into an outcome.
use vstd::prelude::*;
use crate::checksum::{to_lowercase, unicode_lowercase};
use crate::text::{
    ascii_lowercase, concat, contains, contains_str, is_ascii_text, lemma_ascii_lowercase_idempotent,
    owned, replace_all, replace_str,
};

verus! {

/// A smoke-test configuration for one runtime.
pub struct SmokeTestConfig {
    pub language: String,
    pub version: String,
    pub binary_path: String,
    pub test_cases: Vec<TestCase>,
}

/// One command to run and what it should produce.
pub struct TestCase {
    pub name: String,
    pub command: String,
    pub args: Vec<String>,
    pub expected_exit_code: i32,
    pub timeout_secs: u64,
    pub stdin_input: Option<String>,
    pub expected_stdout_pattern: Option<String>,
}

/// The result of one test case.
pub struct SmokeTestOutcome {
    pub test_name: String,
    pub passed: bool,
    pub exit_code: i32,
    pub stdout: String,
    pub stderr: String,
    pub duration_ms: u64,
    pub error: Option<String>,
}

/// The result of a whole suite.
pub struct SmokeTestSuiteResult {
    pub language: String,
    pub version: String,
    pub all_passed: bool,
    pub outcomes: Vec<SmokeTestOutcome>,
    pub total_duration_ms: u64,
}

/// Runs smoke-test suites.
pub struct SmokeTestRunner {
    /// The runner's upper bound on a test's duration, in seconds.
    pub timeout_secs: u64,
}

/// A test case as plain values.
pub struct TestCaseView {
    pub name: Seq<char>,
    pub command: Seq<char>,
    pub args: Seq<Seq<char>>,
    pub expected_exit_code: i32,
    pub timeout_secs: u64,
    pub stdin_input: Option<Seq<char>>,
    pub expected_stdout_pattern: Option<Seq<char>>,
}

pub open spec fn opt_view(o: Option<String>) -> Option<Seq<char>> {
    match o {
        Some(s) => Some(s@),
        None => None,
    }
}

pub open spec fn strings_view(v: Seq<String>) -> Seq<Seq<char>> {
    v.map_values(|s: String| s@)
}

impl View for TestCase {
    type V = TestCaseView;

    open spec fn view(&self) -> TestCaseView {
        TestCaseView {
            name: self.name@,
            command: self.command@,
            args: strings_view(self.args@),
            expected_exit_code: self.expected_exit_code,
            timeout_secs: self.timeout_secs,
            stdin_input: opt_view(self.stdin_input),
            expected_stdout_pattern: opt_view(self.expected_stdout_pattern),
        }
    }
}

/// The views of a list of test cases.
pub open spec fn cases_view(v: Seq<TestCase>) -> Seq<TestCaseView> {
    v.map_values(|c: TestCase| c@)
}

/// A default test case: it expects exit code 0 within 10 seconds and feeds
/// nothing on standard input.
pub open spec fn smoke_case(
    name: Seq<char>,
    command: Seq<char>,
    args: Seq<Seq<char>>,
    pattern: Option<Seq<char>>,
) -> TestCaseView {
    TestCaseView {
        name,
        command,
        args,
        expected_exit_code: 0,
        timeout_secs: 10,
        stdin_input: None,
        expected_stdout_pattern: pattern,
    }
}

/// The default test cases for a (lower-cased) language name.
pub open spec fn default_test_cases(lang: Seq<char>, bin: Seq<char>) -> Seq<TestCaseView> {
    let version = smoke_case("version_check"@, bin, seq!["--version"@], None);
    if lang == "python"@ {
        seq![
            smoke_case("version_check"@, bin, seq!["--version"@], Some("Python 3"@)),
            smoke_case(
                "import_test"@,
                bin,
                seq![
                    "-c"@,
                    "import sys; print(f'{sys.version_info.major}.{sys.version_info.minor}')"@,
                ],
                None,
            ),
            smoke_case("pip_check"@, bin, seq!["-m"@, "pip"@, "--version"@], None),
        ]
    } else if lang == "node"@ || lang == "nodejs"@ {
        seq![
            smoke_case("version_check"@, bin, seq!["--version"@], Some("v"@)),
            smoke_case("eval_js"@, bin, seq!["-e"@, "console.log(2+2)"@], Some("4"@)),
            smoke_case(
                "npm_check"@,
                bin,
                seq!["-e"@, "console.log(require('module').builtinModules.length > 0)"@],
                Some("true"@),
            ),
        ]
    } else if lang == "rust"@ || lang == "rustc"@ {
        seq![
            version,
            smoke_case(
                "cargo_check"@,
                replace_all(bin, "rustc"@, "cargo"@),
                seq!["--version"@],
                None,
            ),
        ]
    } else if lang == "go"@ || lang == "golang"@ {
        seq![
            smoke_case("version_check"@, bin, seq!["version"@], None),
            smoke_case("env_check"@, bin, seq!["env"@, "GOPATH"@], None),
        ]
    } else if lang == "java"@ || lang == "jdk"@ {
        seq![smoke_case("version_check"@, bin, seq!["-version"@], None)]
    } else if lang == "gcc"@ || lang == "g++"@ || lang == "cpp"@ || lang == "c"@ {
        seq![version]
    } else if lang == "ruby"@ {
        seq![version, smoke_case("eval_ruby"@, bin, seq!["-e"@, "puts 2+2"@], Some("4"@))]
    } else if lang == "deno"@ {
        seq![version, smoke_case("eval_ts"@, bin, seq!["eval"@, "console.log(2+2)"@], Some("4"@))]
    } else {
        seq![version]
    }
}

/// Standard output passes when it contains the expected pattern, if any.
pub open spec fn stdout_matches(stdout: Seq<char>, pattern: Option<Seq<char>>) -> bool {
    match pattern {
        Some(p) => contains(stdout, p),
        None => true,
    }
}

// ---------------------------------------------------------------------------
// Default configuration
// ---------------------------------------------------------------------------

fn args1(a: &str) -> (r: Vec<String>)
    ensures
        strings_view(r@) == seq![a@],
{
    let r = vec![owned(a)];
    assert(strings_view(r@) =~= seq![a@]);
    r
}

fn args2(a: &str, b: &str) -> (r: Vec<String>)
    ensures
        strings_view(r@) == seq![a@, b@],
{
    let r = vec![owned(a), owned(b)];
    assert(strings_view(r@) =~= seq![a@, b@]);
    r
}

fn args3(a: &str, b: &str, c: &str) -> (r: Vec<String>)
    ensures
        strings_view(r@) == seq![a@, b@, c@],
{
    let r = vec![owned(a), owned(b), owned(c)];
    assert(strings_view(r@) =~= seq![a@, b@, c@]);
    r
}

fn cases1(a: TestCase) -> (r: Vec<TestCase>)
    ensures
        cases_view(r@) == seq![a@],
{
    let ghost va = a@;
    let r = vec![a];
    assert(cases_view(r@) =~= seq![va]);
    r
}

fn cases2(a: TestCase, b: TestCase) -> (r: Vec<TestCase>)
    ensures
        cases_view(r@) == seq![a@, b@],
{
    let ghost va = a@;
    let ghost vb = b@;
    let r = vec![a, b];
    assert(cases_view(r@) =~= seq![va, vb]);
    r
}

fn cases3(a: TestCase, b: TestCase, c: TestCase) -> (r: Vec<TestCase>)
    ensures
        cases_view(r@) == seq![a@, b@, c@],
{
    let ghost va = a@;
    let ghost vb = b@;
    let ghost vc = c@;
    let r = vec![a, b, c];
    assert(cases_view(r@) =~= seq![va, vb, vc]);
    r
}

fn smoke_case_exec(name: &str, command: &str, args: Vec<String>, pattern: Option<&str>) -> (r:
    TestCase)
    ensures
        r@ == smoke_case(
            name@,
            command@,
            strings_view(args@),
            match pattern {
                Some(p) => Some(p@),
                None => None,
            },
        ),
{
    TestCase {
        name: owned(name),
        command: owned(command),
        args,
        expected_exit_code: 0,
        timeout_secs: 10,
        stdin_input: None,
        expected_stdout_pattern: match pattern {
            Some(p) => Some(owned(p)),
            None => None,
        },
    }
}

fn is(lang: &String, name: &str) -> (r: bool)
    ensures
        r == (lang@ == name@),
{
    *lang == owned(name)
}

/// The default test cases for a language name that is already lower-cased.
pub fn test_cases_for(lang: &str, bin: &str) -> (r: Vec<TestCase>)
    ensures
        cases_view(r@) == default_test_cases(lang@, bin@),
{
    let l = owned(lang);
    if is(&l, "python") {
        cases3(
            smoke_case_exec("version_check", bin, args1("--version"), Some("Python 3")),
            smoke_case_exec(
                "import_test",
                bin,
                args2(
                    "-c",
                    "import sys; print(f'{sys.version_info.major}.{sys.version_info.minor}')",
                ),
                None,
            ),
            smoke_case_exec("pip_check", bin, args3("-m", "pip", "--version"), None),
        )
    } else if is(&l, "node") || is(&l, "nodejs") {
        cases3(
            smoke_case_exec("version_check", bin, args1("--version"), Some("v")),
            smoke_case_exec("eval_js", bin, args2("-e", "console.log(2+2)"), Some("4")),
            smoke_case_exec(
                "npm_check",
                bin,
                args2("-e", "console.log(require('module').builtinModules.length > 0)"),
                Some("true"),
            ),
        )
    } else if is(&l, "rust") || is(&l, "rustc") {
        proof {
            reveal_strlit("rustc");
        }
        let cargo = replace_str(bin, "rustc", "cargo");
        cases2(
            smoke_case_exec("version_check", bin, args1("--version"), None),
            smoke_case_exec("cargo_check", cargo.as_str(), args1("--version"), None),
        )
    } else if is(&l, "go") || is(&l, "golang") {
        cases2(
            smoke_case_exec("version_check", bin, args1("version"), None),
            smoke_case_exec("env_check", bin, args2("env", "GOPATH"), None),
        )
    } else if is(&l, "java") || is(&l, "jdk") {
        cases1(smoke_case_exec("version_check", bin, args1("-version"), None))
    } else if is(&l, "gcc") || is(&l, "g++") || is(&l, "cpp") || is(&l, "c") {
        cases1(smoke_case_exec("version_check", bin, args1("--version"), None))
    } else if is(&l, "ruby") {
        cases2(
            smoke_case_exec("version_check", bin, args1("--version"), None),
            smoke_case_exec("eval_ruby", bin, args2("-e", "puts 2+2"), Some("4")),
        )
    } else if is(&l, "deno") {
        cases2(
            smoke_case_exec("version_check", bin, args1("--version"), None),
            smoke_case_exec("eval_ts", bin, args2("eval", "console.log(2+2)"), Some("4")),
        )
    } else {
        cases1(smoke_case_exec("version_check", bin, args1("--version"), None))
    }
}

/// Every language's suite starts with the version check: it runs the
/// runtime's binary and expects exit code 0 within 10 seconds, with nothing
/// on standard input.  Go's binary is asked `version`, Java's `-version`, and
/// every other one `--version`.  Every case expects exit code 0 within 10
/// seconds and runs the runtime's binary, except Rust's second, which runs
/// the `cargo` beside `rustc`.
pub proof fn law_version_check_comes_first(lang: Seq<char>, bin: Seq<char>)
    ensures
        default_test_cases(lang, bin).len() >= 1,
        default_test_cases(lang, bin)[0].name == "version_check"@,
        default_test_cases(lang, bin)[0].command == bin,
        default_test_cases(lang, bin)[0].expected_exit_code == 0,
        default_test_cases(lang, bin)[0].timeout_secs == 10,
        default_test_cases(lang, bin)[0].stdin_input is None,
        default_test_cases(lang, bin)[0].args == if lang == "go"@ || lang == "golang"@ {
            seq!["version"@]
        } else if lang == "java"@ || lang == "jdk"@ {
            seq!["-version"@]
        } else {
            seq!["--version"@]
        },
        forall|i: int|
            0 <= i < default_test_cases(lang, bin).len() ==> (#[trigger] default_test_cases(
                lang,
                bin,
            )[i]).expected_exit_code == 0 && default_test_cases(lang, bin)[i].timeout_secs == 10
                && default_test_cases(lang, bin)[i].stdin_input is None && (default_test_cases(
                lang,
                bin,
            )[i].command == bin || ((lang == "rust"@ || lang == "rustc"@) && i == 1
                && default_test_cases(lang, bin)[i].command == replace_all(bin, "rustc"@, "cargo"@))),
{
    reveal_strlit("python");
    reveal_strlit("node");
    reveal_strlit("nodejs");
    reveal_strlit("rust");
    reveal_strlit("rustc");
    reveal_strlit("go");
    reveal_strlit("golang");
    reveal_strlit("java");
    reveal_strlit("jdk");
    reveal_strlit("gcc");
    reveal_strlit("g++");
    reveal_strlit("cpp");
    reveal_strlit("c");
    reveal_strlit("ruby");
    reveal_strlit("deno");
    assert("python"@[0] != "nodejs"@[0]);
    assert("python"@[0] != "golang"@[0]);
    assert("node"@[0] != "rust"@[0]);
    assert("node"@[0] != "java"@[0]);
    assert("node"@[0] != "ruby"@[0]);
    assert("node"@[0] != "deno"@[0]);
    assert("nodejs"@[0] != "golang"@[0]);
    assert("rust"@[0] != "java"@[0]);
    assert("rust"@[2] != "ruby"@[2]);
    assert("rust"@[0] != "deno"@[0]);
    assert("java"@[0] != "ruby"@[0]);
    assert("java"@[0] != "deno"@[0]);
    assert("jdk"@[0] != "gcc"@[0]);
    assert("jdk"@[0] != "g++"@[0]);
    assert("jdk"@[0] != "cpp"@[0]);
    assert("gcc"@[1] != "g++"@[1]);
    assert("gcc"@[0] != "cpp"@[0]);
    assert("g++"@[0] != "cpp"@[0]);
    assert("ruby"@[0] != "deno"@[0]);
}

/// An ASCII language name and its lower-case form choose the same test
/// cases: lower-casing it again changes nothing.
pub proof fn law_language_case_does_not_matter(language: Seq<char>, bin: Seq<char>)
    requires
        is_ascii_text(language),
    ensures
        is_ascii_text(ascii_lowercase(language)),
        default_test_cases(ascii_lowercase(ascii_lowercase(language)), bin) == default_test_cases(
            ascii_lowercase(language),
            bin,
        ),
{
    lemma_ascii_lowercase_idempotent(language);
}

impl SmokeTestConfig {
    /// The default configuration: the test cases chosen by the lower-cased
    /// language name, each running `binary_path`.
    pub fn default_for_language(language: &str, version: &str, binary_path: &str) -> (r: Self)
        ensures
            r.language@ == language@,
            r.version@ == version@,
            r.binary_path@ == binary_path@,
            cases_view(r.test_cases@) == default_test_cases(
                unicode_lowercase(language@),
                binary_path@,
            ),
            is_ascii_text(language@) ==> cases_view(r.test_cases@) == default_test_cases(
                ascii_lowercase(language@),
                binary_path@,
            ),
    {
        let lowered = to_lowercase(language);
        let test_cases = test_cases_for(lowered.as_str(), binary_path);
        SmokeTestConfig {
            language: owned(language),
            version: owned(version),
            binary_path: owned(binary_path),
            test_cases,
        }
    }
}

// ---------------------------------------------------------------------------
// Running a suite
// ---------------------------------------------------------------------------

/// Whether standard output contains the expected pattern, if there is one.
pub fn check_stdout_pattern(stdout: &str, pattern: Option<&str>) -> (r: bool)
    ensures
        r == stdout_matches(
            stdout@,
            match pattern {
                Some(p) => Some(p@),
                None => None,
            },
        ),
{
    match pattern {
        Some(pat) => contains_str(stdout, pat),
        None => true,
    }
}

/// What running one test case produced.
pub enum TestRun {
    /// The command's file does not exist.
    BinaryMissing { duration_ms: u64 },
    /// The process ran to completion.
    Completed {
        exit_code: Option<i32>,
        stdout: String,
        stderr: String,
        duration_ms: u64,
    },
    /// The process could not be started, fed or awaited.
    Failed { message: String },
}

/// Why a suite could not complete.
pub enum SmokeTestError {
    /// Running a test case failed, with this message.
    RunFailed(String),
    /// A result arrived after the suite finished.
    UnexpectedResult,
}

/// What the caller is asked to do next.
pub enum SuiteAction {
    /// Run `config.test_cases[index]` and report the result.
    RunTest { index: usize },
    /// The suite is over.
    Finish(Result<SmokeTestSuiteResult, SmokeTestError>),
}

/// A suite in progress.
pub struct SuiteRun {
    pub config: SmokeTestConfig,
    pub outcomes: Vec<SmokeTestOutcome>,
    pub all_passed: bool,
    pub finished: bool,
}

/// The exit code that is reported: the process's own, or -1 when it was
/// ended by a signal.
pub open spec fn reported_exit_code(code: Option<i32>) -> i32 {
    match code {
        Some(c) => c,
        None => -1i32,
    }
}

/// The outcome of a test case for a run that produced a result.
pub open spec fn outcome_of(case: TestCase, run: TestRun, o: SmokeTestOutcome) -> bool {
    &&& o.test_name@ == case.name@
    &&& match run {
        TestRun::BinaryMissing { duration_ms } => {
            &&& !o.passed
            &&& o.exit_code == -1
            &&& o.stdout@ == Seq::<char>::empty()
            &&& o.stderr@ == Seq::<char>::empty()
            &&& o.duration_ms == duration_ms
            &&& o.error matches Some(e) && e@ == "Binary not found at: "@ + case.command@
        },
        TestRun::Completed { exit_code, stdout, stderr, duration_ms } => {
            &&& o.exit_code == reported_exit_code(exit_code)
            &&& o.passed == (reported_exit_code(exit_code) == case.expected_exit_code
                && stdout_matches(stdout@, opt_view(case.expected_stdout_pattern)))
            &&& o.stdout@ == stdout@
            &&& o.stderr@ == stderr@
            &&& o.duration_ms == duration_ms
            &&& o.error is None
        },
        TestRun::Failed { .. } => false,
    }
}

/// Every outcome passed.
pub open spec fn all_outcomes_passed(outcomes: Seq<SmokeTestOutcome>) -> bool {
    forall|i: int| 0 <= i < outcomes.len() ==> #[trigger] outcomes[i].passed
}

impl SuiteRun {
    /// The suite's invariant: one outcome per test case run so far, and
    /// `all_passed` says whether every one of them passed.
    pub open spec fn inv(&self) -> bool {
        &&& self.outcomes.len() <= self.config.test_cases.len()
        &&& self.all_passed == all_outcomes_passed(self.outcomes@)
        &&& forall|i: int|
            0 <= i < self.outcomes.len() ==> #[trigger] self.outcomes@[i].test_name@
                == self.config.test_cases@[i].name@
    }
}

fn outcome_for(case: &TestCase, run: TestRun) -> (r: Option<SmokeTestOutcome>)
    ensures
        match r {
            Some(o) => outcome_of(*case, run, o),
            None => run is Failed,
        },
{
    match run {
        TestRun::BinaryMissing { duration_ms } => Some(
            SmokeTestOutcome {
                test_name: case.name.clone(),
                passed: false,
                exit_code: -1,
                stdout: String::new(),
                stderr: String::new(),
                duration_ms,
                error: Some(concat("Binary not found at: ", case.command.as_str())),
            },
        ),
        TestRun::Completed { exit_code, stdout, stderr, duration_ms } => {
            let code = match exit_code {
                Some(c) => c,
                None => -1,
            };
            let pattern_ok = match &case.expected_stdout_pattern {
                Some(p) => check_stdout_pattern(stdout.as_str(), Some(p.as_str())),
                None => check_stdout_pattern(stdout.as_str(), None),
            };
            let passed = code == case.expected_exit_code && pattern_ok;
            Some(
                SmokeTestOutcome {
                    test_name: case.name.clone(),
                    passed,
                    exit_code: code,
                    stdout,
                    stderr,
                    duration_ms,
                    error: None,
                },
            )
        },
        TestRun::Failed { .. } => None,
    }
}

impl SmokeTestRunner {
    /// A runner with a 30-second bound.
    pub fn new() -> (r: Self)
        ensures
            r.timeout_secs == 30,
    {
        SmokeTestRunner { timeout_secs: 30 }
    }

    /// A runner with the given bound, in seconds.
    pub fn with_timeout(timeout_secs: u64) -> (r: Self)
        ensures
            r.timeout_secs == timeout_secs,
    {
        SmokeTestRunner { timeout_secs }
    }

    /// Starts a suite over the configuration's test cases.
    pub fn run_suite(&self, config: SmokeTestConfig) -> (r: SuiteRun)
        ensures
            r.config == config,
            r.outcomes@.len() == 0,
            r.all_passed,
            !r.finished,
            r.inv(),
    {
        SuiteRun { config, outcomes: Vec::new(), all_passed: true, finished: false }
    }
}

impl SuiteRun {
    /// The next thing to do: run the next test case, or finish with the
    /// suite's result, whose duration is `elapsed_ms`.
    pub fn next_action(&mut self, elapsed_ms: u64) -> (a: SuiteAction)
        requires
            old(self).inv(),
        ensures
            final(self).inv(),
            final(self).outcomes@ == old(self).outcomes@ || (final(self).outcomes@.len() == 0
                && old(self).finished == false && final(self).finished),
            old(self).finished ==> (a matches SuiteAction::Finish(Err(
                SmokeTestError::UnexpectedResult,
            ))),
            !old(self).finished && old(self).outcomes.len() < old(self).config.test_cases.len()
                ==> (a matches SuiteAction::RunTest { index } && index == old(self).outcomes.len()
                && *final(self) == *old(self)),
            !old(self).finished && old(self).outcomes.len() == old(self).config.test_cases.len()
                ==> (match a {
                SuiteAction::Finish(Ok(res)) => {
                    &&& res.language@ == old(self).config.language@
                    &&& res.version@ == old(self).config.version@
                    &&& res.all_passed == old(self).all_passed
                    &&& res.all_passed == all_outcomes_passed(res.outcomes@)
                    &&& res.outcomes@ == old(self).outcomes@
                    &&& res.total_duration_ms == elapsed_ms
                    &&& final(self).finished
                },
                _ => false,
            }),
    {
        if self.finished {
            return SuiteAction::Finish(Err(SmokeTestError::UnexpectedResult));
        }
        if self.outcomes.len() < self.config.test_cases.len() {
            return SuiteAction::RunTest { index: self.outcomes.len() };
        }
        let mut outcomes: Vec<SmokeTestOutcome> = Vec::new();
        std::mem::swap(&mut outcomes, &mut self.outcomes);
        let all_passed = self.all_passed;
        self.finished = true;
        self.all_passed = true;
        SuiteAction::Finish(
            Ok(
                SmokeTestSuiteResult {
                    language: self.config.language.clone(),
                    version: self.config.version.clone(),
                    all_passed,
                    outcomes,
                    total_duration_ms: elapsed_ms,
                },
            ),
        )
    }

    /// Records the result of running the next test case.  A failure to run
    /// ends the suite with that failure.
    pub fn record(&mut self, run: TestRun) -> (r: Option<SmokeTestError>)
        requires
            old(self).inv(),
            !old(self).finished,
            old(self).outcomes.len() < old(self).config.test_cases.len(),
        ensures
            final(self).inv(),
            final(self).config == old(self).config,
            match r {
                None => {
                    &&& !final(self).finished
                    &&& final(self).outcomes@.len() == old(self).outcomes@.len() + 1
                    &&& final(self).outcomes@.drop_last() == old(self).outcomes@
                    &&& outcome_of(
                        old(self).config.test_cases@[old(self).outcomes@.len() as int],
                        run,
                        final(self).outcomes@.last(),
                    )
                    &&& final(self).all_passed == (old(self).all_passed
                        && final(self).outcomes@.last().passed)
                },
                Some(e) => {
                    &&& final(self).outcomes@ == old(self).outcomes@
                    &&& run matches TestRun::Failed { message }
                    &&& e matches SmokeTestError::RunFailed(m) && m@ == message@
                    &&& final(self).finished
                },
            },
    {
        let i = self.outcomes.len();
        let failure = match &run {
            TestRun::Failed { message } => Some(message.clone()),
            _ => None,
        };
        match outcome_for(&self.config.test_cases[i], run) {
            Some(o) => {
                let p = o.passed;
                let ghost before = self.outcomes@;
                self.outcomes.push(o);
                self.all_passed = self.all_passed && p;
                assert(self.outcomes@.drop_last() == before);
                assert(all_outcomes_passed(self.outcomes@) == (all_outcomes_passed(before) && p)) by {
                    if all_outcomes_passed(before) && p {
                        assert forall|k: int| 0 <= k < self.outcomes@.len() implies #[trigger] self.outcomes@[k].passed by {
                            if k < before.len() {
                                assert(self.outcomes@[k] == before[k]);
                            }
                        }
                    }
                    if all_outcomes_passed(self.outcomes@) {
                        assert forall|k: int| 0 <= k < before.len() implies #[trigger] before[k].passed by {
                            assert(self.outcomes@[k] == before[k]);
                        }
                        assert(self.outcomes@[before.len() as int].passed);
                    }
                }
                assert forall|k: int| 0 <= k < self.outcomes.len() implies #[trigger] self.outcomes@[k].test_name@
                    == self.config.test_cases@[k].name@ by {
                    if k < before.len() {
                        assert(self.outcomes@[k] == before[k]);
                    }
                }
                None
            },
            None => {
                self.finished = true;
                match failure {
                    Some(m) => Some(SmokeTestError::RunFailed(m)),
                    None => Some(SmokeTestError::UnexpectedResult),
                }
            },
        }
    }
}

} // verus!
