use vss::engine::{
    run_plan, CfgMap, ConfigValue, Engine, NextStep, RunReport, ScriptOutcome, ValidationIssue,
};
use vss::script::{Script, ScriptArg, ScriptOpt, ScriptRequirement};
use vss::vars::VarMap;

fn plain_script(filename: &str) -> Script {
    Script {
        name: filename.to_string(),
        description: None,
        after: None,
        requirements: None,
        absolute_pathname: format!("/embedded/{}", filename),
        pathname: filename.to_string(),
        embedded: true,
        args: None,
        opts: None,
        stdin: None,
    }
}

fn outcome(success: bool, code: Option<i32>, stdout: &[&str]) -> ScriptOutcome {
    ScriptOutcome {
        success,
        code,
        stdout_lines: stdout.iter().map(|l| l.to_string()).collect(),
        pre_lines: Vec::new(),
        post_lines: Vec::new(),
    }
}

#[test]
fn test_varmap_insert_get_overwrite() {
    let mut m = VarMap::new();
    assert!(m.is_empty());
    m.insert("A".to_string(), "1".to_string());
    m.insert("B".to_string(), "2".to_string());
    m.insert("A".to_string(), "3".to_string());
    assert_eq!(m.len(), 2);
    assert_eq!(m.get("A"), Some(&"3".to_string()));
    assert_eq!(m.get("B"), Some(&"2".to_string()));
    assert_eq!(m.get("C"), None);
}

#[test]
fn test_engine_builds_environment_from_args_and_opts() {
    let mut script = plain_script("a.sh");
    script.args = Some(vec![ScriptArg {
        name: "BASE_DIR".to_string(),
        description: "base".to_string(),
    }]);
    script.opts = Some(vec![
        ScriptOpt::Boolean {
            name: "VERBOSE".to_string(),
            description: "v".to_string(),
            default: None,
            optional: false,
        },
        ScriptOpt::String {
            name: "SKIPPED".to_string(),
            description: "s".to_string(),
            default: None,
            optional: true,
            pattern: None,
            pattern_help: None,
        },
    ]);

    let mut gargs = CfgMap::new();
    gargs.insert("BASE_DIR".to_string(), ConfigValue::Str("/work".to_string()));
    let mut aopts = CfgMap::new();
    aopts.insert("VERBOSE".to_string(), ConfigValue::Bool(true));
    aopts.insert("SKIPPED".to_string(), ConfigValue::Null);

    let mut engine = Engine::new(vec![script], gargs, aopts, true);
    match engine.begin_next("/tmp/pre", "/tmp/post") {
        NextStep::Run(req) => {
            assert_eq!(req.index, 0);
            assert!(!req.inherit);
            assert_eq!(req.env.get("VSS_DEBUG"), Some(&"1".to_string()));
            assert_eq!(req.env.get("BASE_DIR"), Some(&"/work".to_string()));
            assert_eq!(req.env.get("VERBOSE"), Some(&"true".to_string()));
            assert_eq!(req.env.get("SKIPPED"), None);
            assert_eq!(req.env.get("VSS_PRE_ENV_FILE"), Some(&"/tmp/pre".to_string()));
            assert_eq!(req.env.get("VSS_POST_ENV_FILE"), Some(&"/tmp/post".to_string()));
        }
        _ => panic!("Expected a spawn request"),
    }
}

#[test]
fn test_engine_threads_exports_to_dependents() {
    // Script a exports FOO=1 through the marker protocol; b requires it.
    let a = plain_script("a.sh");
    let mut b = plain_script("b.sh");
    b.requirements = Some(vec![ScriptRequirement {
        script: "a.sh".to_string(),
        variables: vec!["FOO".to_string()],
    }]);

    let mut engine = Engine::new(vec![a, b], CfgMap::new(), CfgMap::new(), false);

    match engine.begin_next("", "") {
        NextStep::Run(req) => assert_eq!(req.pathname, "a.sh"),
        _ => panic!("Expected to start a.sh"),
    }
    let mut markers = VarMap::new();
    markers.insert("FOO".to_string(), "1".to_string());
    engine.record_result(true, Some(0), markers, &Vec::new(), &Vec::new());

    match engine.begin_next("", "") {
        NextStep::Run(req) => {
            assert_eq!(req.pathname, "b.sh");
            assert_eq!(req.env.get("FOO"), Some(&"1".to_string()));
        }
        _ => panic!("Expected to start b.sh"),
    }
}

#[test]
fn test_engine_validation_error_names_script_dependency_and_variable() {
    // Script a exports BAR but not FOO; b requires FOO from a.
    let a = plain_script("a.sh");
    let mut b = plain_script("b.sh");
    b.requirements = Some(vec![ScriptRequirement {
        script: "a.sh".to_string(),
        variables: vec!["FOO".to_string()],
    }]);

    let mut engine = Engine::new(vec![a, b], CfgMap::new(), CfgMap::new(), false);
    match engine.begin_next("", "") {
        NextStep::Run(_) => {}
        _ => panic!("Expected to start a.sh"),
    }
    let mut markers = VarMap::new();
    markers.insert("BAR".to_string(), "2".to_string());
    engine.record_result(true, Some(0), markers, &Vec::new(), &Vec::new());

    match engine.begin_next("", "") {
        NextStep::Invalid { script, issues } => {
            assert_eq!(script, "b.sh");
            assert_eq!(issues.len(), 1);
            match &issues[0] {
                ValidationIssue::MissingVariable { variable, script, dependency } => {
                    assert_eq!(variable, "FOO");
                    assert_eq!(script, "b.sh");
                    assert_eq!(dependency, "a.sh");
                }
                other => panic!("Expected MissingVariable, got: {:?}", other),
            }
            assert_eq!(
                issues[0].message(),
                "Variable 'FOO' required by script 'b.sh' was not exported by script 'a.sh'"
            );
        }
        _ => panic!("Expected a validation failure"),
    }
    // After a validation failure nothing further starts.
    match engine.begin_next("", "") {
        NextStep::Failed(code) => assert_eq!(code, 1),
        _ => panic!("Expected the run to stay halted"),
    }
}

#[test]
fn test_engine_validation_error_when_dependency_exported_nothing() {
    let a = plain_script("a.sh");
    let mut b = plain_script("b.sh");
    b.requirements = Some(vec![ScriptRequirement {
        script: "a.sh".to_string(),
        variables: vec!["FOO".to_string()],
    }]);

    let mut engine = Engine::new(vec![a, b], CfgMap::new(), CfgMap::new(), false);
    match engine.begin_next("", "") {
        NextStep::Run(_) => {}
        _ => panic!("Expected to start a.sh"),
    }
    engine.record_result(true, Some(0), VarMap::new(), &Vec::new(), &Vec::new());

    match engine.begin_next("", "") {
        NextStep::Invalid { script, issues } => {
            assert_eq!(script, "b.sh");
            assert_eq!(issues.len(), 1);
            match &issues[0] {
                ValidationIssue::NoExports { script, dependency } => {
                    assert_eq!(script, "b.sh");
                    assert_eq!(dependency, "a.sh");
                }
                other => panic!("Expected NoExports, got: {:?}", other),
            }
        }
        _ => panic!("Expected a validation failure"),
    }
}

#[test]
fn test_run_plan_marker_exports_reach_dependent() {
    // End to end: a exports FOO=1 via markers, b requires it; both succeed.
    let a = plain_script("a.sh");
    let mut b = plain_script("b.sh");
    b.requirements = Some(vec![ScriptRequirement {
        script: "a.sh".to_string(),
        variables: vec!["FOO".to_string()],
    }]);
    let mut engine = Engine::new(vec![a, b], CfgMap::new(), CfgMap::new(), false);

    let outcomes = vec![
        outcome(
            true,
            Some(0),
            &[
                "starting",
                "### VSS_EXPORTS_BEGIN ###",
                "FOO=1",
                "### VSS_EXPORTS_END ###",
            ],
        ),
        outcome(true, Some(0), &["b ran"]),
    ];
    let report: RunReport = run_plan(&mut engine, &outcomes);
    assert_eq!(report.spawned, 2);
    assert_eq!(report.exit_code, 0);
}

#[test]
fn test_run_plan_failure_halts_before_dependent_spawns() {
    // Script a exits with status 2; b would run after it. b never starts
    // and the run's exit code is 2.
    let a = plain_script("a.sh");
    let b = plain_script("b.sh");
    let mut engine = Engine::new(vec![a, b], CfgMap::new(), CfgMap::new(), false);

    let outcomes = vec![
        outcome(false, Some(2), &[]),
        outcome(true, Some(0), &[]),
    ];
    let report = run_plan(&mut engine, &outcomes);
    assert_eq!(report.spawned, 1);
    assert_eq!(report.exit_code, 2);
}

#[test]
fn test_run_plan_missing_exit_code_becomes_one() {
    let a = plain_script("a.sh");
    let mut engine = Engine::new(vec![a], CfgMap::new(), CfgMap::new(), false);
    let outcomes = vec![outcome(false, None, &[])];
    let report = run_plan(&mut engine, &outcomes);
    assert_eq!(report.spawned, 1);
    assert_eq!(report.exit_code, 1);
}

#[test]
fn test_run_plan_snapshot_diff_wins_over_markers() {
    // Script a exports FOO both through markers and through the snapshot
    // diff; the diff value wins. Script b requires FOO and sees it.
    let a = plain_script("a.sh");
    let mut b = plain_script("b.sh");
    b.requirements = Some(vec![ScriptRequirement {
        script: "a.sh".to_string(),
        variables: vec!["FOO".to_string()],
    }]);
    let mut engine = Engine::new(vec![a, b], CfgMap::new(), CfgMap::new(), false);

    match engine.begin_next("", "") {
        NextStep::Run(_) => {}
        _ => panic!("Expected to start a.sh"),
    }
    let mut markers = VarMap::new();
    markers.insert("FOO".to_string(), "from-markers".to_string());
    let pre: Vec<String> = Vec::new();
    let post = vec!["export FOO=from-diff".to_string()];
    engine.record_result(true, Some(0), markers, &pre, &post);

    match engine.begin_next("", "") {
        NextStep::Run(req) => {
            assert_eq!(req.env.get("FOO"), Some(&"from-diff".to_string()));
        }
        _ => panic!("Expected to start b.sh"),
    }
}

#[test]
fn test_engine_inherit_stdin_mode() {
    let mut a = plain_script("a.sh");
    a.stdin = Some("inherit".to_string());
    let mut engine = Engine::new(vec![a], CfgMap::new(), CfgMap::new(), false);
    match engine.begin_next("", "") {
        NextStep::Run(req) => assert!(req.inherit),
        _ => panic!("Expected a spawn request"),
    }
}

#[test]
fn test_engine_done_after_all_scripts() {
    let a = plain_script("a.sh");
    let mut engine = Engine::new(vec![a], CfgMap::new(), CfgMap::new(), false);
    match engine.begin_next("", "") {
        NextStep::Run(_) => {}
        _ => panic!("Expected a spawn request"),
    }
    engine.record_result(true, Some(0), VarMap::new(), &Vec::new(), &Vec::new());
    match engine.begin_next("", "") {
        NextStep::Done => {}
        _ => panic!("Expected the run to be done"),
    }
    assert_eq!(engine.halted_code(), None);
}
