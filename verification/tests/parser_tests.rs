use vss::parser::ScriptParser;
use vss::script::{ScriptError, ScriptOpt, ScriptOptType};

#[test]
fn test_script_parser() {
    let content = "#!/bin/bash\n# @vercel.name Test Script\n# @vercel.description This is a test script\n# @vercel.arg TEST_ARG This is a test argument\n# @vercel.opt { \"name\": \"TEST_BOOL\", \"description\": \"Test boolean\", \"type\": \"boolean\", \"default\": false }\necho \"Hello World\"\n";

    let script = ScriptParser::parse_script(content, "test.sh", false).unwrap();

    assert_eq!(script.name, "Test Script");
    assert_eq!(script.description, Some("This is a test script".to_string()));
    assert!(script.args.is_some());
    assert!(script.opts.is_some());

    let args = script.args.unwrap();
    assert_eq!(args.len(), 1);
    assert_eq!(args[0].name, "TEST_ARG");

    let opts = script.opts.unwrap();
    assert_eq!(opts.len(), 1);
    assert_eq!(opts[0].name(), "TEST_BOOL");
}

#[test]
fn test_script_parser_invalid_path() {
    let content = "#!/bin/bash\necho \"Hello World\"\n";

    // An empty path has no filename to extract.
    let result = ScriptParser::parse_script(content, "", false);

    assert!(result.is_err());
    match result.unwrap_err() {
        ScriptError::InvalidPath(invalid_path) => {
            assert_eq!(invalid_path, "");
        }
        _ => panic!("Expected InvalidPath error"),
    }
}

#[test]
fn test_script_parser_full_descriptor() {
    let content = "#!/bin/bash\n# @vercel.name Deploy\n# @vercel.after setup.sh\n# @vercel.requires login.sh TOKEN TEAM_ID\n# @vercel.stdin inherit\necho done\n";

    let script = ScriptParser::parse_script(content, "/dir/deploy.sh", false).unwrap();

    assert_eq!(script.name, "Deploy");
    assert_eq!(script.pathname, "deploy.sh");
    assert_eq!(script.absolute_pathname, "/dir/deploy.sh");
    assert!(!script.embedded);
    assert_eq!(script.after, Some(vec!["setup.sh".to_string()]));
    let reqs = script.requirements.unwrap();
    assert_eq!(reqs.len(), 1);
    assert_eq!(reqs[0].script, "login.sh");
    assert_eq!(reqs[0].variables, vec!["TOKEN".to_string(), "TEAM_ID".to_string()]);
    assert_eq!(script.stdin, Some("inherit".to_string()));
}

#[test]
fn test_script_parser_name_falls_back_to_filename() {
    let content = "#!/bin/bash\necho hi\n";
    let script = ScriptParser::parse_script(content, "/a/b/plain.sh", true).unwrap();
    assert_eq!(script.name, "plain.sh");
    assert_eq!(script.pathname, "plain.sh");
    assert!(script.embedded);
}

#[test]
fn test_script_parser_rejects_parent_traversal_after() {
    let content = "# @vercel.name X\n# @vercel.after ../evil.sh\n";
    let result = ScriptParser::parse_script(content, "x.sh", false);
    match result.unwrap_err() {
        ScriptError::InvalidDependencyPath(dep) => {
            assert_eq!(dep, "../evil.sh");
        }
        other => panic!("Expected InvalidDependencyPath, got: {:?}", other),
    }
}

#[test]
fn test_script_parser_rejects_parent_traversal_requires() {
    let content = "# @vercel.name X\n# @vercel.requires ../evil.sh TOKEN\n";
    let result = ScriptParser::parse_script(content, "x.sh", false);
    match result.unwrap_err() {
        ScriptError::InvalidDependencyPath(dep) => {
            assert_eq!(dep, "../evil.sh");
        }
        other => panic!("Expected InvalidDependencyPath, got: {:?}", other),
    }
}

#[test]
fn test_script_parser_invalid_opt_json() {
    let content = "# @vercel.name X\n# @vercel.opt { not json\n";
    let result = ScriptParser::parse_script(content, "x.sh", false);
    match result.unwrap_err() {
        ScriptError::InvalidScriptOption(msg) => {
            assert!(msg.contains("{ not json"));
        }
        other => panic!("Expected InvalidScriptOption, got: {:?}", other),
    }
}

#[test]
fn test_script_parser_string_and_worktree_opts() {
    let content = "# @vercel.name Opts\n# @vercel.opt { \"name\": \"ENV_NAME\", \"description\": \"Env\", \"type\": \"string\", \"default\": \"dev\", \"optional\": true, \"pattern\": \"^[a-z]+$\", \"pattern_help\": \"lowercase\" }\n# @vercel.opt { \"name\": \"WT\", \"description\": \"Tree\", \"type\": \"worktree\", \"baseDirArg\": \"BASE\" }\n";
    let script = ScriptParser::parse_script(content, "opts.sh", false).unwrap();
    let opts = script.opts.unwrap();
    assert_eq!(opts.len(), 2);
    match &opts[0] {
        ScriptOpt::String { name, description, default, optional, pattern, pattern_help } => {
            assert_eq!(name, "ENV_NAME");
            assert_eq!(description, "Env");
            assert_eq!(default.as_deref(), Some("dev"));
            assert!(*optional);
            assert_eq!(pattern.as_deref(), Some("^[a-z]+$"));
            assert_eq!(pattern_help.as_deref(), Some("lowercase"));
        }
        other => panic!("Expected a string option, got: {:?}", other),
    }
    match &opts[1] {
        ScriptOpt::Worktree { name, base_dir_arg, optional, .. } => {
            assert_eq!(name, "WT");
            assert_eq!(base_dir_arg, "BASE");
            assert!(!*optional);
        }
        other => panic!("Expected a worktree option, got: {:?}", other),
    }
    assert!(matches!(opts[0].opt_type(), ScriptOptType::String));
    assert!(opts[0].is_optional());
    assert_eq!(opts[1].description(), "Tree");
}

#[test]
fn test_normalize_dependency_path() {
    assert_eq!(ScriptParser::normalize_dependency_path("./setup.sh"), "setup.sh");
    assert_eq!(ScriptParser::normalize_dependency_path("setup.sh"), "setup.sh");
    assert_eq!(ScriptParser::normalize_dependency_path("sub/setup.sh"), "sub/setup.sh");
}

#[test]
fn test_script_opt_type_all() {
    let all = ScriptOptType::all();
    assert_eq!(all.len(), 3);
    assert!(matches!(all[0], ScriptOptType::Boolean));
    assert!(matches!(all[1], ScriptOptType::String));
    assert!(matches!(all[2], ScriptOptType::Worktree));
    assert_eq!(all[0].label(), "boolean");
    assert_eq!(all[1].label(), "string");
    assert_eq!(all[2].label(), "worktree");
}

#[test]
fn test_script_error_messages() {
    let e = ScriptError::DependencyNotFound {
        dependency: "setup.sh".to_string(),
        script: "Deploy".to_string(),
    };
    assert_eq!(
        e.message(),
        "Dependency 'setup.sh' not found in any known script directory for script 'Deploy'"
    );
    assert_eq!(
        ScriptError::CircularDependency.message(),
        "Circular dependency detected"
    );
    assert_eq!(
        ScriptError::InvalidDependencyPath("../x".to_string()).message(),
        "Dependency '../x' uses parent directory reference which is not allowed"
    );
}
