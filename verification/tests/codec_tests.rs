use vss::codec::{
    filter_export_markers, parse_exported_variables, read_exports_from_files, ExportLineResult,
    ExportParser,
};

fn lines_of(text: &str) -> Vec<String> {
    text.lines().map(|l| l.to_string()).collect()
}

#[test]
fn test_parse_exported_variables() {
    let output = "Script output before\n### VSS_EXPORTS_BEGIN ###\nPROJECT_ID=abc123\nAPI_KEY=\"secret-key\"\nDEBUG_MODE=true\n### VSS_EXPORTS_END ###\nScript output after";

    let exports = parse_exported_variables(output);

    assert_eq!(exports.len(), 3);
    assert_eq!(exports.get("PROJECT_ID"), Some(&"abc123".to_string()));
    assert_eq!(exports.get("API_KEY"), Some(&"secret-key".to_string()));
    assert_eq!(exports.get("DEBUG_MODE"), Some(&"true".to_string()));
}

#[test]
fn test_parse_exported_variables_empty() {
    let output = "Script output only";
    let exports = parse_exported_variables(output);
    assert_eq!(exports.len(), 0);
}

#[test]
fn test_parse_exported_variables_empty_section() {
    let output = "Script output before\n### VSS_EXPORTS_BEGIN ###\n### VSS_EXPORTS_END ###\nScript output after";

    let exports = parse_exported_variables(output);
    assert_eq!(exports.len(), 0);
}

#[test]
fn test_parse_exported_variables_with_quotes() {
    let output = "### VSS_EXPORTS_BEGIN ###\nVAR_WITH_QUOTES=\"value with spaces\"\nVAR_WITHOUT_QUOTES=simple_value\n### VSS_EXPORTS_END ###";

    let exports = parse_exported_variables(output);

    assert_eq!(exports.len(), 2);
    assert_eq!(
        exports.get("VAR_WITH_QUOTES"),
        Some(&"value with spaces".to_string())
    );
    assert_eq!(
        exports.get("VAR_WITHOUT_QUOTES"),
        Some(&"simple_value".to_string())
    );
}

#[test]
fn test_filter_export_markers() {
    let output = "Line 1\nLine 2\n### VSS_EXPORTS_BEGIN ###\nPROJECT_ID=abc123\nAPI_KEY=secret\n### VSS_EXPORTS_END ###\nLine 3\nLine 4";

    let filtered = filter_export_markers(output);
    let expected = "Line 1\nLine 2\nLine 3\nLine 4";

    assert_eq!(filtered, expected);
}

#[test]
fn test_filter_export_markers_no_exports() {
    let output = "Line 1\nLine 2\nLine 3";

    let filtered = filter_export_markers(output);
    assert_eq!(filtered, output);
}

#[test]
fn test_export_parser_streaming() {
    let mut parser = ExportParser::new();

    let lines = vec![
        "Regular line 1",
        "### VSS_EXPORTS_BEGIN ###",
        "PROJECT_ID=abc123",
        "API_KEY=\"secret-key\"",
        "### VSS_EXPORTS_END ###",
        "Regular line 2",
    ];

    let mut regular_lines = Vec::new();

    for line in lines {
        match parser.process_line(line) {
            ExportLineResult::RegularLine(content) => {
                regular_lines.push(content);
            }
            ExportLineResult::ExportVariable(key, value) => {
                parser.add_export(key, value);
            }
            ExportLineResult::ExportMarker => {
                // Ignore markers
            }
        }
    }

    let exports = parser.get_exports();

    // Check that regular lines are preserved
    assert_eq!(regular_lines, vec!["Regular line 1", "Regular line 2"]);

    // Check that exports are captured
    assert_eq!(exports.len(), 2);
    assert_eq!(exports.get("PROJECT_ID"), Some(&"abc123".to_string()));
    assert_eq!(exports.get("API_KEY"), Some(&"secret-key".to_string()));
}

#[test]
fn test_export_parser_no_exports() {
    let mut parser = ExportParser::new();

    let lines = vec!["Regular line 1", "Regular line 2"];

    let mut regular_lines = Vec::new();

    for line in lines {
        match parser.process_line(line) {
            ExportLineResult::RegularLine(content) => {
                regular_lines.push(content);
            }
            ExportLineResult::ExportVariable(key, value) => {
                parser.add_export(key, value);
            }
            ExportLineResult::ExportMarker => {
                // Ignore markers
            }
        }
    }

    let exports = parser.get_exports();

    assert_eq!(regular_lines, vec!["Regular line 1", "Regular line 2"]);
    assert_eq!(exports.len(), 0);
}

#[test]
fn test_export_parser_reserved_keys() {
    let mut parser = ExportParser::new();

    assert!(matches!(
        parser.process_line("### VSS_EXPORTS_BEGIN ###"),
        ExportLineResult::ExportMarker
    ));
    assert!(matches!(
        parser.process_line("PRE_ENV_FILE=/tmp/pre.txt"),
        ExportLineResult::ExportMarker
    ));
    assert!(matches!(
        parser.process_line("POST_ENV_FILE=/tmp/post.txt"),
        ExportLineResult::ExportMarker
    ));
    assert_eq!(parser.pre_env_file(), Some(&"/tmp/pre.txt".to_string()));
    assert_eq!(parser.post_env_file(), Some(&"/tmp/post.txt".to_string()));

    let exports = parser.get_exports();
    assert_eq!(exports.len(), 0);
}

#[test]
fn test_read_exports_from_files_basic() {
    // Pre-execution exports (existing variables)
    let pre_lines = lines_of("declare -x HOME=\"/home/user\"\ndeclare -x PATH=\"/usr/bin:/bin\"");

    // Post-execution exports (existing + new variables)
    let post_lines = lines_of(
        "declare -x HOME=\"/home/user\"\ndeclare -x PATH=\"/usr/bin:/bin\"\ndeclare -x PROJECT_ID=\"abc123\"\ndeclare -x API_KEY=\"secret-key\"",
    );

    let exports = read_exports_from_files(&pre_lines, &post_lines);

    assert_eq!(exports.len(), 2);
    assert_eq!(exports.get("PROJECT_ID"), Some(&"abc123".to_string()));
    assert_eq!(exports.get("API_KEY"), Some(&"secret-key".to_string()));
}

#[test]
fn test_read_exports_from_files_with_quotes() {
    let pre_lines: Vec<String> = Vec::new();
    let post_lines = lines_of(
        "declare -x VAR_WITH_DOUBLE_QUOTES=\"value with spaces\"\ndeclare -x VAR_WITH_SINGLE_QUOTES='single quoted'\ndeclare -x VAR_WITHOUT_QUOTES=simple_value",
    );

    let exports = read_exports_from_files(&pre_lines, &post_lines);

    assert_eq!(exports.len(), 3);
    assert_eq!(
        exports.get("VAR_WITH_DOUBLE_QUOTES"),
        Some(&"value with spaces".to_string())
    );
    assert_eq!(
        exports.get("VAR_WITH_SINGLE_QUOTES"),
        Some(&"single quoted".to_string())
    );
    assert_eq!(
        exports.get("VAR_WITHOUT_QUOTES"),
        Some(&"simple_value".to_string())
    );
}

#[test]
fn test_read_exports_from_files_export_format() {
    let pre_lines: Vec<String> = Vec::new();
    // Both "export VAR=" and "declare -x VAR=" formats
    let post_lines = lines_of("export PROJECT_ID=abc123\ndeclare -x API_KEY=secret-key");

    let exports = read_exports_from_files(&pre_lines, &post_lines);

    assert_eq!(exports.len(), 2);
    assert_eq!(exports.get("PROJECT_ID"), Some(&"abc123".to_string()));
    assert_eq!(exports.get("API_KEY"), Some(&"secret-key".to_string()));
}

#[test]
fn test_read_exports_from_files_empty() {
    let pre_lines: Vec<String> = Vec::new();
    let post_lines: Vec<String> = Vec::new();

    let exports = read_exports_from_files(&pre_lines, &post_lines);

    assert_eq!(exports.len(), 0);
}

#[test]
fn test_read_exports_from_files_no_new_exports() {
    // Same exports in both files (no new variables)
    let exports_content = "declare -x HOME=\"/home/user\"\ndeclare -x PATH=\"/usr/bin:/bin\"";
    let pre_lines = lines_of(exports_content);
    let post_lines = lines_of(exports_content);

    let exports = read_exports_from_files(&pre_lines, &post_lines);

    assert_eq!(exports.len(), 0);
}

#[test]
fn test_snapshot_diff_single_new_variable() {
    let pre_lines = lines_of("declare -x HOME=\"/home/user\"");
    let post_lines = lines_of("declare -x HOME=\"/home/user\"\ndeclare -x PROJECT_ID=\"abc123\"");

    let exports = read_exports_from_files(&pre_lines, &post_lines);

    assert_eq!(exports.len(), 1);
    assert_eq!(exports.get("PROJECT_ID"), Some(&"abc123".to_string()));
}

#[test]
fn test_marker_recognized_anywhere_in_line() {
    // A line merely containing a marker toggles the section.
    let mut parser = ExportParser::new();
    assert!(matches!(
        parser.process_line("prefix ### VSS_EXPORTS_BEGIN ### suffix"),
        ExportLineResult::ExportMarker
    ));
    match parser.process_line("KEY=value") {
        ExportLineResult::ExportVariable(k, v) => {
            assert_eq!(k, "KEY");
            assert_eq!(v, "value");
        }
        _ => panic!("Expected an exported variable"),
    }
}

#[test]
fn test_lone_quote_value_kept() {
    // A value of a single double-quote character is not stripped.
    let output = "### VSS_EXPORTS_BEGIN ###\nQ=\"\n### VSS_EXPORTS_END ###";
    let exports = parse_exported_variables(output);
    assert_eq!(exports.len(), 1);
    assert_eq!(exports.get("Q"), Some(&"\"".to_string()));
}

#[test]
fn test_inside_line_without_assignment_is_ignored() {
    let mut parser = ExportParser::new();
    parser.process_line("### VSS_EXPORTS_BEGIN ###");
    assert!(matches!(
        parser.process_line("no assignment here"),
        ExportLineResult::ExportMarker
    ));
    assert!(matches!(
        parser.process_line("   "),
        ExportLineResult::ExportMarker
    ));
}
