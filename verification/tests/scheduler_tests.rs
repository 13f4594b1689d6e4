use vss::graph::topo_sort;
use vss::manager::ScriptManager;
use vss::script::{Script, ScriptError, ScriptRequirement};

fn embedded_script(filename: &str, after: Option<Vec<&str>>, requires: Option<Vec<(&str, Vec<&str>)>>) -> Script {
    Script {
        name: filename.to_string(),
        description: None,
        after: after.map(|v| v.into_iter().map(|s| s.to_string()).collect()),
        requirements: requires.map(|v| {
            v.into_iter()
                .map(|(s, vars)| ScriptRequirement {
                    script: s.to_string(),
                    variables: vars.into_iter().map(|x| x.to_string()).collect(),
                })
                .collect()
        }),
        absolute_pathname: format!("/embedded/{}", filename),
        pathname: filename.to_string(),
        embedded: true,
        args: None,
        opts: None,
        stdin: None,
    }
}

#[test]
fn test_topo_sort_linear_chain() {
    // 0 -> 1 -> 2
    let edges = vec![(0usize, 1usize), (1, 2)];
    let order = topo_sort(3, &edges).unwrap();
    assert_eq!(order, vec![0, 1, 2]);
}

#[test]
fn test_topo_sort_respects_all_edges() {
    // Diamond: 3 -> 1, 3 -> 2, 1 -> 0, 2 -> 0
    let edges = vec![(3usize, 1usize), (3, 2), (1, 0), (2, 0)];
    let order = topo_sort(4, &edges).unwrap();
    let pos = |v: usize| order.iter().position(|&x| x == v).unwrap();
    for (u, v) in &edges {
        assert!(pos(*u) < pos(*v), "edge ({}, {}) out of order in {:?}", u, v, order);
    }
}

#[test]
fn test_topo_sort_detects_cycle() {
    let edges = vec![(0usize, 1usize), (1, 2), (2, 0)];
    assert!(topo_sort(3, &edges).is_none());
}

#[test]
fn test_topo_sort_self_loop_is_a_cycle() {
    let edges = vec![(0usize, 0usize)];
    assert!(topo_sort(1, &edges).is_none());
}

#[test]
fn test_sort_scripts_orders_dependencies_first() {
    // Discovery order: c depends on b, b depends on a.
    let scripts = vec![
        embedded_script("c.sh", Some(vec!["b.sh"]), None),
        embedded_script("b.sh", Some(vec!["./a.sh"]), None),
        embedded_script("a.sh", None, None),
    ];
    let manager = ScriptManager::new();
    let sorted = manager.sort_scripts(scripts, &Vec::new()).unwrap();
    let names: Vec<&str> = sorted.iter().map(|s| s.pathname.as_str()).collect();
    assert_eq!(names, vec!["a.sh", "b.sh", "c.sh"]);
}

#[test]
fn test_sort_scripts_requires_edges_order() {
    // b requires variables from a: a must run first.
    let scripts = vec![
        embedded_script("b.sh", None, Some(vec![("a.sh", vec!["TOKEN"])])),
        embedded_script("a.sh", None, None),
    ];
    let manager = ScriptManager::new();
    let sorted = manager.sort_scripts(scripts, &Vec::new()).unwrap();
    let names: Vec<&str> = sorted.iter().map(|s| s.pathname.as_str()).collect();
    assert_eq!(names, vec!["a.sh", "b.sh"]);
}

#[test]
fn test_sort_scripts_detects_cycle() {
    let scripts = vec![
        embedded_script("a.sh", Some(vec!["b.sh"]), None),
        embedded_script("b.sh", Some(vec!["a.sh"]), None),
    ];
    let manager = ScriptManager::new();
    let result = manager.sort_scripts(scripts, &Vec::new());
    assert!(matches!(result.unwrap_err(), ScriptError::CircularDependency));
}

#[test]
fn test_sort_scripts_reports_missing_dependency() {
    let scripts = vec![embedded_script("a.sh", Some(vec!["missing.sh"]), None)];
    let manager = ScriptManager::new();
    let result = manager.sort_scripts(scripts, &Vec::new());
    match result.unwrap_err() {
        ScriptError::DependencyNotFound { dependency, script } => {
            assert_eq!(dependency, "missing.sh");
            assert_eq!(script, "a.sh");
        }
        other => panic!("Expected DependencyNotFound, got: {:?}", other),
    }
}

#[test]
fn test_sort_scripts_keeps_independent_scripts() {
    let scripts = vec![
        embedded_script("x.sh", None, None),
        embedded_script("y.sh", None, None),
    ];
    let manager = ScriptManager::new();
    let sorted = manager.sort_scripts(scripts, &Vec::new()).unwrap();
    assert_eq!(sorted.len(), 2);
    let names: Vec<&str> = sorted.iter().map(|s| s.pathname.as_str()).collect();
    assert!(names.contains(&"x.sh"));
    assert!(names.contains(&"y.sh"));
}
