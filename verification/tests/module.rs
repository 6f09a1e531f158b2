use boxlang_compiler::module::graph::ModuleGraph;
use boxlang_compiler::module::loader::StdLoader;
use boxlang_compiler::module::resolver::{candidates, ModuleResolver};
use boxlang_compiler::module::ModuleId;

#[test]
fn test_add_module() {
    let mut graph = ModuleGraph::new();
    graph.add_module(ModuleId::from_str("main"));
    assert!(graph.has_module(&ModuleId::from_str("main")));
}

#[test]
fn test_add_dependency() {
    let mut graph = ModuleGraph::new();
    graph.add_dependency(ModuleId::from_str("main"), ModuleId::from_str("std::io"));
    assert!(graph.has_module(&ModuleId::from_str("main")));
    assert!(graph.has_module(&ModuleId::from_str("std::io")));
    let deps = graph.get_dependencies(&ModuleId::from_str("main")).unwrap();
    assert!(deps.contains(&"std::io".to_string()));
}

#[test]
fn test_no_cycle() {
    let mut graph = ModuleGraph::new();
    graph.add_dependency(ModuleId::from_str("a"), ModuleId::from_str("b"));
    graph.add_dependency(ModuleId::from_str("b"), ModuleId::from_str("c"));
    assert!(!graph.has_cycle());
}

#[test]
fn test_cycle_detection() {
    let mut graph = ModuleGraph::new();
    graph.add_dependency(ModuleId::from_str("a"), ModuleId::from_str("b"));
    graph.add_dependency(ModuleId::from_str("b"), ModuleId::from_str("c"));
    graph.add_dependency(ModuleId::from_str("c"), ModuleId::from_str("a"));
    assert!(graph.has_cycle());
}

#[test]
fn test_topological_sort() {
    let mut graph = ModuleGraph::new();
    graph.add_dependency(ModuleId::from_str("main"), ModuleId::from_str("std::io"));
    graph.add_dependency(ModuleId::from_str("main"), ModuleId::from_str("std::math"));
    let order = graph.topological_sort();
    assert_eq!(order.len(), 3);
    let main_pos = order.iter().position(|m| m.to_string_path() == "main").unwrap();
    let io_pos = order.iter().position(|m| m.to_string_path() == "std::io").unwrap();
    let math_pos = order.iter().position(|m| m.to_string_path() == "std::math").unwrap();
    assert!(io_pos < main_pos);
    assert!(math_pos < main_pos);
}

#[test]
fn cycle_is_reported_as_a_closed_walk() {
    let mut graph = ModuleGraph::new();
    graph.add_dependency(ModuleId::from_str("a"), ModuleId::from_str("b"));
    graph.add_dependency(ModuleId::from_str("b"), ModuleId::from_str("a"));
    let cycle = graph.find_cycle().unwrap();
    assert!(cycle.len() >= 2);
    assert_eq!(graph.topological_sort().len(), 0);
    let mut acyclic = ModuleGraph::new();
    acyclic.add_dependency(ModuleId::from_str("x"), ModuleId::from_str("y"));
    assert!(acyclic.find_cycle().is_none());
}

#[test]
fn test_module_id_parsing() {
    let id = ModuleId::from_str("std::io");
    assert_eq!(id.path, vec!["std", "io"]);
    assert!(id.is_std());
    assert_eq!(id.name(), "io");
}

#[test]
fn test_module_id_parent() {
    let id = ModuleId::from_str("std::io::file");
    let parent = id.parent().unwrap();
    assert_eq!(parent.to_string_path(), "std::io");
}

#[test]
fn test_module_id_root() {
    let id = ModuleId::root("main");
    assert_eq!(id.path, vec!["main"]);
    assert!(!id.is_std());
}

#[test]
fn module_paths_round_trip() {
    for text in ["a", "core::mem", "boxos::fs::file", ""] {
        assert_eq!(ModuleId::from_str(text).to_string_path(), text);
    }
    assert!(ModuleId::from_str("core::mem").is_core());
    assert!(ModuleId::from_str("boxos").is_boxos());
    assert!(ModuleId::root("main").parent().is_none());
}

#[test]
fn resolver_candidates_and_search_paths() {
    assert_eq!(candidates("lib", "io"), vec!["lib/io.box", "lib/mod.box", "lib/io/mod.box"]);
    let mut r = ModuleResolver::new();
    assert!(r.std_path().is_none());
    r.set_std_path("/opt/std".to_string());
    assert_eq!(r.std_path(), Some("/opt/std"));
    r.add_search_path("src".to_string());
    r.add_search_path("src".to_string());
    assert_eq!(r.search_paths(), &[".".to_string(), "src".to_string()]);
}

#[test]
fn std_loader_records_each_module_once() {
    let mut l = StdLoader::new();
    assert!(!l.is_loaded("std::io"));
    assert!(l.mark_loaded("std::io".to_string()));
    assert!(!l.mark_loaded("std::io".to_string()));
    assert!(l.is_loaded("std::io"));
    assert_eq!(l.loaded_modules().len(), 1);
}
