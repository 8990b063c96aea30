use rls::entry::{Entry, ListError, Timestamp};
use rls::scan::{Attributes, Child, DirectoryRead};
use rls::walk::{
    join_path, list_recursive, tree_entry_line, tree_header_line, tree_step, walk_tree, Descent,
    TreeNode, TreeStep,
};

fn entry(name: &str, is_directory: bool) -> Entry {
    let modified = Timestamp::new(0, 0, 0).unwrap();
    Entry::new(String::from(name), 0, modified, is_directory).unwrap()
}

fn child(name: &str, is_directory: bool) -> Child {
    let modified = Timestamp::new(0, 0, 0).unwrap();
    let attributes = Attributes { size: 0, modified, is_directory };
    Child::new(String::from(name), Some(attributes)).unwrap()
}

fn file_node(name: &str) -> TreeNode {
    TreeNode { entry: entry(name, false), children: vec![] }
}

fn dir_node(name: &str, children: Vec<TreeNode>) -> TreeNode {
    TreeNode { entry: entry(name, true), children }
}

#[test]
fn a_header_is_indented_by_two_spaces_per_level() {
    assert_eq!(tree_header_line("root", 0), "root:\n");
    assert_eq!(tree_header_line("root/a", 1), "  root/a:\n");
    assert_eq!(tree_header_line("root/a/b", 3), "      root/a/b:\n");
}

#[test]
fn an_entry_line_carries_the_branch_mark() {
    assert_eq!(tree_entry_line(&entry("f.txt", false), 0), "├── f.txt\n");
    assert_eq!(tree_entry_line(&entry("f.txt", false), 2), "    ├── f.txt\n");
    assert_eq!(tree_entry_line(&entry("sub", true), 1), "  ├── \x1B[1;34msub\x1B[0m/\n");
}

#[test]
fn a_child_path_joins_with_one_separator() {
    assert_eq!(join_path(".", "src"), "./src");
    assert_eq!(join_path("a/b", "c"), "a/b/c");
    assert_eq!(join_path("a/", "c"), "a/c");
    assert_eq!(join_path("/", "etc"), "/etc");
    assert_eq!(join_path("", "x"), "x");
    assert_eq!(join_path(".", "src"), std::path::Path::new(".").join("src").to_string_lossy());
    assert_eq!(join_path("a/", "c"), std::path::Path::new("a/").join("c").to_string_lossy());
    assert_eq!(join_path("", "x"), std::path::Path::new("").join("x").to_string_lossy());
}

#[test]
fn a_file_step_is_its_line() {
    let step = tree_step("root", 1, &entry("f", false));
    assert_eq!(step, TreeStep { line: String::from("  ├── f\n"), enter: None });
}

#[test]
fn a_directory_step_enters_one_level_deeper() {
    let step = tree_step("root", 1, &entry("sub", true));
    let expected = TreeStep {
        line: String::from("  ├── \x1B[1;34msub\x1B[0m/\n"),
        enter: Some(Descent { path: String::from("root/sub"), depth: 2 }),
    };
    assert_eq!(step, expected);
}

#[test]
fn a_visit_gives_one_step_per_listed_child() {
    let read = DirectoryRead::Children(vec![
        child("b", false),
        child(".hidden", false),
        child("sub", true),
        child(".git", true),
    ]);
    let steps = list_recursive("top", 0, &read, false).unwrap();
    assert_eq!(steps.len(), 2);
    assert_eq!(steps[0], TreeStep { line: String::from("├── b\n"), enter: None });
    assert_eq!(steps[1].enter, Some(Descent { path: String::from("top/sub"), depth: 1 }));
    let steps = list_recursive("top", 0, &read, true).unwrap();
    assert_eq!(steps.len(), 4);
    assert_eq!(steps[1].line, "├── .hidden\n");
    assert_eq!(steps[3].enter, Some(Descent { path: String::from("top/.git"), depth: 1 }));
}

#[test]
fn a_visit_hands_on_the_failure_of_the_scan() {
    assert_eq!(list_recursive("x", 0, &DirectoryRead::Missing, false), Err(ListError::NotFound));
    assert_eq!(
        list_recursive("x", 3, &DirectoryRead::Denied, true),
        Err(ListError::PermissionDenied)
    );
    let read = DirectoryRead::Children(vec![
        child("a", false),
        Child::new(String::from("b"), None).unwrap(),
    ]);
    assert_eq!(list_recursive("x", 0, &read, false), Err(ListError::MetadataUnavailable));
}

#[test]
fn a_walk_of_an_empty_subdirectory_prints_its_lines_and_no_children() {
    let read = DirectoryRead::Children(vec![child("empty", true)]);
    let steps = list_recursive("top", 0, &read, false).unwrap();
    assert_eq!(steps.len(), 1);
    assert_eq!(steps[0].line, "├── \x1B[1;34mempty\x1B[0m/\n");
    let descent = steps[0].enter.as_ref().unwrap();
    assert_eq!(tree_header_line(&descent.path, descent.depth), "  top/empty:\n");
    let below = list_recursive(&descent.path, descent.depth, &DirectoryRead::Children(vec![]), false);
    assert_eq!(below, Ok(vec![]));

    let lines = walk_tree("top", 0, &vec![dir_node("empty", vec![])], false);
    assert_eq!(lines, ["top:\n", "├── \x1B[1;34mempty\x1B[0m/\n", "  top/empty:\n"]);
}

#[test]
fn a_walk_visits_every_descendant_once_and_depth_first() {
    let tree = vec![
        file_node("a"),
        dir_node("d1", vec![file_node("b"), dir_node("d2", vec![file_node("c")]), file_node("e")]),
        file_node("f"),
    ];
    let lines = walk_tree("r", 0, &tree, false);
    let expected = [
        "r:\n",
        "├── a\n",
        "├── \x1B[1;34md1\x1B[0m/\n",
        "  r/d1:\n",
        "  ├── b\n",
        "  ├── \x1B[1;34md2\x1B[0m/\n",
        "    r/d1/d2:\n",
        "    ├── c\n",
        "  ├── e\n",
        "├── f\n",
    ];
    assert_eq!(lines, expected);
}

#[test]
fn a_walk_leaves_out_what_lies_below_a_hidden_directory() {
    let tree = vec![
        dir_node(".git", vec![file_node("config")]),
        dir_node("src", vec![file_node(".hidden"), file_node("main.rs")]),
    ];
    let hidden_out = walk_tree(".", 0, &tree, false);
    assert_eq!(
        hidden_out,
        [".:\n", "├── \x1B[1;34msrc\x1B[0m/\n", "  ./src:\n", "  ├── main.rs\n"]
    );
    let all = walk_tree(".", 0, &tree, true);
    assert_eq!(all.len(), 1 + 5 + 2);
    assert_eq!(all[2], "  ./.git:\n");
    assert_eq!(all[3], "  ├── config\n");
}

#[test]
fn a_walk_that_starts_deeper_is_indented_throughout() {
    let tree = vec![dir_node("d", vec![file_node("x")])];
    let lines = walk_tree("p", 2, &tree, false);
    assert_eq!(
        lines,
        ["    p:\n", "    ├── \x1B[1;34md\x1B[0m/\n", "      p/d:\n", "      ├── x\n"]
    );
}

#[test]
fn a_walk_agrees_with_visits_made_one_directory_at_a_time() {
    fn drive(path: &str, depth: usize, nodes: &[TreeNode], lines: &mut Vec<String>) {
        lines.push(tree_header_line(path, depth));
        let children: Vec<Child> = nodes
            .iter()
            .map(|n| {
                let attributes = Attributes {
                    size: n.entry.size(),
                    modified: n.entry.modified(),
                    is_directory: n.entry.is_directory(),
                };
                Child::new(n.entry.name().to_string(), Some(attributes)).unwrap()
            })
            .collect();
        let listed: Vec<&TreeNode> = nodes.iter().filter(|n| !n.entry.is_hidden()).collect();
        let steps = list_recursive(path, depth, &DirectoryRead::Children(children), false).unwrap();
        assert_eq!(steps.len(), listed.len());
        for (step, node) in steps.into_iter().zip(listed) {
            lines.push(step.line);
            if let Some(descent) = step.enter {
                drive(&descent.path, descent.depth, &node.children, lines);
            }
        }
    }
    let tree = vec![
        dir_node("a", vec![dir_node("b", vec![dir_node("c", vec![])]), file_node(".x")]),
        file_node("y"),
        dir_node(".z", vec![file_node("w")]),
    ];
    let mut lines = Vec::new();
    drive("root", 0, &tree, &mut lines);
    assert_eq!(walk_tree("root", 0, &tree, false), lines);
}
