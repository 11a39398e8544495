use singing_sand::dirtree::{
    append_dir_node, build_dir_tree, build_dir_tree_items, track_dirs_from, DirTreeItemDto,
    ExpandedDirs,
};

fn strings(v: &[&str]) -> Vec<String> {
    v.iter().map(|s| s.to_string()).collect()
}

fn row(r: &DirTreeItemDto) -> (String, String, u32, bool, bool, bool) {
    (r.path.clone(), r.name.clone(), r.indent, r.has_children, r.is_expanded, r.is_root)
}

#[test]
fn collapsed_roots_show_one_row_each() {
    let roots = strings(&["/music", "/podcasts/"]);
    let dirs = strings(&["/music/a", "/music/b"]);
    let rows = build_dir_tree(&roots, &dirs, &ExpandedDirs::new());
    let got: Vec<_> = rows.iter().map(row).collect();
    assert_eq!(
        got,
        vec![
            ("/music".to_string(), "music".to_string(), 0, true, false, true),
            ("/podcasts/".to_string(), "podcasts".to_string(), 0, false, false, true),
        ]
    );
}

#[test]
fn expanded_root_lists_direct_children_in_order() {
    let roots = strings(&["/music"]);
    let dirs = strings(&["/music/b", "/other", "/music/a/x", "/music/a", "/music/b"]);
    let mut expanded = ExpandedDirs::new();
    expanded.toggle("/music");
    let rows = build_dir_tree(&roots, &dirs, &expanded);
    let got: Vec<_> = rows.iter().map(row).collect();
    assert_eq!(
        got,
        vec![
            ("/music".to_string(), "music".to_string(), 0, true, true, true),
            ("/music/a".to_string(), "a".to_string(), 1, true, false, false),
            ("/music/b".to_string(), "b".to_string(), 1, false, false, false),
        ]
    );
}

#[test]
fn nested_expansion_goes_depth_first() {
    let roots = strings(&["/music"]);
    let dirs = strings(&["/music/a", "/music/a/x", "/music/b"]);
    let mut expanded = ExpandedDirs::new();
    expanded.toggle("/music");
    expanded.toggle("/music/a");
    let rows = build_dir_tree(&roots, &dirs, &expanded);
    let paths: Vec<_> = rows.iter().map(|r| (r.path.clone(), r.indent)).collect();
    assert_eq!(
        paths,
        vec![
            ("/music".to_string(), 0),
            ("/music/a".to_string(), 1),
            ("/music/a/x".to_string(), 2),
            ("/music/b".to_string(), 1),
        ]
    );
}

#[test]
fn indent_is_capped_at_four() {
    let roots = strings(&["/r"]);
    let dirs = strings(&["/r/1", "/r/1/2", "/r/1/2/3", "/r/1/2/3/4", "/r/1/2/3/4/5"]);
    let mut expanded = ExpandedDirs::new();
    for d in ["/r", "/r/1", "/r/1/2", "/r/1/2/3", "/r/1/2/3/4"] {
        expanded.toggle(d);
    }
    let rows = build_dir_tree(&roots, &dirs, &expanded);
    let indents: Vec<u32> = rows.iter().map(|r| r.indent).collect();
    assert_eq!(indents, vec![0, 1, 2, 3, 4, 4]);
    let items = build_dir_tree_items(&roots, &dirs, &expanded);
    let item_indents: Vec<i32> = items.iter().map(|r| r.indent).collect();
    assert_eq!(item_indents, vec![0, 1, 2, 3, 4, 4]);
}

#[test]
fn prefix_siblings_are_not_children() {
    let roots = strings(&["/foo"]);
    let dirs = strings(&["/foobar", "/foo/x"]);
    let mut expanded = ExpandedDirs::new();
    expanded.toggle("/foo");
    let rows = build_dir_tree(&roots, &dirs, &expanded);
    let paths: Vec<_> = rows.iter().map(|r| r.path.clone()).collect();
    assert_eq!(paths, strings(&["/foo", "/foo/x"]));
}

#[test]
fn toggling_twice_restores_collapsed() {
    let mut expanded = ExpandedDirs::new();
    assert!(!expanded.is_expanded("/a"));
    expanded.toggle("/a");
    assert!(expanded.is_expanded("/a"));
    expanded.toggle("/a");
    assert!(!expanded.is_expanded("/a"));
    expanded.toggle("/a");
    expanded.remove("/a");
    assert!(!expanded.is_expanded("/a"));
}

#[test]
fn append_node_adds_to_existing_rows() {
    let all = strings(&["/m/a", "/m/b"]);
    let mut expanded = ExpandedDirs::new();
    expanded.toggle("/m");
    let mut rows = vec![DirTreeItemDto {
        path: "/first".to_string(),
        name: "first".to_string(),
        indent: 0,
        has_children: false,
        is_expanded: false,
        is_root: true,
    }];
    append_dir_node(&mut rows, "/m", &all, 3, &expanded, false);
    let got: Vec<_> = rows.iter().map(row).collect();
    assert_eq!(
        got,
        vec![
            ("/first".to_string(), "first".to_string(), 0, false, false, true),
            ("/m".to_string(), "m".to_string(), 3, true, true, false),
            ("/m/a".to_string(), "a".to_string(), 4, false, false, false),
            ("/m/b".to_string(), "b".to_string(), 4, false, false, false),
        ]
    );
}

#[test]
fn root_without_file_name_is_named_by_its_path() {
    let rows = build_dir_tree(&strings(&["/"]), &Vec::new(), &ExpandedDirs::new());
    assert_eq!(rows.len(), 1);
    assert_eq!(rows[0].name, "/");
}

#[test]
fn track_directories_are_unique_sorted_parents() {
    let paths = strings(&["/m/b/3.mp3", "/m/a/1.mp3", "/m/a/2.mp3", "/m/a/sub/4.mp3"]);
    assert_eq!(track_dirs_from(&paths), strings(&["/m/a", "/m/a/sub", "/m/b"]));
}

#[test]
fn track_directories_of_bare_names_and_root() {
    assert_eq!(track_dirs_from(&strings(&["song.mp3"])), strings(&[""]));
    assert_eq!(track_dirs_from(&strings(&["/"])), Vec::<String>::new());
    assert_eq!(track_dirs_from(&strings(&["/song.mp3"])), strings(&["/"]));
}
