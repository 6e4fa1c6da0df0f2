use rcf::include_list::IncludeList;
use rcf::fetch_project::{
    get_project_type, make_raw_include, crop_file_name, fetch_project, DirEntry, FsNode,
};

fn file(name: &str) -> DirEntry {
    DirEntry { name: name.to_string(), node: FsNode::File }
}

fn dir(name: &str, entries: Vec<DirEntry>) -> DirEntry {
    DirEntry { name: name.to_string(), node: FsNode::Dir(entries) }
}

#[test]
fn include_list_queries() {
    let incl = IncludeList::construct("scripts/*.gml\nconfig.ini").expect("build failed");
    assert!(incl.file_included("config.ini"));
    assert!(!incl.file_included("other.ini"));
    assert!(incl.get_folder("scripts").is_some());
    assert!(incl.get_folder("sounds").is_none());
    let scripts = incl.get_folder("scripts").unwrap();
    assert!(scripts.type_included(".gml"));
    assert!(!scripts.type_included(".png"));
}

#[test]
fn nested_folders_merge() {
    let incl = IncludeList::construct("a/b/x.txt\na/c/*.png\na/y.txt\n").expect("build failed");
    let a = incl.get_folder("a").expect("folder a");
    assert!(a.file_included("y.txt"));
    let b = a.get_folder("b").expect("folder b");
    assert!(b.file_included("x.txt"));
    let c = a.get_folder("c").expect("folder c");
    assert!(c.type_included(".png"));
}

#[test]
fn wildcard_in_folder_name_is_rejected() {
    let err = match IncludeList::construct("*/x.txt\n") {
        Ok(_) => panic!("build should fail"),
        Err(e) => e,
    };
    assert!(err.contains("folder name"));
}

#[test]
fn double_wildcard_is_rejected() {
    assert!(IncludeList::construct("**.gml\n").is_err());
}

#[test]
fn wildcard_with_leading_text_is_rejected() {
    assert!(IncludeList::construct("ab*.gml\n").is_err());
}

#[test]
fn bare_wildcard_line_is_rejected() {
    assert!(IncludeList::construct("*gml\n").is_err());
}

#[test]
fn final_line_counts_without_a_trailing_newline() {
    let incl = IncludeList::construct("config.ini").expect("build failed");
    assert!(incl.file_included("config.ini"));
    let wild = IncludeList::construct("*.gml").expect("build failed");
    assert!(wild.type_included(".gml"));
    let nested = IncludeList::construct("a/b.txt").expect("build failed");
    assert!(nested.get_folder("a").expect("folder a").file_included("b.txt"));
}

#[test]
fn malformed_final_line_is_rejected() {
    // a trailing wildcard without an extension is invalid like any other
    assert!(IncludeList::construct("a.txt\n*x").is_err());
}

#[test]
fn failed_build_leaves_the_list_unchanged() {
    let mut incl = IncludeList::construct("a.txt\n").expect("build failed");
    assert!(incl.add_entries("b.txt\n*x\nc.txt\n").is_err());
    assert!(incl.file_included("a.txt"));
    assert!(!incl.file_included("b.txt"));
    assert!(!incl.file_included("c.txt"));
}

#[test]
fn every_default_rule_takes_effect() {
    // the default body ends without a newline; its last asset still counts
    let incl = IncludeList::construct(make_raw_include(0)).expect("build failed");
    assert!(incl.file_included("charselect.ogg"));
    assert!(incl.file_included("config.ini"));
    assert!(incl.get_folder("fonts").expect("folder fonts").type_included(".ini"));
}

#[test]
fn sibling_folder_without_a_rule_is_excluded() {
    let incl = IncludeList::construct("scripts/*.gml\nconfig.ini").expect("build failed");
    assert!(incl.get_folder("sounds").is_none());
    let tree = vec![
        dir("scripts", vec![file("a.gml"), file("user_event2.gml")]),
        dir("sounds", vec![file("clip.ogg")]),
    ];
    let (paths, _) = fetch_project("p", "type=\"0\"", "scripts/*.gml\nconfig.ini", &tree, 2)
        .expect("fetch failed");
    assert_eq!(paths, vec!["scripts/a.gml".to_string()]);
}

#[test]
fn get_project_type_reads_the_field() {
    assert_eq!(get_project_type("name=\"x\"\ntype=\"0\"\n"), Some(0));
    assert_eq!(get_project_type("type = \"2\""), Some(2));
    assert_eq!(get_project_type("type=\" 3 \""), Some(3));
    assert_eq!(get_project_type("type=\"abc\""), None);
    assert_eq!(get_project_type("no such field"), None);
    assert_eq!(get_project_type("type=\"999\""), None);
    assert_eq!(get_project_type(""), None);
}

#[test]
fn default_rules_include_the_expected_lines() {
    let rules = make_raw_include(0);
    assert!(rules.contains("scripts/*.gml"));
    assert!(rules.contains("config.ini"));
    assert!(rules.contains("charselect.ogg"));
}

#[test]
fn crop_strips_the_root_prefix() {
    assert_eq!(crop_file_name("root", "root/a/b.gml").unwrap(), "a/b.gml");
    assert_eq!(crop_file_name("root/", "root/a.gml").unwrap(), "a.gml");
    assert!(crop_file_name("root", "other/a.gml").is_err());
    assert!(crop_file_name("root", "roo").is_err());
}

#[test]
fn fetch_collects_included_files_and_the_constants_script() {
    let tree = vec![
        file("config.ini"),
        file("ignored.bin"),
        dir(
            "scripts",
            vec![file("init.gml"), file("user_event2.gml"), file("notes.txt")],
        ),
        dir("sounds", vec![file("clip.ogg")]),
    ];
    let rules = "scripts/*.gml\nconfig.ini\n";
    let config = "type=\"0\"\n";
    let (paths, ue) = fetch_project("proj", config, rules, &tree, 2).expect("fetch failed");
    assert_eq!(ue, "scripts/user_event2.gml");
    assert_eq!(paths, vec!["config.ini".to_string(), "scripts/init.gml".to_string()]);
}

#[test]
fn pruned_folder_is_never_visited() {
    // `sounds/` has no folder rule, so nothing under it is collected even
    // though a wildcard for its extension exists at the top level
    let tree = vec![
        dir("sounds", vec![file("clip.ogg"), file("user_event2.gml")]),
        file("user_event2.gml"),
    ];
    let rules = "*.ogg\n";
    let config = "type=\"0\"\n";
    let (paths, ue) = fetch_project("p", config, rules, &tree, 2).expect("fetch failed");
    assert_eq!(ue, "user_event2.gml");
    assert!(paths.is_empty());
}

#[test]
fn fetch_fails_without_a_valid_project_type() {
    let tree = vec![file("user_event2.gml")];
    let err = fetch_project("p", "nothing here", "", &tree, 2).expect_err("fetch should fail");
    assert!(err.contains("Could not find a valid project"));
}

#[test]
fn fetch_fails_on_unrecognized_project_type() {
    let tree = vec![file("user_event2.gml")];
    assert!(fetch_project("p", "type=\"9\"", "", &tree, 2).is_err());
}

#[test]
fn fetch_fails_when_the_constants_script_is_missing() {
    let tree = vec![file("config.ini")];
    let err = fetch_project("p", "type=\"0\"", "config.ini\n", &tree, 2)
        .expect_err("fetch should fail");
    assert!(err.contains("Could not locate user_event2.gml"));
}

#[test]
fn fetch_fails_on_malformed_rules() {
    let tree = vec![file("user_event2.gml")];
    assert!(fetch_project("p", "type=\"0\"", "ab*.gml\n", &tree, 2).is_err());
}

#[test]
fn extension_matching_uses_the_last_dot() {
    let tree = vec![file("user_event2.gml"), file("archive.tar.gz"), file("noext")];
    let rules = "*.gz\nnoext\n";
    let (paths, _) = fetch_project("p", "type=\"0\"", rules, &tree, 2).expect("fetch failed");
    assert_eq!(paths, vec!["archive.tar.gz".to_string(), "noext".to_string()]);
}
