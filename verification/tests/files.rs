use ide_backend::files::{
    check_readable, child_relative_path, lists_before, node_name, plan_creation, plan_removal,
    skips_entry, sort_children, AppError, Creation, FileContent, FileNode, PathQuery, Removal,
    STATUS_BAD_REQUEST, STATUS_CREATED, STATUS_INTERNAL_SERVER_ERROR, STATUS_NOT_FOUND,
    STATUS_OK, WORKSPACE_DIR,
};

fn file(name: &str) -> FileNode {
    FileNode::file(name.to_string(), name.to_string())
}

fn dir(name: &str) -> FileNode {
    FileNode::directory(name.to_string(), name.to_string(), Vec::new())
}

fn names(nodes: &[FileNode]) -> Vec<String> {
    nodes.iter().map(|node| node.name.clone()).collect()
}

#[test]
fn workspace_is_at_dot_workspace() {
    assert_eq!(WORKSPACE_DIR, "./workspace");
}

#[test]
fn statuses_have_their_http_numbers() {
    assert_eq!(STATUS_OK, 200);
    assert_eq!(STATUS_CREATED, 201);
    assert_eq!(STATUS_BAD_REQUEST, 400);
    assert_eq!(STATUS_NOT_FOUND, 404);
    assert_eq!(STATUS_INTERNAL_SERVER_ERROR, 500);
}

#[test]
fn not_found_is_answered_with_404() {
    assert_eq!(AppError::NotFound.into_parts(), (404, "Not found".to_string()));
}

#[test]
fn bad_request_is_answered_with_400_and_its_text() {
    let error = AppError::BadRequest("Path is not a file".to_string());
    assert_eq!(error.into_parts(), (400, "Path is not a file".to_string()));
}

#[test]
fn internal_error_is_answered_with_500_and_its_text() {
    let error = AppError::from_io("disk full".to_string());
    assert_eq!(error, AppError::InternalError("disk full".to_string()));
    assert_eq!(error.into_parts(), (500, "disk full".to_string()));
}

#[test]
fn listing_starts_at_the_workspace_without_a_path() {
    assert_eq!(PathQuery { path: None }.listing_target(), "");
    assert_eq!(PathQuery { path: Some("src/bin".to_string()) }.listing_target(), "src/bin");
}

#[test]
fn missing_path_is_a_bad_request() {
    assert_eq!(
        PathQuery { path: None }.required_path(),
        Err(AppError::BadRequest("Missing path parameter".to_string()))
    );
    assert_eq!(
        PathQuery { path: Some("a.txt".to_string()) }.required_path(),
        Ok("a.txt".to_string())
    );
}

#[test]
fn file_content_holds_its_text() {
    let content = FileContent { content: "fn main() {}".to_string() };
    assert_eq!(content.content, "fn main() {}");
}

#[test]
fn only_an_existing_file_can_be_read() {
    assert_eq!(check_readable(true, true), Ok(()));
    assert_eq!(check_readable(false, false), Err(AppError::NotFound));
    assert_eq!(check_readable(false, true), Err(AppError::NotFound));
    assert_eq!(
        check_readable(true, false),
        Err(AppError::BadRequest("Path is not a file".to_string()))
    );
}

#[test]
fn trailing_slash_asks_for_a_directory() {
    assert_eq!(plan_creation("docs/", false), Ok(Creation::Directory));
    assert_eq!(plan_creation("/", false), Ok(Creation::Directory));
    assert_eq!(plan_creation("docs/readme.md", false), Ok(Creation::EmptyFile));
    assert_eq!(plan_creation("", false), Ok(Creation::EmptyFile));
    assert_eq!(plan_creation("ünï/", false), Ok(Creation::Directory));
}

#[test]
fn nothing_is_created_over_what_exists() {
    let expected = Err(AppError::BadRequest("File or directory already exists".to_string()));
    assert_eq!(plan_creation("docs/", true), expected);
    assert_eq!(plan_creation("a.txt", true), expected);
}

#[test]
fn removal_follows_what_the_path_leads_to() {
    assert_eq!(plan_removal(false, false), Err(AppError::NotFound));
    assert_eq!(plan_removal(false, true), Err(AppError::NotFound));
    assert_eq!(plan_removal(true, true), Ok(Removal::DirectoryTree));
    assert_eq!(plan_removal(true, false), Ok(Removal::File));
}

#[test]
fn hidden_entries_are_skipped() {
    assert!(skips_entry(Some(".git")));
    assert!(skips_entry(Some(".")));
    assert!(skips_entry(Some(".env")));
    assert!(!skips_entry(Some("src")));
    assert!(!skips_entry(Some("a.b")));
    assert!(!skips_entry(Some("")));
    assert!(!skips_entry(None));
}

#[test]
fn node_without_a_name_goes_by_the_workspace() {
    assert_eq!(node_name(Some("main.rs")), "main.rs");
    assert_eq!(node_name(None), "./workspace");
}

#[test]
fn child_paths_are_joined_with_a_slash() {
    assert_eq!(child_relative_path("", "src"), "src");
    assert_eq!(child_relative_path("src", "main.rs"), "src/main.rs");
    assert_eq!(child_relative_path("a/b", "c"), "a/b/c");
    assert_eq!(child_relative_path("a", ""), "a/");
}

#[test]
fn directories_are_listed_before_files() {
    assert!(lists_before(&dir("zeta"), &file("alpha")));
    assert!(!lists_before(&file("alpha"), &dir("zeta")));
}

#[test]
fn names_are_ordered_by_their_bytes() {
    assert!(lists_before(&file("a"), &file("b")));
    assert!(!lists_before(&file("b"), &file("a")));
    assert!(!lists_before(&file("a"), &file("a")));
    assert!(lists_before(&file("a"), &file("ab")));
    assert!(!lists_before(&file("ab"), &file("a")));
    assert!(lists_before(&file(""), &file("a")));
    assert!(lists_before(&file("Z"), &file("a")));
    assert!(lists_before(&file("z"), &file("é")));
    assert!(lists_before(&dir("a10"), &dir("a9")));
}

#[test]
fn children_are_sorted_as_the_standard_sort_would() {
    let given = ["b.txt", "src", "a.txt", "Cargo.toml", "docs", "README.md", "é", "a", "ab"];
    let is_dir = |name: &str| name == "src" || name == "docs";
    let nodes: Vec<FileNode> =
        given.iter().map(|name| if is_dir(name) { dir(name) } else { file(name) }).collect();
    let mut expected: Vec<(bool, String)> =
        given.iter().map(|name| (!is_dir(name), name.to_string())).collect();
    expected.sort();
    let sorted = sort_children(nodes);
    let found: Vec<(bool, String)> =
        sorted.iter().map(|node| (!node.is_dir, node.name.clone())).collect();
    assert_eq!(found, expected);
    assert_eq!(
        names(&sorted),
        vec!["docs", "src", "Cargo.toml", "README.md", "a", "a.txt", "ab", "b.txt", "é"]
    );
}

#[test]
fn equal_names_keep_their_order() {
    let nodes = vec![
        FileNode::file("same".to_string(), "first".to_string()),
        FileNode::file("other".to_string(), "x".to_string()),
        FileNode::file("same".to_string(), "second".to_string()),
        FileNode::file("same".to_string(), "third".to_string()),
    ];
    let sorted = sort_children(nodes);
    let paths: Vec<String> = sorted.iter().map(|node| node.path.clone()).collect();
    assert_eq!(paths, vec!["x", "first", "second", "third"]);
}

#[test]
fn sorting_nothing_gives_nothing() {
    assert_eq!(sort_children(Vec::new()), Vec::new());
}

#[test]
fn file_node_has_no_children() {
    let node = FileNode::file("a.txt".to_string(), "src/a.txt".to_string());
    assert_eq!(node.name, "a.txt");
    assert_eq!(node.path, "src/a.txt");
    assert!(!node.is_dir);
    assert_eq!(node.children, None);
}

#[test]
fn directory_node_lists_its_children_in_order() {
    let node = FileNode::directory(
        "src".to_string(),
        "src".to_string(),
        vec![file("main.rs"), dir("bin"), file("lib.rs")],
    );
    assert!(node.is_dir);
    assert_eq!(node.name, "src");
    assert_eq!(node.path, "src");
    let children = node.children.unwrap();
    assert_eq!(names(&children), vec!["bin", "lib.rs", "main.rs"]);
}
