use tytm::mover::{move_file_to, move_inside_to, move_to, theme_moves, MoveOp};
use tytm::tree::{check_contents, check_tree, find_base_dir, is_css_file_name, DirTree};

fn dir(name: &str, files: &[&str], dirs: Vec<DirTree>) -> DirTree {
    DirTree {
        name: name.to_string(),
        files: files.iter().map(|f| f.to_string()).collect(),
        dirs,
    }
}

fn renames(ops: &[MoveOp]) -> Vec<(String, String)> {
    ops.iter()
        .filter_map(|o| match o {
            MoveOp::Rename { from, to } => Some((from.clone(), to.clone())),
            _ => None,
        })
        .collect()
}

fn ensured(ops: &[MoveOp]) -> Vec<String> {
    ops.iter()
        .filter_map(|o| match o {
            MoveOp::EnsureDir { path } => Some(path.clone()),
            _ => None,
        })
        .collect()
}

fn removed(ops: &[MoveOp]) -> Vec<String> {
    ops.iter()
        .filter_map(|o| match o {
            MoveOp::RemoveDir { path } => Some(path.clone()),
            _ => None,
        })
        .collect()
}

#[test]
fn move_keeps_file_count() {
    let t = dir("icons", &["a.png", "b.png"], vec![dir("sub", &["c.png"], vec![])]);
    let plan = move_to("/tmp/x", &t, "/themes");
    assert_eq!(plan.dest, "/themes/icons");
    let r = renames(&plan.ops);
    assert_eq!(r.len(), 3);
    assert_eq!(
        r,
        vec![
            ("/tmp/x/icons/a.png".to_string(), "/themes/icons/a.png".to_string()),
            ("/tmp/x/icons/b.png".to_string(), "/themes/icons/b.png".to_string()),
            ("/tmp/x/icons/sub/c.png".to_string(), "/themes/icons/sub/c.png".to_string()),
        ]
    );
    assert_eq!(
        ensured(&plan.ops),
        vec!["/themes/icons".to_string(), "/themes/icons/sub".to_string()]
    );
    assert_eq!(
        removed(&plan.ops),
        vec!["/tmp/x/icons/sub".to_string(), "/tmp/x/icons".to_string()]
    );
    assert!(matches!(plan.ops.last(), Some(MoveOp::RemoveDir { path }) if path == "/tmp/x/icons"));
}

#[test]
fn move_of_empty_tree_only_makes_directory() {
    let t = dir("empty", &[], vec![]);
    let plan = move_to("/src", &t, "/dst");
    assert_eq!(plan.ops.len(), 2);
    assert_eq!(ensured(&plan.ops), vec!["/dst/empty".to_string()]);
    assert_eq!(removed(&plan.ops), vec!["/src/empty".to_string()]);
}

#[test]
fn move_inside_flattens_content() {
    let t = dir("manifest", &["a.json"], vec![dir("more", &["b.json"], vec![])]);
    let plan = move_inside_to("/tmp/manifest", &t, "/store");
    assert_eq!(plan.dest, "/store");
    assert_eq!(
        renames(&plan.ops),
        vec![
            ("/tmp/manifest/a.json".to_string(), "/store/a.json".to_string()),
            ("/tmp/manifest/more/b.json".to_string(), "/store/more/b.json".to_string()),
        ]
    );
    assert_eq!(
        removed(&plan.ops),
        vec!["/tmp/manifest/more".to_string(), "/tmp/manifest".to_string()]
    );
}

#[test]
fn move_single_file() {
    let plan = move_file_to("/tmp", "x.css", "/themes");
    assert_eq!(plan.dest, "/themes/x.css");
    assert_eq!(
        renames(&plan.ops),
        vec![("/tmp/x.css".to_string(), "/themes/x.css".to_string())]
    );
}

#[test]
fn css_extension_needs_a_stem() {
    assert!(is_css_file_name("a.css"));
    assert!(!is_css_file_name(".css"));
    assert!(!is_css_file_name("a.scss.bak"));
    assert!(!is_css_file_name("css"));
    assert!(is_css_file_name("..css"));
}

#[test]
fn base_dir_is_where_stylesheets_are() {
    let t = dir(
        "tmp",
        &["README.md"],
        vec![dir("docs", &["x.md"], vec![]), dir("theme", &["night.css"], vec![])],
    );
    assert_eq!(find_base_dir("/tmp", &t), Some("/tmp/theme".to_string()));
}

#[test]
fn base_dir_prefers_own_stylesheet_over_subdirectories() {
    let t = dir("tmp", &["a.css"], vec![dir("theme", &["b.css"], vec![])]);
    assert_eq!(find_base_dir("/tmp", &t), Some("/tmp".to_string()));
}

#[test]
fn base_dir_missing() {
    let t = dir("tmp", &["a.txt"], vec![dir("d", &[], vec![])]);
    assert_eq!(find_base_dir("/tmp", &t), None);
}

#[test]
fn theme_moves_take_stylesheets_and_directories() {
    let t = dir(
        "base",
        &["night.css", "README.md"],
        vec![dir(".git", &["HEAD"], vec![]), dir("night", &["font.woff"], vec![])],
    );
    let ops = theme_moves("/tmp/base", &t, "/themes");
    assert_eq!(
        renames(&ops),
        vec![
            ("/tmp/base/night.css".to_string(), "/themes/night.css".to_string()),
            ("/tmp/base/night/font.woff".to_string(), "/themes/night/font.woff".to_string()),
        ]
    );
    assert_eq!(ensured(&ops), vec!["/themes/night".to_string()]);
    assert_eq!(removed(&ops), vec!["/tmp/base/night".to_string()]);
}

#[test]
fn tree_names_must_be_single_segments() {
    let good = dir("icons", &["a.png"], vec![dir("sub", &["b.png"], vec![])]);
    assert!(check_tree(&good));
    assert!(check_contents(&good));
    assert!(!check_tree(&dir("..", &[], vec![])));
    assert!(check_contents(&dir("", &["a"], vec![])));
    assert!(!check_contents(&dir("x", &["a/b"], vec![])));
    assert!(!check_contents(&dir("x", &[], vec![dir(".", &[], vec![])])));
    assert!(!check_contents(&dir("x", &[], vec![dir("ok", &[".."], vec![])])));
}
