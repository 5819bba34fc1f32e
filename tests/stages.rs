use rug::checker::{check_dirs, check_heading, check_line, Status};
use rug::creator::{create_dirs, create_heading, create_line, dirs_to_create};
use rug::directory::{default_directories, Directory};

#[test]
fn default_directories_in_order() {
    let dirs = default_directories();
    assert_eq!(
        dirs,
        vec![
            Directory::Alacritty(".config/alacritty"),
            Directory::Nvim(".config/nvim"),
            Directory::Lua(".config/nvim/lua"),
            Directory::Autoload(".config/nvim/autoload"),
        ]
    );
}

#[test]
fn to_path_of_each_role() {
    assert_eq!(Directory::Alacritty("a").to_path(), "a");
    assert_eq!(Directory::Nvim("b/c").to_path(), "b/c");
    assert_eq!(Directory::Lua("d").to_path(), "d");
    assert_eq!(Directory::Autoload("").to_path(), "");
}

#[test]
fn neither_present_then_both_created() {
    let paths = vec![
        Directory::Alacritty(".config/alacritty"),
        Directory::Nvim(".config/nvim"),
    ];
    let first = check_dirs(&paths, &vec![false, false]);
    assert_eq!(first, vec![Status::Missing(paths[0]), Status::Missing(paths[1])]);
    assert_eq!(dirs_to_create(&first), paths);
    assert_eq!(create_dirs(&first), paths);
    let second = check_dirs(&paths, &vec![true, true]);
    assert_eq!(second, vec![Status::Exists(paths[0]), Status::Exists(paths[1])]);
    assert!(dirs_to_create(&second).is_empty());
    assert_eq!(create_dirs(&second), paths);
}

#[test]
fn existing_dirs_are_not_created() {
    let paths = default_directories();
    let checked = check_dirs(&paths, &vec![true, true, true, true]);
    assert!(checked.iter().all(|s| !s.is_missing()));
    assert!(dirs_to_create(&checked).is_empty());
}

#[test]
fn classification_keeps_input_order() {
    let paths = default_directories();
    let checked = check_dirs(&paths, &vec![true, false, true, false]);
    assert_eq!(
        checked,
        vec![
            Status::Exists(paths[0]),
            Status::Missing(paths[1]),
            Status::Exists(paths[2]),
            Status::Missing(paths[3]),
        ]
    );
    for (s, d) in checked.iter().zip(paths.iter()) {
        assert_eq!(s.directory(), *d);
    }
    assert_eq!(dirs_to_create(&checked), vec![paths[1], paths[3]]);
    assert_eq!(create_dirs(&checked), paths);
}

#[test]
fn check_of_nothing_is_empty() {
    let checked = check_dirs(&vec![], &vec![]);
    assert!(checked.is_empty());
    assert!(dirs_to_create(&checked).is_empty());
    assert!(create_dirs(&checked).is_empty());
}

#[test]
fn same_path_twice_is_classified_twice() {
    let d = Directory::Nvim(".config/nvim");
    let checked = check_dirs(&vec![d, d], &vec![false, false]);
    assert_eq!(dirs_to_create(&checked), vec![d, d]);
}

#[test]
fn check_lines() {
    let d = Directory::Nvim(".config/nvim");
    assert_eq!(check_line(&Status::Exists(d)), ".config/nvim<green> \u{2713}</>");
    assert_eq!(check_line(&Status::Missing(d)), ".config/nvim<red> \u{10102}</>");
    assert_eq!(check_heading(), "<yellow>Checking directories</>");
}

#[test]
fn create_lines() {
    let d = Directory::Lua(".config/nvim/lua");
    assert_eq!(create_line(&Status::Exists(d)), ".config/nvim/lua <yellow>SKIPPED</>");
    assert_eq!(create_line(&Status::Missing(d)), ".config/nvim/lua <green>CREATED</>");
    assert_eq!(create_heading(), "<yellow>Creating directories</>");
}
