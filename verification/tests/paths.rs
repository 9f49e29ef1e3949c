use gdl::paths::{directory_name, file_name, path_from_bstr, repo_relative_path, slash_path};

#[test]
fn diff_paths_normalize_to_components() {
    assert_eq!(repo_relative_path("src/app.rs").unwrap(), "src/app.rs");
    assert_eq!(repo_relative_path("./src//app.rs/").unwrap(), "src/app.rs");
}

#[test]
fn empty_diff_paths_are_refused() {
    let e = repo_relative_path("").unwrap_err();
    assert_eq!(e.message, "diff path must not be empty");
    assert_eq!(e.source, None);
    assert_eq!(repo_relative_path("./.").unwrap_err().message, "diff path must not be empty");
}

#[test]
fn absolute_and_parent_paths_are_refused() {
    assert_eq!(
        repo_relative_path("/etc/passwd").unwrap_err().to_text(),
        "diff path must be repository-relative: /etc/passwd"
    );
    assert_eq!(
        repo_relative_path("src/../../x").unwrap_err().message,
        "diff path must be repository-relative: src/../../x"
    );
}

#[test]
fn display_forms_of_paths() {
    assert_eq!(slash_path("a//b/./c"), "a/b/c");
    assert_eq!(slash_path(""), ".");
    assert_eq!(file_name("nested/modified.txt"), "modified.txt");
    assert_eq!(file_name("top.txt"), "top.txt");
    assert_eq!(file_name("a/.."), "a/..");
    assert_eq!(directory_name("nested/deeper/file.txt"), "nested/deeper");
    assert_eq!(directory_name("file.txt"), ".");
}

#[test]
fn root_and_leading_dot_paths_display_their_first_component() {
    assert_eq!(slash_path("/"), "/");
    assert_eq!(slash_path("/a/b"), "//a/b");
    assert_eq!(slash_path("./a"), "./a");
    assert_eq!(slash_path("."), ".");
    assert_eq!(file_name("/"), "/");
    assert_eq!(file_name("."), ".");
    assert_eq!(file_name("/a"), "a");
    assert_eq!(directory_name("/a"), "/");
    assert_eq!(directory_name("/"), ".");
    assert_eq!(directory_name("./a"), ".");
    assert_eq!(directory_name("./a/b"), "./a");
}

#[test]
fn path_bytes_decode_lossily() {
    assert_eq!(path_from_bstr(b"dir/\xffname"), "dir/\u{fffd}name");
    assert_eq!(path_from_bstr("caf\u{e9}.txt".as_bytes()), "caf\u{e9}.txt");
}

#[test]
fn normalized_paths_normalize_to_themselves() {
    let once = repo_relative_path("./src//nested/./app.rs").unwrap();
    assert_eq!(once, "src/nested/app.rs");
    assert_eq!(repo_relative_path(&once).unwrap(), once);
}
