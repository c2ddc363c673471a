use mirrorman::mapping::{component_extension, mirror_entry, path_text, replace_extension};
use mirrorman::names::{database_path_from_mirror, is_database_file, DatabasePathError};

fn parts(items: &[&str]) -> Vec<String> {
    items.iter().map(|s| s.to_string()).collect()
}

#[test]
fn extension_of_plain_file() {
    assert_eq!(component_extension("post.md"), Some("md".to_string()));
    assert_eq!(component_extension("a.tar.gz"), Some("gz".to_string()));
    assert_eq!(component_extension("a."), Some("".to_string()));
}

#[test]
fn no_extension_for_dotfiles_and_specials() {
    assert_eq!(component_extension(".bashrc"), None);
    assert_eq!(component_extension("README"), None);
    assert_eq!(component_extension(".."), None);
    assert_eq!(component_extension("."), None);
    assert_eq!(component_extension("/"), None);
}

#[test]
fn replacing_an_extension() {
    assert_eq!(replace_extension("post.md", "html"), "post.html");
    assert_eq!(replace_extension("a.tar.gz", ""), "a.tar");
    assert_eq!(replace_extension("README", "txt"), "README.txt");
    assert_eq!(replace_extension(".bashrc", "bak"), ".bashrc.bak");
    assert_eq!(replace_extension("..", "x"), "..");
}

#[test]
fn mirror_keeps_the_relative_structure() {
    let src = parts(&["src"]);
    let out = parts(&["/", "tmp", "out"]);
    let entry = parts(&["src", "sub", "b.txt"]);
    assert_eq!(mirror_entry(&src, &out, &entry, None), parts(&["/", "tmp", "out", "sub", "b.txt"]));
    assert_eq!(mirror_entry(&src, &out, &parts(&["src"]), None), out);
}

#[test]
fn mirror_rewrites_only_the_last_extension() {
    let src = parts(&["src"]);
    let out = parts(&["out"]);
    let entry = parts(&["src", "notes.d", "post.md"]);
    let html = "html".to_string();
    assert_eq!(mirror_entry(&src, &out, &entry, Some(&html)), parts(&["out", "notes.d", "post.html"]));
}

#[test]
fn path_text_joins_components() {
    assert_eq!(path_text(&parts(&["/", "tmp", "a.txt"])), "/tmp/a.txt");
    assert_eq!(path_text(&parts(&["out", "sub"])), "out/sub");
    assert_eq!(path_text(&parts(&[])), "");
}

#[test]
fn database_name_from_mirror_path() {
    assert_eq!(database_path_from_mirror("/tmp/Out.d"), Ok("tmp_out_d.mmdb".to_string()));
    assert_eq!(database_path_from_mirror("Music/Lossy Copy"), Ok("music_lossy_copy.mmdb".to_string()));
    assert_eq!(database_path_from_mirror("./a..b/"), Ok("a_b.mmdb".to_string()));
    assert_eq!(database_path_from_mirror("/"), Ok(".mmdb".to_string()));
}

#[test]
fn database_name_needs_a_path() {
    assert_eq!(database_path_from_mirror(""), Err(DatabasePathError::EmptyPath));
}

#[test]
fn database_files_by_extension() {
    assert!(is_database_file("music.mmdb"));
    assert!(!is_database_file("music.mmdbx"));
    assert!(!is_database_file("mmdb"));
    assert!(!is_database_file(".mmdb"));
}
