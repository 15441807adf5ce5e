use webdav_ss::normalized_path::NormalizedPath;

fn text(p: NormalizedPath) -> String {
    p.into_string()
}

#[test]
fn create_from_string() {
    assert_eq!("/", NormalizedPath::from("/").as_str());
    assert_eq!("/", NormalizedPath::from("").as_str());
    assert_eq!("file.txt", NormalizedPath::from("/file.txt").as_str());
    assert_eq!("somedir/", NormalizedPath::from("/somedir/").as_str());
    assert_eq!("somedir/", NormalizedPath::from("somedir/").as_str());
    assert_eq!(
        "somedir/file.txt",
        NormalizedPath::from("/somedir/file.txt").as_str()
    );
}

#[test]
fn create_from_davpath() {
    assert_eq!("/", text(NormalizedPath::from_text("/")));
    assert_eq!("file.txt", text(NormalizedPath::from_text("/file.txt")));
    assert_eq!("somedir/", text(NormalizedPath::from_text("/somedir/")));
    assert_eq!(
        "somedir/file.txt",
        text(NormalizedPath::from_text("/somedir/file.txt"))
    );
}

#[test]
fn joining() {
    let p: NormalizedPath = "/".into();
    assert_eq!(
        "file/file/file",
        p.join_file("file")
            .join_file("/file")
            .join_file("file/")
            .join_file("")
            .as_str()
    );
    assert_eq!(
        "dir/dir/dir/",
        p.join_dir("dir")
            .join_dir("dir")
            .join_dir("dir")
            .join_dir("")
            .as_str()
    );
}

#[test]
fn parenting() {
    let p: NormalizedPath = "/some/long/directories/file.txt".into();
    assert_eq!(p.parent().as_str(), "some/long/directories/");
    assert_eq!(p.parent().parent().as_str(), "some/long/");
    assert_eq!(p.parent().parent().parent().as_str(), "some/");
    assert_eq!(p.parent().parent().parent().parent().as_str(), "/");
    assert_eq!(p.parent().parent().parent().parent().parent().as_str(), "/");
    assert_eq!(
        NormalizedPath::from("some/long/directories/").parent().as_str(),
        "some/long/"
    );
}

#[test]
fn split_prefix() {
    let p: NormalizedPath = "/some/long/directories/file.txt".into();
    assert_eq!(
        p.strip_prefix(&"/some/long/directories/".into()).as_str(),
        "file.txt"
    );
    assert_eq!(
        p.strip_prefix(&"/some/long/".into()).as_str(),
        "directories/file.txt"
    );
    assert_eq!(
        p.strip_prefix(&"/some/".into()).as_str(),
        "long/directories/file.txt"
    );
    let p: NormalizedPath = "somekey.txt".into();
    assert_eq!(p.strip_prefix(&"/".into()).as_str(), "somekey.txt");
}

#[test]
fn leading_slash_makes_no_difference() {
    assert_eq!(NormalizedPath::from("/a/b/"), NormalizedPath::from("a/b/"));
    assert_eq!(
        NormalizedPath::from(String::from("/a/b")),
        NormalizedPath::from("a/b")
    );
    assert_ne!(NormalizedPath::from("a/b/"), NormalizedPath::from("a/b"));
}

#[test]
fn joining_never_doubles_the_slash() {
    for base in ["/", "a", "a/", "a/b", "a/b/"] {
        for token in [
            "x", "/x", "x/", "/x/", "x/y", "/x/y/", "//x", "x//", "///x/y///",
        ] {
            let p = NormalizedPath::from(base);
            assert!(!p.join_file(token).as_str().contains("//"));
            assert!(!p.join_dir(token).as_str().contains("//"));
            assert!(!p.join_file(token).is_collection());
            assert!(p.join_dir(token).is_collection());
        }
    }
}

#[test]
fn join_of_an_empty_token_gives_the_path_back() {
    let p = NormalizedPath::from("a/b");
    assert_eq!(p.join_file("").as_str(), "a/b");
    assert_eq!(p.join_file("/").as_str(), "a/b");
    assert_eq!(p.join_dir("//").as_str(), "a/b");
}

#[test]
fn join_drops_every_slash_at_the_ends_of_the_token() {
    let p = NormalizedPath::from("a/");
    assert_eq!(p.join_file("//b").as_str(), "a/b");
    assert_eq!(p.join_file("b//").as_str(), "a/b");
    assert_eq!(p.join_dir("//b//").as_str(), "a/b/");
    assert_eq!(NormalizedPath::from("/").join_file("//b//").as_str(), "b");
    assert_eq!(NormalizedPath::from("a").join_dir("///b").as_str(), "a/b/");
}

#[test]
fn trim_token_drops_the_slashes_at_both_ends() {
    assert_eq!(NormalizedPath::trim_token("/a/"), "a");
    assert_eq!(NormalizedPath::trim_token("a"), "a");
    assert_eq!(NormalizedPath::trim_token("//a//"), "a");
    assert_eq!(NormalizedPath::trim_token("///a/b///"), "a/b");
    assert_eq!(NormalizedPath::trim_token("/"), "");
    assert_eq!(NormalizedPath::trim_token("///"), "");
    assert_eq!(NormalizedPath::trim_token(""), "");
}

#[test]
fn collection_survives_the_way_to_a_resource_and_back() {
    for p in ["/", "a/", "a/b/", "some/long/dir/"] {
        let p = NormalizedPath::from(p);
        assert_eq!(p.as_file().as_dir(), p);
    }
}

#[test]
fn forms_of_a_path() {
    assert_eq!(NormalizedPath::from("a/b/").as_file().as_str(), "a/b");
    assert_eq!(NormalizedPath::from("a/b").as_file().as_str(), "a/b");
    assert_eq!(NormalizedPath::from("a/b").as_dir().as_str(), "a/b/");
    assert_eq!(NormalizedPath::from("a/b/").as_dir().as_str(), "a/b/");
    assert_eq!(NormalizedPath::from("/").as_file().as_str(), "/");
    assert_eq!(NormalizedPath::from("a///").as_file().as_str(), "a");
}

#[test]
fn root_and_collections() {
    assert!(NormalizedPath::from("/").is_root());
    assert!(NormalizedPath::from("").is_root());
    assert!(!NormalizedPath::from("a/").is_root());
    assert!(NormalizedPath::from("/").is_collection());
    assert!(NormalizedPath::from("a/").is_collection());
    assert!(!NormalizedPath::from("a").is_collection());
}

#[test]
fn parents_of_collections_and_resources() {
    assert_eq!(NormalizedPath::from("a/b/").parent().as_str(), "a/");
    assert_eq!(NormalizedPath::from("a/b").parent().as_str(), "a/");
    assert_eq!(NormalizedPath::from("/").parent().as_str(), "/");
    assert_eq!(NormalizedPath::from("a").parent().as_str(), "/");
    assert_eq!(NormalizedPath::from("a//b/c").parent().as_str(), "a/b/");
    assert_eq!(NormalizedPath::from("a/b/c").dirs_parent().as_str(), "a/");
    assert_eq!(NormalizedPath::from("a/b/c/").dirs_parent().as_str(), "a/b/");
    assert_eq!(NormalizedPath::from("d/.dir").dirs_parent().as_str(), "/");
}

#[test]
fn strip_prefix_takes_the_prefix_once() {
    let p = NormalizedPath::from("a/a/b");
    assert_eq!(p.strip_prefix(&"a/".into()).as_str(), "a/b");
    assert_eq!(p.strip_prefix(&"x/".into()).as_str(), "a/a/b");
    assert_eq!(p.strip_prefix(&"a/a/b".into()).as_str(), "/");
    assert_eq!(p.strip_prefix(&"a".into()).as_str(), "a/b");
}

#[test]
fn clone_is_equal() {
    let p = NormalizedPath::from("a/b");
    assert_eq!(p.clone(), p);
    assert_eq!(p.clone().into_string(), "a/b");
}
