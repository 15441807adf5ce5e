use webdav_ss::error::FsError;
use webdav_ss::normalized_path::NormalizedPath;
use webdav_ss::prop_storages::kv::Kv;
use webdav_ss::prop_storages::mem::Memory;
use webdav_ss::prop_storages::props::DavProp;
use webdav_ss::prop_storages::stub::Stub;
use webdav_ss::prop_storages::yaml::{Prop, Yaml};

fn prop(ns: Option<&str>, name: &str, xml: Option<&[u8]>) -> DavProp {
    DavProp {
        name: name.to_string(),
        prefix: None,
        namespace: ns.map(|s| s.to_string()),
        xml: xml.map(|x| x.to_vec()),
    }
}

fn path(s: &str) -> NormalizedPath {
    NormalizedPath::from(s)
}

#[test]
fn rename() {
    let mut mem = Memory::new();
    let prop = DavProp {
        name: "name1".into(),
        namespace: Some("namespace1".into()),
        prefix: None,
        xml: Some([1, 2, 3].into()),
    };

    mem.patch_prop(&"/fs3/some/prop".into(), true, prop.clone())
        .unwrap();

    mem.rename(&"/fs3/some/prop".into(), &"/fs3/some/prop2".into())
        .unwrap();

    let p = mem.get_prop(&"/fs3/some/prop2".into(), &prop).unwrap();

    assert_eq!(p, prop.xml.unwrap());
}

#[test]
fn key_is_path_namespace_and_name() {
    let p = prop(Some("DAV:"), "author", None);
    assert_eq!(
        Memory::get_prop_string(&path("/s3/hello.txt"), &p),
        "s3/hello.txt.DAV:.author"
    );
    let p = prop(None, "x", None);
    assert_eq!(Memory::get_prop_string(&path("/"), &p), "/..x");
}

#[test]
fn setting_twice_leaves_one_property() {
    let mut mem = Memory::new();
    let x = prop(Some("ns"), "x", Some(b"1"));
    let (code, answer) = mem.patch_prop(&path("/f"), true, x.clone()).unwrap();
    assert_eq!(code, 200);
    assert_eq!(answer.name, "x");
    assert!(answer.xml.is_none());
    mem.patch_prop(&path("/f"), true, x.clone()).unwrap();
    assert_eq!(mem.get_all_props().len(), 1);
    assert_eq!(mem.get_props(&path("/f"), true).unwrap().len(), 1);

    mem.patch_prop(&path("/f"), false, x.clone()).unwrap();
    assert_eq!(mem.get_all_props().len(), 0);
    assert_eq!(mem.get_prop(&path("/f"), &x), Err(FsError::NotFound));
    // removing what is not there is no failure
    assert!(mem.patch_prop(&path("/f"), false, x).is_ok());
}

#[test]
fn prefix_plays_no_part_in_the_key() {
    let mut mem = Memory::new();
    let mut a = prop(Some("ns"), "x", Some(b"1"));
    a.prefix = Some("p".into());
    let mut b = prop(Some("ns"), "x", Some(b"2"));
    b.prefix = Some("q".into());
    mem.patch_prop(&path("/f"), true, a).unwrap();
    mem.patch_prop(&path("/f"), true, b.clone()).unwrap();
    assert_eq!(mem.get_all_props().len(), 1);
    assert_eq!(mem.get_prop(&path("/f"), &b).unwrap(), b"2".to_vec());
}

#[test]
fn listing_of_a_collection_holds_what_lies_below() {
    let mut mem = Memory::new();
    mem.patch_prop(&path("/d/a"), true, prop(None, "one", Some(b"1")))
        .unwrap();
    mem.patch_prop(&path("/d/b"), true, prop(None, "two", Some(b"2")))
        .unwrap();
    mem.patch_prop(&path("/e/c"), true, prop(None, "three", Some(b"3")))
        .unwrap();
    let all = mem.get_props(&path("/d/"), true).unwrap();
    assert_eq!(all.len(), 2);
    assert_eq!(all[0].name, "one");
    assert_eq!(all[0].xml.as_deref(), Some(&b"1"[..]));
    assert_eq!(all[1].name, "two");
    let bare = mem.get_props(&path("/d/"), false).unwrap();
    assert_eq!(bare.len(), 2);
    assert!(bare.iter().all(|p| p.xml.is_none()));
    assert_eq!(bare[1].name, "two");
    assert!(mem.have_props(&path("/d/")));
    assert!(mem.have_props(&path("/e/c")));
    assert!(!mem.have_props(&path("/x")));
}

#[test]
fn a_property_without_value_is_not_found() {
    let mut mem = Memory::new();
    let p = prop(None, "empty", None);
    mem.patch_prop(&path("/f"), true, p.clone()).unwrap();
    assert_eq!(mem.get_prop(&path("/f"), &p), Err(FsError::NotFound));
    assert!(mem.have_props(&path("/f")));
}

#[test]
fn removal_forgets_all_properties_of_the_path() {
    let mut mem = Memory::new();
    mem.patch_prop(&path("/s3/hello.txt"), true, prop(Some("DAV:"), "author", Some(b"<a>Igor</a>")))
        .unwrap();
    mem.patch_prop(&path("/s3/hello.txt"), true, prop(Some("DAV:"), "title", Some(b"<t/>")))
        .unwrap();
    mem.patch_prop(&path("/s3/other.txt"), true, prop(Some("DAV:"), "author", Some(b"x")))
        .unwrap();
    assert_eq!(mem.remove_file(&path("/s3/hello.txt")), Ok(()));
    assert!(mem.get_props(&path("/s3/hello.txt"), true).unwrap().is_empty());
    assert_eq!(mem.get_props(&path("/s3/"), true).unwrap().len(), 1);
    assert_eq!(mem.remove_dir(&path("/s3/")), Ok(()));
    assert!(mem.get_all_props().is_empty());
    assert_eq!(mem.remove_file(&path("/nothing")), Ok(()));
}

#[test]
fn move_and_copy_of_a_collection_take_what_lies_below() {
    let mut mem = Memory::new();
    mem.patch_prop(&path("/a/x"), true, prop(None, "p", Some(b"1")))
        .unwrap();
    mem.patch_prop(&path("/a/b/y"), true, prop(None, "q", Some(b"2")))
        .unwrap();
    mem.copy(&path("/a/"), &path("/c/")).unwrap();
    assert_eq!(mem.get_all_props().len(), 4);
    assert_eq!(
        mem.get_prop(&path("/c/b/y"), &prop(None, "q", None)).unwrap(),
        b"2".to_vec()
    );
    mem.rename(&path("/a/"), &path("/z/")).unwrap();
    assert!(mem.get_props(&path("/a/"), true).unwrap().is_empty());
    let keys: Vec<String> = mem.get_all_props().into_iter().map(|(k, _)| k).collect();
    assert_eq!(
        keys,
        vec!["c/x..p", "c/b/y..q", "z/x..p", "z/b/y..q"]
    );
}

#[test]
fn a_taken_key_keeps_its_property_on_move() {
    let mut mem = Memory::new();
    mem.patch_prop(&path("/a"), true, prop(None, "p", Some(b"old")))
        .unwrap();
    mem.patch_prop(&path("/b"), true, prop(None, "p", Some(b"kept")))
        .unwrap();
    mem.rename(&path("/a"), &path("/b")).unwrap();
    assert_eq!(mem.get_all_props().len(), 1);
    assert_eq!(
        mem.get_prop(&path("/b"), &prop(None, "p", None)).unwrap(),
        b"kept".to_vec()
    );
}

#[test]
fn stub_keeps_nothing() {
    let stub = Stub::new();
    let p = prop(None, "p", Some(b"1"));
    assert!(!stub.have_props(&path("/f")));
    assert!(matches!(
        stub.patch_prop(&path("/f"), true, p.clone()),
        Err(FsError::GeneralFailure)
    ));
    assert_eq!(stub.get_prop(&path("/f"), &p), Err(FsError::GeneralFailure));
    assert!(matches!(
        stub.get_props(&path("/f"), true),
        Err(FsError::GeneralFailure)
    ));
    assert_eq!(stub.remove_file(&path("/f")), Err(FsError::GeneralFailure));
    assert_eq!(stub.remove_dir(&path("/f")), Err(FsError::GeneralFailure));
    assert_eq!(stub.rename(&path("/f"), &path("/g")), Err(FsError::GeneralFailure));
    assert_eq!(stub.copy(&path("/f"), &path("/g")), Err(FsError::GeneralFailure));
}

#[test]
fn yaml_records_hold_the_value_in_base64() {
    let mut y = Yaml::new("props.yml".to_string(), None);
    y.patch_prop(&path("/s3/hello.txt"), true, prop(Some("DAV:"), "author", Some(b"<a>Igor</a>")))
        .unwrap();
    y.patch_prop(&path("/s3/hello.txt"), true, prop(None, "bare", None))
        .unwrap();
    let records = y.dump();
    assert_eq!(records.len(), 2);
    assert_eq!(records[0].0, "s3/hello.txt.DAV:.author");
    assert_eq!(records[0].1.name, "author");
    assert_eq!(records[0].1.namespace.as_deref(), Some("DAV:"));
    assert_eq!(records[0].1.value.as_deref(), Some("PGE+SWdvcjwvYT4="));
    assert_eq!(records[1].0, "s3/hello.txt..bare");
    assert!(records[1].1.value.is_none());
}

#[test]
fn yaml_takes_in_what_was_read() {
    let records = vec![
        (
            "s3/hello.txt.DAV:.author".to_string(),
            Prop {
                namespace: Some("DAV:".into()),
                prefix: None,
                value: Some("PGE+SWdvcjwvYT4=".into()),
                name: "author".into(),
            },
        ),
        (
            "s3/broken..odd".to_string(),
            Prop {
                namespace: None,
                prefix: Some("x".into()),
                value: Some("not base64!".into()),
                name: "odd".into(),
            },
        ),
    ];
    let y = Yaml::new("props.yml".to_string(), Some(records));
    assert_eq!(y.filepath, "props.yml");
    let author = prop(Some("DAV:"), "author", None);
    assert_eq!(
        y.get_prop(&path("/s3/hello.txt"), &author).unwrap(),
        b"<a>Igor</a>".to_vec()
    );
    let odd = prop(None, "odd", None);
    assert_eq!(y.get_prop(&path("/s3/broken"), &odd), Err(FsError::NotFound));
    assert_eq!(y.get_props(&path("/s3/"), true).unwrap().len(), 2);
    assert!(y.have_props(&path("/s3/broken")));
}

#[test]
fn yaml_call_fails_where_the_file_could_not_be_written() {
    assert_eq!(Yaml::persisted(Ok(1), true), Ok(1));
    assert_eq!(Yaml::persisted(Ok(1), false), Err(FsError::GeneralFailure));
    assert_eq!(
        Yaml::persisted::<u8>(Err(FsError::NotFound), false),
        Err(FsError::NotFound)
    );
    let mut y = Yaml::new("f".to_string(), None);
    y.patch_prop(&path("/a"), true, prop(None, "p", Some(b"1")))
        .unwrap();
    y.copy(&path("/a"), &path("/b")).unwrap();
    y.rename(&path("/a"), &path("/c")).unwrap();
    assert_eq!(y.dump().len(), 2);
    y.remove_file(&path("/b")).unwrap();
    y.remove_dir(&path("/c")).unwrap();
    assert!(y.dump().is_empty());
}

#[test]
fn yaml_reads_back_what_it_wrote() {
    let mut y = Yaml::new("props.yml".to_string(), None);
    let author = prop(Some("DAV:"), "author", Some(b"<a>Igor</a>"));
    let bare = prop(None, "bare", None);
    y.patch_prop(&path("/s3/hello.txt"), true, author.clone())
        .unwrap();
    y.patch_prop(&path("/s3/hello.txt"), true, bare.clone())
        .unwrap();
    y.patch_prop(&path("/s3/dir/"), true, author.clone())
        .unwrap();
    let again = Yaml::new("props.yml".to_string(), Some(y.dump()));
    assert_eq!(
        again.get_prop(&path("/s3/hello.txt"), &author).unwrap(),
        b"<a>Igor</a>".to_vec()
    );
    assert_eq!(
        again.get_prop(&path("/s3/dir/"), &author).unwrap(),
        b"<a>Igor</a>".to_vec()
    );
    assert_eq!(
        again.get_prop(&path("/s3/hello.txt"), &bare),
        Err(FsError::NotFound)
    );
    assert_eq!(again.get_props(&path("/s3/"), true).unwrap().len(), 3);
    let first: Vec<String> = y.dump().into_iter().map(|r| r.0).collect();
    let second: Vec<String> = again.dump().into_iter().map(|r| r.0).collect();
    assert_eq!(first, second);
}

#[test]
fn kv_frames_the_name_of_a_property() {
    let p = DavProp {
        name: "ab".into(),
        prefix: None,
        namespace: Some("D".into()),
        xml: None,
    };
    assert_eq!(
        Kv::as_key(&p),
        vec![2, 0, 0, 0, 0, 0, 0, 0, b'a', b'b', 0, 1, 1, 0, 0, 0, 0, 0, 0, 0, b'D']
    );
}

#[test]
fn kv_keeps_one_property_for_a_path() {
    let mut kv = Kv::new();
    let author = prop(Some("DAV:"), "author", Some(b"<a>Igor</a>"));
    assert!(!kv.have_props(&path("/s3/hello.txt")));
    assert!(kv.have_props(&path("/s3/")));
    let (code, answer) = kv
        .patch_prop(&path("/s3/hello.txt"), true, author.clone())
        .unwrap();
    assert_eq!(code, 200);
    assert_eq!(answer.xml.as_deref(), Some(&b"<a>Igor</a>"[..]));
    assert!(kv.have_props(&path("/s3/hello.txt")));
    assert_eq!(
        kv.get_prop(&path("/s3/hello.txt"), &author).unwrap(),
        b"<a>Igor</a>".to_vec()
    );
    assert_eq!(
        kv.get_prop(&path("/s3/hello.txt"), &prop(Some("DAV:"), "title", None)),
        Err(FsError::NotFound)
    );
    assert_eq!(
        kv.get_prop(&path("/s3/none"), &author),
        Err(FsError::NotFound)
    );
    let all = kv.get_props(&path("/s3/"), true).unwrap();
    assert_eq!(all.len(), 1);
    assert_eq!(all[0].name, "author");
    assert_eq!(all[0].namespace.as_deref(), Some("DAV:"));
    assert_eq!(all[0].xml.as_deref(), Some(&b"<a>Igor</a>"[..]));
    let bare = kv.get_props(&path("/s3/"), false).unwrap();
    assert!(bare[0].xml.is_none());
}

#[test]
fn kv_properties_follow_moves_and_removals() {
    let mut kv = Kv::new();
    let author = prop(Some("DAV:"), "author", Some(b"x"));
    kv.patch_prop(&path("/a"), true, author.clone()).unwrap();
    assert_eq!(kv.copy(&path("/a"), &path("/b")), Ok(()));
    assert_eq!(kv.get_prop(&path("/b"), &author).unwrap(), b"x".to_vec());
    assert_eq!(kv.rename(&path("/b"), &path("/c")), Ok(()));
    assert_eq!(kv.get_prop(&path("/b"), &author), Err(FsError::NotFound));
    assert_eq!(kv.get_prop(&path("/c"), &author).unwrap(), b"x".to_vec());
    assert_eq!(kv.rename(&path("/zz"), &path("/c")), Err(FsError::NotFound));
    assert_eq!(kv.copy(&path("/zz"), &path("/c")), Err(FsError::NotFound));
    assert_eq!(kv.remove_file(&path("/c")), Ok(()));
    assert!(!kv.have_props(&path("/c")));
    assert_eq!(kv.remove_file(&path("/c")), Ok(()));

    kv.patch_prop(&path("/d/x"), true, prop(None, "one", Some(b"1")))
        .unwrap();
    kv.patch_prop(&path("/d/y"), true, prop(None, "two", Some(b"2")))
        .unwrap();
    kv.patch_prop(&path("/e"), true, prop(None, "three", Some(b"3")))
        .unwrap();
    assert_eq!(kv.remove_dir(&path("/d/")), Ok(()));
    assert!(kv.get_props(&path("/d/"), true).unwrap().is_empty());
    assert_eq!(kv.get_props(&path("/e"), true).unwrap().len(), 1);
    kv.patch_prop(&path("/e"), false, prop(None, "three", None))
        .unwrap();
    assert!(!kv.have_props(&path("/e")));
}

#[test]
fn kv_buckets_can_be_kept_and_taken_up_again() {
    let mut kv = Kv::new();
    let author = prop(Some("DAV:"), "author", Some(b"<a>Igor</a>"));
    kv.patch_prop(&path("/s3/hello.txt"), true, author.clone())
        .unwrap();
    let values = kv.values();
    let existence = kv.existence();
    assert_eq!(values.len(), 1);
    assert_eq!(values[0].0, Kv::as_key(&author));
    assert_eq!(existence.len(), 1);
    assert_eq!(existence[0].0, b"s3/hello.txt".to_vec());
    assert_eq!(existence[0].1, Kv::as_key(&author));

    let again = Kv::with_buckets(values, existence);
    assert!(again.have_props(&path("/s3/hello.txt")));
    assert_eq!(
        again.get_prop(&path("/s3/hello.txt"), &author).unwrap(),
        b"<a>Igor</a>".to_vec()
    );
    let empty = Kv::with_buckets(vec![], vec![]);
    assert!(!empty.have_props(&path("/s3/hello.txt")));
}
