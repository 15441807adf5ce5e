use webdav_ss::aggregate::{
    merge_entries, Aggregate, AggregateBuilder, AggregateEntry, AggregateError, MetadataPlan,
};
use webdav_ss::error::FsError;
use webdav_ss::percent::{percent_decode, percent_encode};
use webdav_ss::prop_storages::mem::Memory;
use webdav_ss::prop_storages::props::DavProp;
use webdav_ss::prop_storages::store::PropStore;
use webdav_ss::prop_storages::stub::Stub;
use webdav_ss::s3_backend::metadata::UnixTime;

/// A request path as the handler holds it: decoded, a slash at the end
/// set aside.
fn helper_path(s: &str) -> Vec<u8> {
    let mut bytes = percent_decode(s);
    if bytes.len() > 1 && bytes.ends_with(b"/") {
        bytes.pop();
    }
    bytes
}

fn decoded(s: &str) -> String {
    String::from_utf8(percent_decode(s)).unwrap()
}

fn table() -> Aggregate<u8> {
    AggregateBuilder::new().build().unwrap()
}

fn prop(name: &str, xml: &[u8]) -> DavProp {
    DavProp {
        name: name.to_string(),
        prefix: None,
        namespace: Some("DAV:".to_string()),
        xml: Some(xml.to_vec()),
    }
}

#[test]
fn check_find_route() {
    let mut fs = table();
    fs.add_route("/tmp/fs/fs1", 1).unwrap();
    fs.add_route("/tmp/fs1", 2).unwrap();

    let f = fs.find_route(&decoded("/tmp/fs/fs1")).unwrap();
    assert_eq!(helper_path(&f.path), helper_path("/"));

    let f = fs.find_route(&decoded("/tmp/fs1")).unwrap();
    assert_eq!(helper_path(&f.path), helper_path("/"));

    let f = fs.find_route(&decoded("/tmp/fs1/fs1")).unwrap();
    assert_eq!(helper_path(&f.path), helper_path("/fs1"));

    let f = fs.find_route(&decoded("/tmp/fs1/res-%e2%82%ac")).unwrap();
    assert_eq!(helper_path(&f.path), helper_path("/res-%e2%82%ac"));

    let f = fs.find_route(&decoded("/tmp/fs1/one/two")).unwrap();
    assert_eq!(helper_path(&f.path), helper_path("/one/two"));

    let f = fs.find_route(&decoded("/tmp/fs1/one/two.txt")).unwrap();
    assert_eq!(helper_path(&f.path), helper_path("/one/two.txt"));

    let f = fs.find_route(&decoded("/tmp/fs1/one/")).unwrap();
    assert_eq!(helper_path(&f.path), helper_path("/one/"));

    assert!(fs.find_route(&decoded("/not_exist")).is_err());
}

#[test]
fn check_find_level() {
    let mut fs = table();
    let _ = fs.add_route("/fs1", 1);
    let _ = fs.add_route("/fs2", 2);
    let _ = fs.add_route("/tmp/fs1", 3);
    let _ = fs.add_route("/tmp/fs2", 4);
    let _ = fs.add_route("/tmp/tmp/fs2", 5);
    let _ = fs.add_route("/tmp/tmp/tmp/fs2", 6);

    assert_eq!(fs.find_routes_at_level("/").unwrap().len(), 3);
    assert_eq!(fs.find_routes_at_level("/fs1/").unwrap().len(), 0);
    assert_eq!(fs.find_routes_at_level("/tmp/").unwrap().len(), 3);
    assert_eq!(fs.find_routes_at_level("/tmp/tmp/").unwrap().len(), 2);
    assert_eq!(fs.find_routes_at_level("/tmp/tmp/tmp/").unwrap().len(), 1);
}

#[test]
fn route_goes_to_the_deepest_mount() {
    let mut fs = table();
    fs.add_route("/x", 10).unwrap();
    fs.add_route("/x/y", 20).unwrap();

    let r = fs.find_route("/x/y/z").unwrap();
    assert_eq!(*fs.backend(r.backend), 20);
    assert_eq!(r.path, "/z");

    let r = fs.find_route("/x/w").unwrap();
    assert_eq!(*fs.backend(r.backend), 10);
    assert_eq!(r.path, "/w");

    let r = fs.find_route("/x/y/").unwrap();
    assert_eq!(*fs.backend(r.backend), 20);
    assert_eq!(r.path, "/");

    assert_eq!(fs.find_route("/xy").unwrap_err(), FsError::NotFound);
    assert_eq!(fs.find_route("/").unwrap_err(), FsError::NotFound);
}

#[test]
fn route_keeps_the_kind_and_encodes_the_rest() {
    let mut fs = table();
    fs.add_route("/", 1).unwrap();
    assert_eq!(fs.find_route("/a b/c.txt").unwrap().path, "/a%20b/c.txt");
    assert_eq!(fs.find_route("/dir/").unwrap().path, "/dir/");
    assert_eq!(fs.find_route("/res-\u{20ac}").unwrap().path, "/res%2D%E2%82%AC");
    assert_eq!(fs.find_route("/q\"x").unwrap().path, "/q\"x");
    assert_eq!(fs.find_route("/").unwrap().path, "/");
}

#[test]
fn percent_encoding_keeps_letters_digits_and_three_marks() {
    assert_eq!(percent_encode("aZ09./\""), "aZ09./\"");
    assert_eq!(percent_encode(" -_~%"), "%20%2D%5F%7E%25");
    assert_eq!(percent_encode("\u{20ac}"), "%E2%82%AC");
    assert_eq!(percent_encode(""), "");
}

#[test]
fn percent_decoding_reads_both_cases_and_leaves_the_rest() {
    assert_eq!(percent_decode("%e2%82%AC"), vec![0xe2, 0x82, 0xac]);
    assert_eq!(percent_decode("a%20b"), b"a b".to_vec());
    assert_eq!(percent_decode("100%"), b"100%".to_vec());
    assert_eq!(percent_decode("%zz%4"), b"%zz%4".to_vec());
    assert_eq!(percent_decode(""), Vec::<u8>::new());
}

#[test]
fn mounts_below_a_level_are_listed_as_collections() {
    let mut fs = table();
    fs.add_route("/a/b", 1).unwrap();
    fs.add_route("/a/c", 2).unwrap();

    let listing = fs.read_dir("/a/").unwrap();
    assert!(listing.route.is_none());
    let names: Vec<Vec<u8>> = listing.mounts.iter().map(|m| m.name()).collect();
    assert_eq!(names, vec![b"b/".to_vec(), b"c/".to_vec()]);
    for m in &listing.mounts {
        assert!(m.metadata().is_dir());
        assert_eq!(m.metadata().len(), 4096);
    }

    let listing = fs.read_dir("/").unwrap();
    let names: Vec<Vec<u8>> = listing.mounts.iter().map(|m| m.name()).collect();
    assert_eq!(names, vec![b"a/".to_vec()]);
}

#[test]
fn two_mounts_at_the_root_make_up_its_listing() {
    let mut fs = table();
    fs.add_route("/s3", 1).unwrap();
    fs.add_route("/mem", 2).unwrap();

    let listing = fs.read_dir("/").unwrap();
    assert!(listing.route.is_none());
    let all = merge_entries::<u32>(Err(FsError::NotFound), listing.mounts);
    let mut names = vec![];
    for e in &all {
        match e {
            AggregateEntry::Mount(m) => names.push(String::from_utf8(m.name()).unwrap()),
            AggregateEntry::Backend(_) => panic!("no backend serves the root"),
        }
    }
    assert_eq!(names, vec!["s3/", "mem/"]);
}

#[test]
fn backend_entries_come_before_mounts() {
    let mut fs = table();
    fs.add_route("/", 1).unwrap();
    fs.add_route("/mem", 2).unwrap();
    let listing = fs.read_dir("/").unwrap();
    assert_eq!(listing.route.as_ref().unwrap().path, "/");
    let all = merge_entries(Ok(vec![7u32, 8u32]), listing.mounts);
    assert_eq!(all.len(), 3);
    assert!(matches!(all[0], AggregateEntry::Backend(7)));
    assert!(matches!(all[1], AggregateEntry::Backend(8)));
    assert!(matches!(all[2], AggregateEntry::Mount(_)));
}

#[test]
fn listing_of_a_resource_shows_the_level_that_holds_it() {
    let mut fs = table();
    fs.add_route("/tmp/fs1", 1).unwrap();
    fs.add_route("/top", 2).unwrap();
    assert_eq!(
        fs.find_routes_at_level("/tmp/file").unwrap(),
        vec!["/tmp/fs1".to_string()]
    );
    assert_eq!(
        fs.find_routes_at_level("/file").unwrap(),
        vec!["/tmp".to_string(), "/top".to_string()]
    );
}

#[test]
fn a_prefix_is_mounted_once() {
    let mut fs = table();
    assert_eq!(fs.add_route("/s3", 1), Ok(()));
    assert_eq!(fs.add_route("/s3", 2), Err(AggregateError::RouteExists));
    assert_eq!(fs.len(), 1);
    assert_eq!(*fs.backend(0), 1);

    let built = AggregateBuilder::new()
        .add_route("/a", 1u8)
        .add_route("/b", 2u8)
        .add_route("/a", 3u8)
        .build();
    assert!(matches!(built, Err(AggregateError::RouteExists)));

    let built = AggregateBuilder::new()
        .add_route("/a", 1u8)
        .add_route("/b", 2u8)
        .set_props_storage(PropStore::Stub(Stub::new()))
        .build()
        .unwrap();
    assert_eq!(built.len(), 2);
}

#[test]
fn root_has_the_record_of_a_virtual_collection() {
    let mut fs = table();
    fs.add_route("/s3", 1).unwrap();
    let now = UnixTime { secs: 1700000000, nanos: 5 };
    match fs.metadata("/").unwrap() {
        MetadataPlan::Virtual(m) => {
            assert!(m.is_dir());
            assert_eq!(m.len(), 4096);
            assert_eq!(m.modified(now), Ok(now));
            assert_eq!(m.created(now), Ok(now));
        }
        MetadataPlan::Route(_) => panic!("the root is virtual"),
    }
    match fs.metadata("/s3/file").unwrap() {
        MetadataPlan::Route(r) => assert_eq!(r.path, "/file"),
        MetadataPlan::Virtual(_) => panic!("not the root"),
    }
    assert!(matches!(fs.metadata("/other"), Err(FsError::NotFound)));
}

#[test]
fn transfers_use_the_backend_of_the_source() {
    let mut fs = table();
    fs.add_route("/a", 1).unwrap();
    fs.add_route("/b", 2).unwrap();
    let t = fs.rename("/a/x.txt", "/b/y.txt").unwrap();
    assert_eq!(*fs.backend(t.backend), 1);
    assert_eq!(t.from, "/x.txt");
    assert_eq!(t.to, "/y.txt");
    let t = fs.copy("/b/x/", "/a/y/").unwrap();
    assert_eq!(*fs.backend(t.backend), 2);
    assert_eq!(t.from, "/x/");
    assert_eq!(t.to, "/y/");
    assert!(matches!(fs.rename("/c/x", "/a/x"), Err(FsError::NotFound)));
    assert!(matches!(fs.copy("/a/x", "/c/x"), Err(FsError::NotFound)));
    assert_eq!(fs.open("/a/f").unwrap().path, "/f");
    assert_eq!(fs.create_dir("/a/d/").unwrap().path, "/d/");
    assert_eq!(fs.remove_file("/a/f").unwrap().path, "/f");
    assert_eq!(fs.remove_dir("/a/d/").unwrap().path, "/d/");
}

#[test]
fn properties_are_kept_and_follow_their_paths() {
    let mut fs = table();
    fs.add_route("/s3", 1).unwrap();
    let author = prop("author", b"<a>Igor</a>");

    assert!(!fs.have_props("/s3/hello.txt"));
    let answers = fs
        .patch_props("/s3/hello.txt", vec![(true, author.clone())])
        .unwrap();
    assert_eq!(answers.len(), 1);
    assert_eq!(answers[0].0, 200);
    assert_eq!(answers[0].1.name, "author");
    assert!(answers[0].1.xml.is_none());
    assert!(fs.have_props("/s3/hello.txt"));
    assert_eq!(
        fs.get_prop("/s3/hello.txt", &author).unwrap(),
        b"<a>Igor</a>".to_vec()
    );
    let listed = fs.get_props("/s3/hello.txt", true).unwrap();
    assert_eq!(listed.len(), 1);
    assert_eq!(listed[0].xml.as_deref(), Some(&b"<a>Igor</a>"[..]));

    assert_eq!(fs.renamed("/s3/hello.txt", "/s3/bye.txt", Ok(())), Ok(()));
    assert!(fs.get_prop("/s3/hello.txt", &author).is_err());
    assert_eq!(
        fs.get_prop("/s3/bye.txt", &author).unwrap(),
        b"<a>Igor</a>".to_vec()
    );
    assert_eq!(fs.copied("/s3/bye.txt", "/s3/twin.txt", Ok(())), Ok(()));
    assert!(fs.get_prop("/s3/twin.txt", &author).is_ok());
    assert!(fs.get_prop("/s3/bye.txt", &author).is_ok());

    assert_eq!(fs.removed_file("/s3/bye.txt", Ok(())), Ok(()));
    assert!(fs.get_props("/s3/bye.txt", true).unwrap().is_empty());
    assert_eq!(
        fs.get_prop("/s3/bye.txt", &author).unwrap_err(),
        FsError::NotFound
    );
    assert_eq!(fs.removed_dir("/s3/", Ok(())), Ok(()));
    assert!(!fs.have_props("/s3/twin.txt"));
}

#[test]
fn first_error_of_backend_and_properties_counts() {
    let mut fs: Aggregate<u8> = Aggregate::new(PropStore::Memory(Memory::new()));
    fs.add_route("/s3", 1).unwrap();
    fs.patch_props("/s3/f", vec![(true, prop("p", b"x"))])
        .unwrap();
    assert_eq!(
        fs.removed_file("/s3/f", Err(FsError::Forbidden)),
        Err(FsError::Forbidden)
    );
    assert!(!fs.have_props("/s3/f"));

    let mut stub: Aggregate<u8> = Aggregate::new(PropStore::Stub(Stub::new()));
    stub.add_route("/s3", 1).unwrap();
    assert_eq!(
        stub.removed_file("/s3/f", Ok(())),
        Err(FsError::GeneralFailure)
    );
    assert_eq!(
        stub.renamed("/s3/f", "/s3/g", Err(FsError::NotFound)),
        Err(FsError::NotFound)
    );
    assert_eq!(
        stub.patch_props("/s3/f", vec![(true, prop("p", b"x"))])
            .unwrap_err(),
        FsError::GeneralFailure
    );
    assert_eq!(stub.patch_props("/s3/f", vec![]).unwrap().len(), 0);
    assert!(!stub.have_props("/s3/f"));
    assert_eq!(
        stub.get_props("/s3/f", true).unwrap_err(),
        FsError::GeneralFailure
    );
}

#[test]
fn decoding_undoes_encoding() {
    let all: Vec<u8> = (0..=255).collect();
    let text = webdav_ss::percent::encode_bytes(&all);
    assert!(text.is_ascii());
    assert_eq!(percent_decode(&text), all);
    assert_eq!(percent_decode(&percent_encode("a b/\u{20ac}%41")), "a b/\u{20ac}%41".as_bytes());
}

#[test]
fn built_table_holds_each_backend_at_its_prefix() {
    let built = AggregateBuilder::new()
        .add_route("/x", 10)
        .add_route("/x/y", 20)
        .add_route("/mem", 30)
        .build()
        .unwrap();
    assert_eq!(built.len(), 3);
    assert_eq!(*built.backend(0), 10);
    assert_eq!(*built.backend(1), 20);
    assert_eq!(*built.backend(2), 30);
    let r = built.find_route("/x/y/z").unwrap();
    assert_eq!((*built.backend(r.backend), r.path.as_str()), (20, "/z"));
    let r = built.find_route("/x/w").unwrap();
    assert_eq!((*built.backend(r.backend), r.path.as_str()), (10, "/w"));
    let r = built.find_route("/mem/f").unwrap();
    assert_eq!((*built.backend(r.backend), r.path.as_str()), (30, "/f"));

    let mut later = AggregateBuilder::new().build().unwrap();
    assert_eq!(later.len(), 0);
    later.add_route("/x", 1).unwrap();
    later.add_route("/x/y", 2).unwrap();
    let r = later.find_route("/x/y/z").unwrap();
    assert_eq!((*later.backend(r.backend), r.path.as_str()), (2, "/z"));
    let r = later.find_route("/x/w").unwrap();
    assert_eq!((*later.backend(r.backend), r.path.as_str()), (1, "/w"));
}
