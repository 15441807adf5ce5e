use std::collections::BTreeMap;
use webdav_ss::configuration::{Filesystem, S3Authentication};
use webdav_ss::error::FsError;
use webdav_ss::normalized_path::NormalizedPath;
use webdav_ss::s3_backend::bootstrap::{Bootstrap, BootstrapError, BootstrapStep, S3Backend};
use webdav_ss::s3_backend::filesystem::{Event, Op, Outcome, S3File, Step};
use webdav_ss::s3_backend::metadata::{S3MetaData, UnixTime};
use webdav_ss::s3_backend::partial_open_file::PartialOpenFile;
use webdav_ss::s3_backend::protocol::{Reply, Request};
use webdav_ss::s3_backend::simple_open_file::{
    FileStep, OpenOptions, S3SimpleOpenFile, SeekFrom,
};
use webdav_ss::serde_types::{CommonPrefix, HeadObjectResult, ListBucketResult, Object};

/// An object store in memory that answers as the real one does.
struct Store {
    objects: BTreeMap<String, Vec<u8>>,
    uploads: BTreeMap<String, (String, BTreeMap<u32, Vec<u8>>)>,
    started: u32,
    log: Vec<String>,
    broken: bool,
}

impl Store {
    fn new() -> Store {
        Store {
            objects: BTreeMap::new(),
            uploads: BTreeMap::new(),
            started: 0,
            log: vec![],
            broken: false,
        }
    }

    fn page(&self, prefix: &str) -> ListBucketResult {
        let mut prefixes: Vec<String> = vec![];
        let mut contents = vec![];
        for (key, body) in &self.objects {
            if let Some(rest) = key.strip_prefix(prefix) {
                match rest.find('/') {
                    Some(i) => {
                        let p = format!("{}{}", prefix, &rest[..i + 1]);
                        if !prefixes.contains(&p) {
                            prefixes.push(p);
                        }
                    }
                    None => contents.push(Object {
                        last_modified: String::new(),
                        e_tag: String::new(),
                        storage_class: "STANDARD".to_string(),
                        key: key.clone(),
                        owner: None,
                        size: body.len() as u64,
                    }),
                }
            }
        }
        ListBucketResult {
            name: "t".to_string(),
            next_marker: None,
            delimiter: Some("/".to_string()),
            max_keys: 1000,
            prefix: prefix.to_string(),
            marker: None,
            encoding_type: None,
            is_truncated: false,
            next_continuation_token: None,
            contents,
            common_prefixes: prefixes
                .into_iter()
                .map(|prefix| CommonPrefix { prefix })
                .collect(),
        }
    }

    fn respond(&mut self, request: Request) -> Reply {
        if self.broken {
            return Reply::Failed;
        }
        match request {
            Request::HeadObject { key } => {
                self.log.push(format!("HEAD {}", key));
                match self.objects.get(&key) {
                    Some(body) => Reply::Head {
                        code: 200,
                        head: HeadObjectResult {
                            content_length: Some(body.len() as i64),
                            e_tag: Some("\"etag\"".to_string()),
                            last_modified: Some("Wed, 21 Oct 2015 07:28:00 GMT".to_string()),
                            ..HeadObjectResult::default()
                        },
                    },
                    None => Reply::Head {
                        code: 404,
                        head: HeadObjectResult::default(),
                    },
                }
            }
            Request::GetObject { key } => {
                self.log.push(format!("GET {}", key));
                match self.objects.get(&key) {
                    Some(body) => Reply::Body {
                        code: 200,
                        data: body.clone(),
                    },
                    None => Reply::Body {
                        code: 404,
                        data: vec![],
                    },
                }
            }
            Request::PutObject { key, body } => {
                self.log.push(format!("PUT {}", key));
                self.objects.insert(key, body);
                Reply::Status { code: 200 }
            }
            Request::DeleteObject { key } => {
                self.log.push(format!("DELETE {}", key));
                self.objects.remove(&key);
                Reply::Status { code: 204 }
            }
            Request::CopyObject { from, to } => {
                self.log.push(format!("COPY {} {}", from, to));
                match self.objects.get(&from).cloned() {
                    Some(body) => {
                        self.objects.insert(to, body);
                        Reply::Status { code: 200 }
                    }
                    None => Reply::Status { code: 404 },
                }
            }
            Request::List { prefix, delimiter } => {
                self.log.push(format!("LIST {} {}", prefix, delimiter));
                Reply::Listing {
                    pages: vec![self.page(&prefix)],
                }
            }
            Request::PutObjectTagging { key, tags } => {
                self.log.push(format!("TAG {} {}", key, tags.len()));
                if self.objects.contains_key(&key) {
                    Reply::Status { code: 200 }
                } else {
                    Reply::Status { code: 404 }
                }
            }
            Request::CreateMultipartUpload { key } => {
                self.log.push(format!("START {}", key));
                let id = format!("upload-{}", self.started);
                self.started += 1;
                self.uploads.insert(id.clone(), (key, BTreeMap::new()));
                Reply::Initiated {
                    code: 200,
                    upload_id: id,
                }
            }
            Request::UploadPart {
                key,
                upload_id,
                part_number,
                body,
            } => {
                self.log
                    .push(format!("PART {} {} {}", key, part_number, body.len()));
                match self.uploads.get_mut(&upload_id) {
                    Some(upload) if upload.0 == key => {
                        upload.1.insert(part_number, body);
                        Reply::PartStored {
                            code: 200,
                            etag: format!("etag-{}", part_number),
                        }
                    }
                    _ => Reply::PartStored {
                        code: 404,
                        etag: String::new(),
                    },
                }
            }
            Request::CompleteMultipartUpload {
                key,
                upload_id,
                parts,
            } => {
                self.log.push(format!("COMPLETE {} {}", key, parts.len()));
                match self.uploads.remove(&upload_id) {
                    Some((k, stored)) if k == key => {
                        let mut body = vec![];
                        for (i, p) in parts.iter().enumerate() {
                            assert_eq!(p.part_number as usize, i + 1);
                            assert_eq!(p.etag, format!("etag-{}", p.part_number));
                            body.extend_from_slice(&stored[&p.part_number]);
                        }
                        self.objects.insert(key, body);
                        Reply::Status { code: 200 }
                    }
                    _ => Reply::Status { code: 400 },
                }
            }
            Request::AbortMultipartUpload { key, upload_id } => {
                self.log.push(format!("ABORT {}", key));
                self.uploads.remove(&upload_id);
                Reply::Status { code: 204 }
            }
            Request::CreateBucket => {
                self.log.push("CREATE".to_string());
                Reply::Status { code: 409 }
            }
        }
    }
}

fn now() -> UnixTime {
    UnixTime {
        secs: 1700000000,
        nanos: 0,
    }
}

fn run(store: &mut Store, op: Op) -> Outcome {
    let mut step = op.step(Event::Start, now());
    loop {
        step = match step {
            Step::Done(outcome) => return outcome,
            Step::Send(op, request) => {
                let reply = store.respond(request);
                op.step(Event::Reply(reply), now())
            }
            Step::Call(parent, child) => {
                let outcome = run(store, child);
                parent.step(Event::Returned(outcome), now())
            }
        };
    }
}

fn backend() -> S3Backend {
    let (backend, _) = S3Backend::new(Filesystem::S3 {
        bucket: "t".into(),
        region: "us-east-1".into(),
        url: "http://localhost:9000".into(),
        path_style: true,
        ensure_bucket: true,
        auth: S3Authentication::default(),
    })
    .unwrap();
    backend
}

fn path(s: &str) -> NormalizedPath {
    NormalizedPath::from(s)
}

fn unit(o: Outcome) -> Result<(), FsError> {
    match o {
        Outcome::Unit(r) => r,
        other => panic!("not a plain result: {:?}", other),
    }
}

fn meta(o: Outcome) -> Result<S3MetaData, FsError> {
    match o {
        Outcome::Meta(r) => r,
        other => panic!("not a record: {:?}", other),
    }
}

fn names(o: Outcome) -> Result<Vec<(String, bool)>, FsError> {
    match o {
        Outcome::Entries(r) => r.map(|es| {
            es.into_iter()
                .map(|e| (String::from_utf8(e.name()).unwrap(), e.is_dir()))
                .collect()
        }),
        other => panic!("not a listing: {:?}", other),
    }
}

fn file(o: Outcome) -> Result<S3File, FsError> {
    match o {
        Outcome::File(r) => r,
        other => panic!("not a file: {:?}", other),
    }
}

fn writing() -> OpenOptions {
    OpenOptions {
        write: true,
        create: true,
        truncate: true,
        ..OpenOptions::new()
    }
}

fn reading() -> OpenOptions {
    OpenOptions {
        read: true,
        ..OpenOptions::new()
    }
}

fn drive(store: &mut Store, file: &mut PartialOpenFile, mut step: FileStep) -> Result<(), FsError> {
    loop {
        step = match step {
            FileStep::Done(r) => return r,
            FileStep::Send(request) => {
                let reply = store.respond(request);
                file.resume(reply, now())
            }
        };
    }
}

fn drive_simple(store: &mut Store, file: &mut S3SimpleOpenFile, mut step: FileStep) -> Result<(), FsError> {
    loop {
        step = match step {
            FileStep::Done(r) => return r,
            FileStep::Send(request) => {
                let reply = store.respond(request);
                file.resume(reply)
            }
        };
    }
}

fn multipart(store: &mut Store, p: &str) -> PartialOpenFile {
    match file(run(store, backend().open(path(p), writing()))).unwrap() {
        S3File::Multipart(f) => f,
        S3File::Simple(_) => panic!("a file to create is written in parts"),
    }
}

fn simple(store: &mut Store, p: &str, options: OpenOptions) -> S3SimpleOpenFile {
    match file(run(store, backend().open(path(p), options))).unwrap() {
        S3File::Simple(f) => f,
        S3File::Multipart(_) => panic!("a file to read is held in memory"),
    }
}

fn put(store: &mut Store, p: &str, body: &[u8]) {
    let mut f = multipart(store, p);
    let step = f.write_bytes(body);
    drive(store, &mut f, step).unwrap();
    let step = f.flush();
    drive(store, &mut f, step).unwrap();
}

fn get(store: &mut Store, p: &str) -> Vec<u8> {
    let mut f = simple(store, p, reading());
    let n = f.metadata().len() as usize;
    f.read_bytes(n).unwrap()
}

#[test]
fn written_bytes_are_read_back() {
    let mut store = Store::new();
    put(&mut store, "/hello.txt", b"Hello, world!");
    assert_eq!(store.objects["hello.txt"], b"Hello, world!".to_vec());
    let m = meta(run(&mut store, backend().metadata(path("/hello.txt")))).unwrap();
    assert_eq!(m.len(), 13);
    assert!(m.is_file());
    assert_eq!(get(&mut store, "/hello.txt"), b"Hello, world!".to_vec());

    put(&mut store, "/empty", b"");
    assert_eq!(get(&mut store, "/empty"), Vec::<u8>::new());
}

#[test]
fn created_collection_is_marked_found_and_listed() {
    let mut store = Store::new();
    assert_eq!(unit(run(&mut store, backend().create_dir(path("/dir/")))), Ok(()));
    assert_eq!(store.objects["dir/.dir"], Vec::<u8>::new());
    let m = meta(run(&mut store, backend().metadata(path("/dir/")))).unwrap();
    assert!(m.is_dir());
    assert_eq!(m.len(), 0);
    put(&mut store, "/file.txt", b"x");
    let listed = names(run(&mut store, backend().read_dir(path("/")))).unwrap();
    assert_eq!(
        listed,
        vec![("dir/".to_string(), true), ("file.txt".to_string(), false)]
    );
    assert!(listed.iter().all(|(name, _)| name != ".dir"));
    let inside = names(run(&mut store, backend().read_dir(path("/dir/")))).unwrap();
    assert!(inside.is_empty());
}

#[test]
fn collection_wins_where_both_objects_exist() {
    let mut store = Store::new();
    store.objects.insert("p".into(), b"data".to_vec());
    store.objects.insert("p/.dir".into(), vec![]);
    let m = meta(run(&mut store, backend().metadata(path("/p")))).unwrap();
    assert!(m.is_dir());
    assert_eq!(store.log, vec!["HEAD p/.dir"]);
    assert_eq!(
        meta(run(&mut store, backend().metadata(path("/q")))).unwrap_err(),
        FsError::NotFound
    );
    let root = meta(run(&mut store, backend().metadata(path("/")))).unwrap();
    assert!(root.is_dir());
    assert_eq!(root.len(), 0);
}

#[test]
fn record_is_made_from_the_head_reply() {
    let mut store = Store::new();
    store.objects.insert("f".into(), b"12345".to_vec());
    let m = meta(run(&mut store, backend().metadata(path("/f")))).unwrap();
    assert_eq!(m.path, "f");
    assert_eq!(m.len, 5);
    assert_eq!(m.modified(), UnixTime { secs: 1445412480, nanos: 0 });
    assert_eq!(m.created(), now());
    assert!(!m.executable());
    assert_eq!(m.etag, Some("\"etag\"".to_string()));
    assert_eq!(m.etag(), Some("5-52298516ca000".to_string()));
}

#[test]
fn creation_of_a_collection_checks_what_is_there() {
    let mut store = Store::new();
    assert_eq!(unit(run(&mut store, backend().create_dir(path("/")))), Ok(()));
    assert!(store.log.is_empty());
    assert_eq!(unit(run(&mut store, backend().create_dir(path("/d/")))), Ok(()));
    assert_eq!(
        unit(run(&mut store, backend().create_dir(path("/d/")))),
        Err(FsError::Exists)
    );
    assert_eq!(
        unit(run(&mut store, backend().create_dir(path("/missing/sub/")))),
        Err(FsError::NotFound)
    );
    store.objects.insert("file".into(), b"x".to_vec());
    assert_eq!(
        unit(run(&mut store, backend().create_dir(path("/file/sub/")))),
        Err(FsError::Forbidden)
    );
    assert_eq!(unit(run(&mut store, backend().create_dir(path("/d/e/")))), Ok(()));
    assert!(store.objects.contains_key("d/e/.dir"));
}

#[test]
fn removal_checks_the_kind() {
    let mut store = Store::new();
    store.objects.insert("d/.dir".into(), vec![]);
    store.objects.insert("d/f".into(), b"x".to_vec());
    assert_eq!(
        unit(run(&mut store, backend().remove_file(path("/d/")))),
        Err(FsError::Forbidden)
    );
    assert_eq!(
        unit(run(&mut store, backend().remove_dir(path("/d/f")))),
        Err(FsError::Forbidden)
    );
    assert_eq!(
        unit(run(&mut store, backend().remove_file(path("/nothing")))),
        Err(FsError::NotFound)
    );
    assert_eq!(unit(run(&mut store, backend().remove_dir(path("/d/")))), Ok(()));
    // only the marker goes; what lies below stays
    assert!(!store.objects.contains_key("d/.dir"));
    assert!(store.objects.contains_key("d/f"));
    assert_eq!(unit(run(&mut store, backend().remove_file(path("/d/f")))), Ok(()));
    assert!(store.objects.is_empty());
}

#[test]
fn listing_needs_a_collection() {
    let mut store = Store::new();
    store.objects.insert("f".into(), b"x".to_vec());
    assert_eq!(
        names(run(&mut store, backend().read_dir(path("/f")))).unwrap_err(),
        FsError::Forbidden
    );
    assert_eq!(
        names(run(&mut store, backend().read_dir(path("/none/")))).unwrap_err(),
        FsError::NotFound
    );
}

#[test]
fn copy_creates_the_collection_above_and_copies_markers() {
    let mut store = Store::new();
    store.objects.insert("a".into(), b"body".to_vec());
    assert_eq!(
        unit(run(&mut store, backend().copy(path("/a"), path("/new/b")))),
        Ok(())
    );
    assert_eq!(store.objects["new/b"], b"body".to_vec());
    assert!(store.objects.contains_key("new/.dir"));

    // a resource copied onto a collection takes its name as a resource
    assert_eq!(
        unit(run(&mut store, backend().copy(path("/a"), path("/c/")))),
        Ok(())
    );
    assert_eq!(store.objects["c"], b"body".to_vec());

    // a collection is copied by its marker
    assert_eq!(
        unit(run(&mut store, backend().copy(path("/new/"), path("/twin/")))),
        Ok(())
    );
    assert!(store.objects.contains_key("twin/.dir"));

    assert_eq!(
        unit(run(&mut store, backend().copy(path("/nothing"), path("/x")))),
        Err(FsError::GeneralFailure)
    );
}

#[test]
fn moved_resource_leaves_its_place() {
    let mut store = Store::new();
    store.objects.insert("a.txt".into(), b"body".to_vec());
    assert_eq!(
        unit(run(&mut store, backend().rename(path("/a.txt"), path("/b.txt")))),
        Ok(())
    );
    assert!(!store.objects.contains_key("a.txt"));
    assert_eq!(store.objects["b.txt"], b"body".to_vec());
    assert_eq!(
        meta(run(&mut store, backend().metadata(path("/a.txt")))).unwrap_err(),
        FsError::NotFound
    );
    assert_eq!(
        unit(run(&mut store, backend().rename(path("/a.txt"), path("/c.txt")))),
        Err(FsError::GeneralFailure)
    );
}

#[test]
fn moved_collection_takes_all_that_lies_below() {
    let mut store = Store::new();
    store.objects.insert("a/.dir".into(), vec![]);
    store.objects.insert("a/x.txt".into(), b"x body".to_vec());
    store.objects.insert("a/b/.dir".into(), vec![]);
    store.objects.insert("a/b/y.txt".into(), b"y body".to_vec());
    store.objects.insert("a/b/c/.dir".into(), vec![]);
    assert_eq!(
        unit(run(&mut store, backend().rename(path("/a/"), path("/z/")))),
        Ok(())
    );
    let keys: Vec<&str> = store.objects.keys().map(|k| k.as_str()).collect();
    assert_eq!(
        keys,
        vec!["z/.dir", "z/b/.dir", "z/b/c/.dir", "z/b/y.txt", "z/x.txt"]
    );
    for gone in ["/a/", "/a/x.txt", "/a/b/", "/a/b/y.txt", "/a/b/c/"] {
        assert_eq!(
            meta(run(&mut store, backend().metadata(path(gone)))).unwrap_err(),
            FsError::NotFound
        );
    }
    assert_eq!(get(&mut store, "/z/x.txt"), b"x body".to_vec());
    let y = meta(run(&mut store, backend().metadata(path("/z/b/y.txt")))).unwrap();
    assert!(y.is_file());
    assert_eq!(y.len(), 6);
    assert!(meta(run(&mut store, backend().metadata(path("/z/b/c/"))))
        .unwrap()
        .is_dir());
}

#[test]
fn moved_collection_replaces_a_resource_in_its_way() {
    let mut store = Store::new();
    store.objects.insert("a/.dir".into(), vec![]);
    store.objects.insert("a/f".into(), b"1".to_vec());
    store.objects.insert("t".into(), b"old".to_vec());
    assert_eq!(
        unit(run(&mut store, backend().rename(path("/a/"), path("/t")))),
        Ok(())
    );
    let keys: Vec<&str> = store.objects.keys().map(|k| k.as_str()).collect();
    assert_eq!(keys, vec!["t/.dir", "t/f"]);
}

#[test]
fn moved_resource_replaces_a_collection_in_its_way() {
    let mut store = Store::new();
    store.objects.insert("f".into(), b"new".to_vec());
    store.objects.insert("d/.dir".into(), vec![]);
    store.objects.insert("d/old".into(), b"old".to_vec());
    store.objects.insert("d/sub/.dir".into(), vec![]);
    assert_eq!(
        unit(run(&mut store, backend().rename(path("/f"), path("/d/")))),
        Ok(())
    );
    let keys: Vec<&str> = store.objects.keys().map(|k| k.as_str()).collect();
    assert_eq!(keys, vec!["d"]);
    assert_eq!(store.objects["d"], b"new".to_vec());
}

#[test]
fn open_checks_options_and_kinds() {
    let mut store = Store::new();
    store.objects.insert("d/.dir".into(), vec![]);
    store.objects.insert("f".into(), b"x".to_vec());
    let b = backend();
    assert_eq!(
        file(run(&mut store, b.open(path("/d/"), reading()))).unwrap_err(),
        FsError::Forbidden
    );
    assert_eq!(
        file(run(&mut store, b.open(path("/none"), reading()))).unwrap_err(),
        FsError::NotFound
    );
    let anew = OpenOptions {
        write: true,
        create_new: true,
        ..OpenOptions::new()
    };
    assert_eq!(
        file(run(&mut store, b.open(path("/f"), anew))).unwrap_err(),
        FsError::Exists
    );
    let odd = OpenOptions {
        write: true,
        append: true,
        truncate: true,
        ..OpenOptions::new()
    };
    assert!(!odd.is_valid());
    store.log.clear();
    assert_eq!(
        file(run(&mut store, b.open(path("/f"), odd))).unwrap_err(),
        FsError::GeneralFailure
    );
    assert!(store.log.is_empty());
    assert!(!OpenOptions::new().is_valid());
    assert!(writing().is_valid());
    assert!(reading().is_valid());
    store.broken = true;
    assert_eq!(
        file(run(&mut store, b.open(path("/f"), reading()))).unwrap_err(),
        FsError::GeneralFailure
    );
}

#[test]
fn simple_file_reads_writes_and_seeks() {
    let mut store = Store::new();
    store.objects.insert("f".into(), b"0123456789".to_vec());
    let mut f = simple(&mut store, "/f", OpenOptions { read: true, write: true, ..OpenOptions::new() });
    assert_eq!(f.read_bytes(4).unwrap(), b"0123".to_vec());
    assert_eq!(f.read_bytes(100).unwrap(), b"456789".to_vec());
    assert_eq!(f.read_bytes(1).unwrap(), Vec::<u8>::new());
    assert_eq!(f.seek(SeekFrom::Start(2)), Ok(2));
    assert_eq!(f.seek(SeekFrom::Current(3)), Ok(5));
    assert_eq!(f.seek(SeekFrom::End(-1)), Ok(9));
    assert_eq!(f.seek(SeekFrom::End(-11)), Err(FsError::GeneralFailure));
    assert_eq!(f.seek(SeekFrom::Current(-10)), Err(FsError::GeneralFailure));
    assert_eq!(f.read_bytes(5).unwrap(), b"9".to_vec());
    assert_eq!(f.seek(SeekFrom::Start(8)), Ok(8));
    let later = UnixTime { secs: 1700000100, nanos: 0 };
    assert_eq!(f.write_bytes(b"abcd", later), Ok(()));
    assert_eq!(f.buffer, b"01234567abcd".to_vec());
    assert_eq!(f.metadata().len(), 14);
    assert_eq!(f.metadata().modified(), later);
    assert_eq!(f.seek(SeekFrom::Start(14)), Ok(14));
    assert_eq!(f.write_buf(b"z", later), Ok(()));
    assert_eq!(f.buffer, b"01234567abcd\0\0z".to_vec());
    let step = f.flush();
    assert_eq!(drive_simple(&mut store, &mut f, step), Ok(()));
    assert_eq!(store.objects["f"], b"01234567abcd\0\0z".to_vec());
    assert_eq!(store.log.last().unwrap(), "TAG f 2");
}

#[test]
fn simple_flush_fails_where_the_store_refuses() {
    let mut store = Store::new();
    store.objects.insert("f".into(), b"x".to_vec());
    let mut f = simple(&mut store, "/f", reading());
    let first = f.flush();
    assert!(matches!(first, FileStep::Send(Request::PutObject { .. })));
    assert!(matches!(
        f.resume(Reply::Status { code: 500 }),
        FileStep::Done(Err(FsError::GeneralFailure))
    ));
    let _ = f.flush();
    assert!(matches!(
        f.resume(Reply::Status { code: 200 }),
        FileStep::Send(Request::PutObjectTagging { .. })
    ));
    assert!(matches!(
        f.resume(Reply::Failed),
        FileStep::Done(Err(FsError::GeneralFailure))
    ));
}

#[test]
fn multipart_file_cannot_be_read_or_sought() {
    let mut store = Store::new();
    let mut f = multipart(&mut store, "/f");
    assert_eq!(f.read_bytes(1), Err(FsError::NotImplemented));
    assert_eq!(f.seek(SeekFrom::Start(0)), Err(FsError::NotImplemented));
    assert_eq!(FsError::NotImplemented.status(), 501);
    assert_eq!(FsError::NotFound.status(), 404);
    assert_eq!(FsError::Exists.status(), 405);
    assert_eq!(FsError::Forbidden.status(), 403);
    assert_eq!(FsError::GeneralFailure.status(), 500);
}

#[test]
fn big_body_goes_out_in_parts() {
    let mut store = Store::new();
    let mut f = multipart(&mut store, "/big.bin");
    let chunk: Vec<u8> = (0..1024 * 1024).map(|i| (i % 251) as u8).collect();
    let mut whole = vec![];
    for _ in 0..25 {
        let step = f.write_bytes(&chunk);
        assert_eq!(drive(&mut store, &mut f, step), Ok(()));
        whole.extend_from_slice(&chunk);
    }
    let step = f.flush();
    assert_eq!(drive(&mut store, &mut f, step), Ok(()));
    let parts: Vec<&String> = store.log.iter().filter(|l| l.starts_with("PART")).collect();
    assert_eq!(
        parts,
        vec![
            "PART big.bin 1 10485760",
            "PART big.bin 2 10485760",
            "PART big.bin 3 5242880"
        ]
    );
    assert!(store.log.contains(&"COMPLETE big.bin 3".to_string()));
    assert_eq!(store.objects["big.bin"].len(), 25 * 1024 * 1024);
    assert!(store.objects["big.bin"] == whole);
    assert_eq!(f.metadata().len(), 25 * 1024 * 1024);
    assert_eq!(
        f.etags,
        vec!["etag-1".to_string(), "etag-2".to_string(), "etag-3".to_string()]
    );
}

#[test]
fn failed_part_gives_the_upload_up() {
    let mut store = Store::new();
    let mut f = multipart(&mut store, "/f");
    let _ = f.write_bytes(b"abc");
    let step = f.flush();
    assert!(matches!(step, FileStep::Send(Request::UploadPart { part_number: 1, .. })));
    let step = f.resume(Reply::PartStored { code: 500, etag: String::new() }, now());
    assert!(matches!(step, FileStep::Send(Request::AbortMultipartUpload { .. })));
    let step = f.resume(Reply::Status { code: 204 }, now());
    assert!(matches!(step, FileStep::Done(Err(FsError::GeneralFailure))));

    let mut g = multipart(&mut store, "/g");
    let step = g.flush();
    assert!(matches!(step, FileStep::Send(Request::CompleteMultipartUpload { .. })));
    let step = g.resume(Reply::Failed, now());
    assert!(matches!(step, FileStep::Send(Request::AbortMultipartUpload { .. })));
    assert!(matches!(
        g.resume(Reply::Failed, now()),
        FileStep::Done(Err(FsError::GeneralFailure))
    ));
}

#[test]
fn bucket_is_ensured_or_tried_out() {
    let config = Filesystem::S3 {
        bucket: "t".into(),
        region: "r".into(),
        url: "u".into(),
        path_style: false,
        ensure_bucket: true,
        auth: S3Authentication::default(),
    };
    let (backend, boot) = S3Backend::new(config).unwrap();
    assert_eq!(backend.bucket, "t");
    assert!(!backend.path_style);
    assert!(matches!(
        S3Backend::new(Filesystem::Mem),
        Err(BootstrapError::UnsupportedConfig)
    ));

    // the bucket is there already
    let boot = match boot.step(None) {
        BootstrapStep::Send(b, Request::CreateBucket) => b,
        other => panic!("{:?}", other),
    };
    assert!(matches!(
        boot.step(Some(Reply::Status { code: 409 })),
        BootstrapStep::Done(Ok(()))
    ));
    assert!(matches!(
        boot.step(Some(Reply::Status { code: 200 })),
        BootstrapStep::Done(Ok(()))
    ));

    // the creation is refused, the bucket works
    let probe = match boot.step(Some(Reply::Status { code: 403 })) {
        BootstrapStep::Send(b, Request::PutObject { key, body }) => {
            assert_eq!(key, ".check");
            assert!(body.is_empty());
            b
        }
        other => panic!("{:?}", other),
    };
    let delete = match probe.step(Some(Reply::Status { code: 200 })) {
        BootstrapStep::Send(b, Request::DeleteObject { key }) => {
            assert_eq!(key, ".check");
            b
        }
        other => panic!("{:?}", other),
    };
    assert!(matches!(
        delete.step(Some(Reply::Status { code: 204 })),
        BootstrapStep::Done(Ok(()))
    ));
    assert!(matches!(
        delete.step(Some(Reply::Failed)),
        BootstrapStep::Done(Err(BootstrapError::Unsuccessful))
    ));
    assert!(matches!(
        probe.step(Some(Reply::Status { code: 403 })),
        BootstrapStep::Done(Err(BootstrapError::Unsuccessful))
    ));

    // the store cannot be asked
    let probe = match boot.step(Some(Reply::Failed)) {
        BootstrapStep::Send(b, Request::PutObject { .. }) => b,
        other => panic!("{:?}", other),
    };
    assert!(matches!(
        probe.step(Some(Reply::Failed)),
        BootstrapStep::Done(Err(BootstrapError::CannotCreate))
    ));

    // nothing to ensure
    assert!(matches!(
        Bootstrap::new(false).step(None),
        BootstrapStep::Done(Ok(()))
    ));
}

#[test]
fn adapter_keeps_no_properties() {
    let b = backend();
    let author = webdav_ss::prop_storages::props::DavProp {
        name: "author".into(),
        prefix: None,
        namespace: Some("DAV:".into()),
        xml: None,
    };
    assert!(b.have_props(&path("/f")));
    assert_eq!(
        b.patch_props(&path("/f"), vec![(true, author.clone())])
            .unwrap_err(),
        FsError::NotImplemented
    );
    assert_eq!(
        b.get_prop(&path("/f"), author),
        Err(FsError::NotImplemented)
    );
    assert_eq!(
        b.get_props(&path("/f"), true).unwrap_err(),
        FsError::NotImplemented
    );
}

#[test]
fn unexpected_reply_is_a_general_failure() {
    let op = backend().metadata(path("/f"));
    let step = op.step(Event::Start, now());
    let op = match step {
        Step::Send(op, Request::HeadObject { key }) => {
            assert_eq!(key, "f/.dir");
            op
        }
        other => panic!("{:?}", other),
    };
    assert!(matches!(
        op.step(Event::Reply(Reply::Status { code: 200 }), now()),
        Step::Done(Outcome::Meta(Err(FsError::GeneralFailure)))
    ));
}

#[test]
fn written_through_the_mount_table_has_its_length() {
    let mut table = webdav_ss::aggregate::AggregateBuilder::new()
        .add_route("/s3", 0usize)
        .add_route("/mem", 1)
        .build()
        .unwrap();
    let mut stores = vec![Store::new(), Store::new()];

    let route = table.open("/s3/hello world.txt").unwrap();
    assert_eq!(*table.backend(route.backend), 0);
    assert_eq!(route.path, "/hello%20world.txt");
    let inside = String::from_utf8(webdav_ss::percent::percent_decode(&route.path)).unwrap();
    assert_eq!(inside, "/hello world.txt");
    put(&mut stores[route.backend], &inside, b"Hello, world!");

    let plan = table.metadata("/s3/hello world.txt").unwrap();
    let route = match plan {
        webdav_ss::aggregate::MetadataPlan::Route(route) => route,
        webdav_ss::aggregate::MetadataPlan::Virtual(_) => panic!("a mounted path is no virtual one"),
    };
    let inside = String::from_utf8(webdav_ss::percent::percent_decode(&route.path)).unwrap();
    let m = meta(run(
        &mut stores[route.backend],
        backend().metadata(path(&inside)),
    ))
    .unwrap();
    assert_eq!(m.len(), 13);
    assert!(!m.is_dir());
    assert!(stores[1].objects.is_empty());
    assert_eq!(table.removed_file("/s3/hello world.txt", Ok(())), Ok(()));
}

#[test]
fn several_writes_go_out_in_numbered_parts_and_are_stored_whole() {
    let mut store = Store::new();
    let mut f = multipart(&mut store, "/big.bin");
    let mut body: Vec<u8> = Vec::new();
    let piece = 4 * 1024 * 1024;
    for i in 0..7u8 {
        let chunk = vec![i; piece];
        body.extend_from_slice(&chunk);
        let step = f.write_bytes(&chunk);
        assert_eq!(drive(&mut store, &mut f, step), Ok(()));
        assert!(f.buffer.len() < 10 * 1024 * 1024);
    }
    assert_eq!(f.etags.len(), 2);
    assert_eq!(f.buffer.len(), piece);
    let step = f.flush();
    assert_eq!(drive(&mut store, &mut f, step), Ok(()));
    assert_eq!(f.etags.len(), 3);
    let parts: Vec<&String> = store.log.iter().filter(|l| l.starts_with("PART")).collect();
    assert_eq!(
        parts,
        vec![
            "PART big.bin 1 12582912",
            "PART big.bin 2 12582912",
            "PART big.bin 3 4194304"
        ]
    );
    assert!(store.log.contains(&"COMPLETE big.bin 3".to_string()));
    assert_eq!(store.objects["big.bin"].len(), 7 * piece);
    assert_eq!(store.objects["big.bin"], body);
}
