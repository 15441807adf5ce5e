use webdav_ss::configuration::{
    Application, ConfAccessKey, ConfSecretKey, Configuration, Encryption, Filesystem,
    FilesystemType, S3Authentication,
};
use webdav_ss::encryption::{EncryptionError, EncryptionWrapper};
use webdav_ss::error::FsError;
use webdav_ss::repository::MemoryRepository;
use webdav_ss::s3_backend::entries::S3DirEntry;
use webdav_ss::s3_backend::metadata::{S3MetaData, UnixTime};
use webdav_ss::serde_types::{escape_xml, CompleteMultipartUploadData, Part, Tag};
use webdav_ss::text::{decimal_string, hex_string, parse_decimal};

fn at(secs: i64, nanos: u32) -> UnixTime {
    UnixTime { secs, nanos }
}

#[test]
fn numbers_are_written_in_decimal_and_hex() {
    assert_eq!(decimal_string(0), "0");
    assert_eq!(decimal_string(7), "7");
    assert_eq!(decimal_string(1633124094), "1633124094");
    assert_eq!(decimal_string(u64::MAX), "18446744073709551615");
    assert_eq!(hex_string(0), "0");
    assert_eq!(hex_string(255), "ff");
    assert_eq!(hex_string(4096), "1000");
    assert_eq!(hex_string(u128::MAX), "ffffffffffffffffffffffffffffffff");
}

#[test]
fn record_takes_the_date_of_the_store_or_the_time_of_the_call() {
    let now = at(1700000000, 42);
    let m = S3MetaData::extract_from_tags(
        13,
        "hello.txt".into(),
        false,
        Some("tag".into()),
        Some("Wed, 21 Oct 2015 07:28:00 GMT".into()),
        now,
    );
    assert_eq!(m.modified(), at(1445412480, 0));
    assert_eq!(m.created(), now);
    assert_eq!(m.len(), 13);
    assert!(m.is_file());
    assert!(!m.is_dir());

    let m = S3MetaData::extract_from_tags(0, "d/".into(), true, None, Some("yesterday".into()), now);
    assert_eq!(m.modified(), now);
    let m = S3MetaData::extract_from_tags(0, "d/".into(), true, None, None, now);
    assert_eq!(m.modified(), now);
    assert!(m.is_dir());

    let m = S3MetaData::with_times(1, "f".into(), false, None, Some(-5), now);
    assert_eq!(m.modified(), at(-5, 0));
}

#[test]
fn entity_tag_is_made_of_length_and_time() {
    let now = at(1700000000, 0);
    let mut m = S3MetaData::with_times(13, "f".into(), false, None, Some(1445412480), now);
    assert_eq!(m.etag(), Some("d-52298516ca000".to_string()));
    m.modified_now(at(1445412480, 123456789));
    assert_eq!(m.etag(), Some("d-52298516e8240".to_string()));
    m.len = 0;
    assert_eq!(m.etag(), Some("52298516e8240".to_string()));
    let d = S3MetaData::with_times(13, "d/".into(), true, None, Some(1445412480), now);
    assert_eq!(d.etag(), Some("52298516ca000".to_string()));
    let early = S3MetaData::with_times(13, "f".into(), false, None, Some(-1), now);
    assert_eq!(early.etag(), None);
}

#[test]
fn times_become_tags() {
    let now = at(1700000000, 999);
    let mut m = S3MetaData::with_times(1, "f".into(), false, None, Some(1633124094), now);
    assert_eq!(
        m.as_metadata(),
        vec![
            ("modified".to_string(), "1633124094".to_string()),
            ("created".to_string(), "1700000000".to_string())
        ]
    );
    assert_eq!(S3MetaData::as_unixtime(at(-3, 0)), "0");
    assert_eq!(S3MetaData::as_unixtime(at(0, 0)), "0");
    m.add_len(41);
    assert_eq!(m.len(), 42);
    let copy = m.clone();
    assert_eq!(copy.len(), 42);
    assert_eq!(copy.path, "f");
}

#[test]
fn entry_has_name_and_record() {
    let now = at(1, 0);
    let m = S3MetaData::with_times(3, "d/f".into(), false, None, None, now);
    let e = S3DirEntry::new(m, "f");
    assert_eq!(e.name(), b"f".to_vec());
    assert!(!e.is_dir());
    assert_eq!(e.metadata().len(), 3);
}

#[test]
fn multipart_completion_is_written_as_xml() {
    let data = CompleteMultipartUploadData {
        parts: vec![
            Part {
                part_number: 1,
                etag: "\"a&b\"".into(),
            },
            Part {
                part_number: 12,
                etag: "<x>".into(),
            },
        ],
    };
    let xml = "<CompleteMultipartUpload><Part><PartNumber>1</PartNumber><ETag>\"a&amp;b\"</ETag></Part><Part><PartNumber>12</PartNumber><ETag>&lt;x&gt;</ETag></Part></CompleteMultipartUpload>";
    assert_eq!(data.to_string(), xml);
    assert_eq!(data.len(), xml.len());
    assert!(!data.is_empty());
    let none = CompleteMultipartUploadData { parts: vec![] };
    assert_eq!(
        none.to_string(),
        "<CompleteMultipartUpload></CompleteMultipartUpload>"
    );
    assert_eq!(none.len(), 51);
    assert!(!none.is_empty());
    assert_eq!(escape_xml("a<b>&c"), "a&lt;b&gt;&amp;c");
    assert_eq!(data.parts[0].clone().etag, "\"a&b\"");
}

#[test]
fn tag_hands_out_copies() {
    let t = Tag {
        key: "modified".into(),
        value: "1633124094".into(),
    };
    assert_eq!(t.key(), "modified");
    assert_eq!(t.value(), "1633124094");
}

#[test]
fn configuration_has_its_defaults() {
    assert_eq!(ConfAccessKey::default().as_str(), "AWS_ACCESS_KEY_ID");
    assert_eq!(ConfSecretKey::default().as_str(), "AWS_SECRET_ACCESS_KEY");
    match S3Authentication::default() {
        S3Authentication::Environment {
            access_key,
            secret_key,
        } => {
            assert_eq!(access_key.as_str(), "AWS_ACCESS_KEY_ID");
            assert_eq!(secret_key.as_str(), "AWS_SECRET_ACCESS_KEY");
        }
        other => panic!("{:?}", other),
    }
    assert!(!Encryption::default().enable);
}

#[test]
fn backend_takes_its_own_encryption_before_the_common_one() {
    let own = Encryption {
        enable: true,
        phrase: Some(vec![1; 32]),
        nonce: Some(vec![2; 12]),
    };
    let common = Encryption {
        enable: true,
        phrase: Some(vec![3; 32]),
        nonce: Some(vec![4; 12]),
    };
    let mut config = Configuration {
        app: Application {
            host: "127.0.0.1".into(),
            port: 8080,
        },
        filesystems: vec![
            FilesystemType {
                fs: Filesystem::Mem,
                mount_path: "/mem".into(),
                encryption: Some(own),
            },
            FilesystemType {
                fs: Filesystem::FS { path: "/tmp".into() },
                mount_path: "/fs".into(),
                encryption: None,
            },
        ],
        prop_storage: None,
        encryption: Some(common),
        compression: None,
    };
    assert_eq!(config.address(), "127.0.0.1:8080");
    assert!(!config.compression());
    assert_eq!(config.encryption_for(0).phrase, Some(vec![1; 32]));
    assert_eq!(config.encryption_for(1).phrase, Some(vec![3; 32]));
    config.encryption = None;
    config.compression = Some(true);
    assert!(config.compression());
    assert!(!config.encryption_for(1).enable);
    assert_eq!(config.encryption_for(1).phrase, None);
}

#[test]
fn wrapper_needs_key_and_nonce_of_the_right_length() {
    assert!(matches!(
        EncryptionWrapper::new(&[0u8; 31], &[0u8; 12], 1u8),
        Err(EncryptionError::FromSlice)
    ));
    assert!(matches!(
        EncryptionWrapper::new(&[0u8; 32], &[0u8; 13], 1u8),
        Err(EncryptionError::FromSlice)
    ));
    let w = EncryptionWrapper::new(&[0u8; 32], &[0u8; 12], 7u8).ok().unwrap();
    assert_eq!(*w.inner(), 7);
}

#[test]
fn cipher_gives_the_keystream_of_chacha20() {
    let w = EncryptionWrapper::new(&[0u8; 32], &[0u8; 12], ()).ok().unwrap();
    let mut f = w.open();
    let out = f.write_bytes(&[0u8; 16]).unwrap();
    assert_eq!(
        out,
        vec![
            0x76, 0xb8, 0xe0, 0xad, 0xa0, 0xf1, 0x3d, 0x90, 0x40, 0x5d, 0x6a, 0xe5, 0x53, 0x86,
            0xbd, 0x28
        ]
    );
    // the stream goes on where it stood
    let next = f.write_buf(&[0u8; 4]).unwrap();
    assert_eq!(next, vec![0xbd, 0xd2, 0x19, 0xb8]);
}

#[test]
fn what_is_written_encrypted_is_read_back_plain() {
    let key: Vec<u8> = (0..32).collect();
    let nonce: Vec<u8> = (100..112).collect();
    let w = EncryptionWrapper::new(&key, &nonce, ()).ok().unwrap();
    let plain = b"Hello, world! Hello again, across two writes.".to_vec();
    let mut writer = w.open();
    let mut stored = writer.write_bytes(&plain[..10]).unwrap();
    stored.extend(writer.write_bytes(&plain[10..]).unwrap());
    assert_eq!(stored.len(), plain.len());
    assert_ne!(stored, plain);
    let mut reader = w.open();
    let mut back = reader.read_bytes(stored[..30].to_vec()).unwrap();
    back.extend(reader.read_bytes(stored[30..].to_vec()).unwrap());
    assert_eq!(back, plain);
    assert_eq!(w.open().write_bytes(&[]).unwrap(), Vec::<u8>::new());
}

#[test]
fn errors_have_their_status() {
    assert_eq!(FsError::NotFound.status(), 404);
    assert_eq!(FsError::GeneralFailure.status(), 500);
    let _ = MemoryRepository::new();
}

#[test]
fn keystream_does_not_depend_on_how_the_bytes_are_cut() {
    let key: Vec<u8> = (0..32).collect();
    let nonce: Vec<u8> = (100..112).collect();
    let w = EncryptionWrapper::new(&key, &nonce, ()).ok().unwrap();
    let whole = w.open().write_bytes(&[0u8; 200]).unwrap();
    let mut f = w.open();
    let mut cut = f.write_bytes(&[0u8; 3]).unwrap();
    cut.extend(f.write_bytes(&[0u8; 61]).unwrap());
    cut.extend(f.write_bytes(&[0u8; 70]).unwrap());
    cut.extend(f.read_bytes(vec![0u8; 66]).unwrap());
    assert_eq!(cut, whole);
    assert_ne!(whole[..64], whole[64..128]);
}

#[test]
fn decimal_text_is_read_as_a_number() {
    assert_eq!(parse_decimal("0"), Some(0));
    assert_eq!(parse_decimal("007"), Some(7));
    assert_eq!(parse_decimal("+42"), Some(42));
    assert_eq!(parse_decimal("1445412480"), Some(1445412480));
    assert_eq!(parse_decimal("18446744073709551615"), Some(u64::MAX));
    assert_eq!(parse_decimal("18446744073709551616"), None);
    assert_eq!(parse_decimal("99999999999999999999"), None);
    assert_eq!(parse_decimal(""), None);
    assert_eq!(parse_decimal("+"), None);
    assert_eq!(parse_decimal("-1"), None);
    assert_eq!(parse_decimal("12a"), None);
    assert_eq!(parse_decimal(" 1"), None);
    for n in [0u64, 9, 10, 99, 100, 1234567890, u64::MAX] {
        assert_eq!(parse_decimal(&decimal_string(n)), Some(n));
        assert_eq!(parse_decimal(&n.to_string()), Some(n));
        assert_eq!(n.to_string().parse::<u64>().ok(), parse_decimal(&n.to_string()));
    }
}

#[test]
fn tags_are_read_back_as_times() {
    let now = at(77, 5);
    assert_eq!(
        S3MetaData::extract_unixtime_or_zero("1445412480", now),
        at(1445412480, 0)
    );
    assert_eq!(S3MetaData::extract_unixtime_or_zero("0", now), at(0, 0));
    assert_eq!(S3MetaData::extract_unixtime_or_zero("soon", now), now);
    assert_eq!(S3MetaData::extract_unixtime_or_zero("", now), now);
    assert_eq!(
        S3MetaData::extract_unixtime_or_zero("9223372036854775807", now),
        at(i64::MAX, 0)
    );
    assert_eq!(
        S3MetaData::extract_unixtime_or_zero("9223372036854775808", now),
        now
    );
    let t = at(1_600_000_000, 0);
    assert_eq!(
        S3MetaData::extract_unixtime_or_zero(&S3MetaData::as_unixtime(t), now),
        t
    );
}
