//! What the server is configured with.
use crate::text::{copy_bytes, copy_text, opt_bytes};
use vstd::prelude::*;
use vstd::string::StringExecFns;

verus! {

/// Where the server listens.
#[derive(Debug, Clone)]
pub struct Application {
    pub host: String,
    pub port: u16,
}

/// The name of the environment variable that holds the access key.
#[derive(Debug, Clone)]
pub struct ConfAccessKey(pub String);

/// The name of the environment variable that holds the secret key.
#[derive(Debug, Clone)]
pub struct ConfSecretKey(pub String);

impl Default for ConfAccessKey {
    fn default() -> (r: Self)
        ensures
            r.0@ == "AWS_ACCESS_KEY_ID"@,
    {
        ConfAccessKey(String::from_str("AWS_ACCESS_KEY_ID"))
    }
}

impl Default for ConfSecretKey {
    fn default() -> (r: Self)
        ensures
            r.0@ == "AWS_SECRET_ACCESS_KEY"@,
    {
        ConfSecretKey(String::from_str("AWS_SECRET_ACCESS_KEY"))
    }
}

impl ConfAccessKey {
    /// The variable's name.
    pub fn as_str(&self) -> (s: &str)
        ensures
            s@ == self.0@,
    {
        self.0.as_str()
    }
}

impl ConfSecretKey {
    /// The variable's name.
    pub fn as_str(&self) -> (s: &str)
        ensures
            s@ == self.0@,
    {
        self.0.as_str()
    }
}

/// The keys read from a credentials file.
#[derive(Debug, Clone)]
pub struct S3AuthFile {
    pub access_key: String,
    pub secret_key: String,
}

/// Where the keys for the object store come from.
#[derive(Debug, Clone)]
pub enum S3Authentication {
    /// From two environment variables.
    Environment { access_key: ConfAccessKey, secret_key: ConfSecretKey },
    /// From a file with the entries `ACCESS_KEY` and `SECRET_KEY`.
    File { path: String },
    /// From the configuration itself.
    Values { access_key_value: String, secret_key_value: String },
}

impl Default for S3Authentication {
    fn default() -> (r: Self)
        ensures
            r matches S3Authentication::Environment { access_key, secret_key }
                && access_key.0@ == "AWS_ACCESS_KEY_ID"@ && secret_key.0@
                == "AWS_SECRET_ACCESS_KEY"@,
    {
        S3Authentication::Environment {
            access_key: ConfAccessKey::default(),
            secret_key: ConfSecretKey::default(),
        }
    }
}

/// A backend to mount.
#[derive(Debug, Clone)]
pub enum Filesystem {
    /// A directory of the local file system.
    FS { path: String },
    /// A file system held in memory.
    Mem,
    /// A bucket of an object store.
    S3 {
        bucket: String,
        region: String,
        url: String,
        path_style: bool,
        ensure_bucket: bool,
        auth: S3Authentication,
    },
}

/// Whether and with what the content of a backend is encrypted.
#[derive(Debug)]
pub struct Encryption {
    pub enable: bool,
    pub phrase: Option<Vec<u8>>,
    pub nonce: Option<Vec<u8>>,
}

/// An encryption setting as plain values.
pub struct EncryptionView {
    pub enable: bool,
    pub phrase: Option<Seq<u8>>,
    pub nonce: Option<Seq<u8>>,
}

impl View for Encryption {
    type V = EncryptionView;

    open spec fn view(&self) -> EncryptionView {
        EncryptionView {
            enable: self.enable,
            phrase: opt_bytes(self.phrase),
            nonce: opt_bytes(self.nonce),
        }
    }
}

/// No encryption.
pub open spec fn no_encryption() -> EncryptionView {
    EncryptionView { enable: false, phrase: None, nonce: None }
}

impl Default for Encryption {
    fn default() -> (r: Self)
        ensures
            r@ == no_encryption(),
    {
        Encryption { enable: false, phrase: None, nonce: None }
    }
}

impl Clone for Encryption {
    fn clone(&self) -> (r: Self)
        ensures
            r@ == self@,
    {
        Encryption {
            enable: self.enable,
            phrase: match &self.phrase {
                Some(v) => Some(copy_bytes(v)),
                None => None,
            },
            nonce: match &self.nonce {
                Some(v) => Some(copy_bytes(v)),
                None => None,
            },
        }
    }
}

/// A backend with the prefix under which it is mounted.
#[derive(Debug)]
pub struct FilesystemType {
    pub fs: Filesystem,
    pub mount_path: String,
    pub encryption: Option<Encryption>,
}

/// Where the dead properties are kept.
#[derive(Debug, Clone)]
pub enum PropsStorage {
    /// In a YAML file that mirrors the memory.
    Yaml { path: String },
    /// In memory only.
    Mem,
    /// In an embedded key-value store.
    Kv { path: String },
}

/// The whole configuration.
#[derive(Debug)]
pub struct Configuration {
    pub app: Application,
    pub filesystems: Vec<FilesystemType>,
    pub prop_storage: Option<PropsStorage>,
    pub encryption: Option<Encryption>,
    pub compression: Option<bool>,
}

/// The setting of an optional encryption; none stands for no encryption.
pub open spec fn opt_encryption(o: Option<Encryption>) -> EncryptionView {
    match o {
        Some(e) => e@,
        None => no_encryption(),
    }
}

/// The encryption of one backend: its own setting where it has one, else
/// the setting of the whole configuration, else none.
pub open spec fn encryption_of(own: Option<Encryption>, global: Option<Encryption>) -> EncryptionView {
    match own {
        Some(e) => e@,
        None => opt_encryption(global),
    }
}

impl Configuration {
    /// The address to listen on, `host:port`.
    pub fn address(&self) -> (r: String)
        ensures
            r@ == self.app.host@ + seq![':'] + crate::text::decimal(self.app.port as nat),
    {
        let mut r = copy_text(self.app.host.as_str());
        r.push(':');
        r.append(crate::text::decimal_string(self.app.port as u64).as_str());
        assert(r@ =~= self.app.host@ + seq![':'] + crate::text::decimal(self.app.port as nat));
        r
    }

    /// The encryption of the backend at `index`.
    pub fn encryption_for(&self, index: usize) -> (r: Encryption)
        requires
            index < self.filesystems@.len(),
        ensures
            r@ == encryption_of(self.filesystems@[index as int].encryption, self.encryption),
    {
        match &self.filesystems[index].encryption {
            Some(e) => e.clone(),
            None => match &self.encryption {
                Some(e) => e.clone(),
                None => Encryption::default(),
            },
        }
    }

    /// Whether answers are compressed; they are not unless asked for.
    pub fn compression(&self) -> (r: bool)
        ensures
            r == (self.compression == Some(true)),
    {
        match self.compression {
            Some(b) => b,
            None => false,
        }
    }
}

} // verus!
