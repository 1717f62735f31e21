use vstd::prelude::*;

verus! {

/// How blobs are written into the content store: as a plain copy, gzip
/// compressed, or gzip compressed and AES encrypted.  The last mode is a
/// declared configuration value that the store does not implement: encoding
/// under it is rejected with an explicit error.
#[allow(non_camel_case_types)]
#[derive(Clone, Copy, Debug)]
pub enum StorageMode {
    COPY,
    GZIP,
    GZIPAES,
}

/// Configuration of one repository: where the two ledger files, the working
/// directory and the store live, how blobs are encoded, and how the remote
/// side is reached.
#[derive(Debug)]
pub struct Config {
    pub local_metadata_path: String,
    pub remote_metadata_path: String,
    pub data_path: String,
    pub store_path: String,
    pub storage_mode: StorageMode,
    pub ssh_address: String,
    pub ssh_user: String,
    pub ssh_password: String,
    pub ssh_root_path: String,
}

impl Config {
    /// The default configuration, written by repository initialization.
    pub fn new_default() -> (c: Config)
        ensures
            c.local_metadata_path@ == "local-metadata.json"@,
            c.remote_metadata_path@ == "remote-metadata.json"@,
            c.data_path@ == "data"@,
            c.store_path@ == "store"@,
            c.storage_mode is COPY,
            c.ssh_address@ == "127.0.0.1:22"@,
            c.ssh_user@ == "root"@,
            c.ssh_password@ == "password"@,
            c.ssh_root_path@ == "/root/Yabs"@,
    {
        Config {
            local_metadata_path: "local-metadata.json".to_owned(),
            remote_metadata_path: "remote-metadata.json".to_owned(),
            data_path: "data".to_owned(),
            store_path: "store".to_owned(),
            storage_mode: StorageMode::COPY,
            ssh_address: "127.0.0.1:22".to_owned(),
            ssh_user: "root".to_owned(),
            ssh_password: "password".to_owned(),
            ssh_root_path: "/root/Yabs".to_owned(),
        }
    }

    pub fn get_local_metadata_path(&self) -> (r: String)
        ensures
            r@ == self.local_metadata_path@,
    {
        self.local_metadata_path.clone()
    }

    pub fn get_remote_metadata_path(&self) -> (r: String)
        ensures
            r@ == self.remote_metadata_path@,
    {
        self.remote_metadata_path.clone()
    }

    pub fn get_data_path(&self) -> (r: String)
        ensures
            r@ == self.data_path@,
    {
        self.data_path.clone()
    }

    pub fn get_store_path(&self) -> (r: String)
        ensures
            r@ == self.store_path@,
    {
        self.store_path.clone()
    }

    pub fn get_storage_mode(&self) -> (r: StorageMode)
        ensures
            r == self.storage_mode,
    {
        self.storage_mode
    }

    pub fn get_ssh_address(&self) -> (r: String)
        ensures
            r@ == self.ssh_address@,
    {
        self.ssh_address.clone()
    }

    pub fn get_ssh_user(&self) -> (r: String)
        ensures
            r@ == self.ssh_user@,
    {
        self.ssh_user.clone()
    }

    pub fn get_ssh_password(&self) -> (r: String)
        ensures
            r@ == self.ssh_password@,
    {
        self.ssh_password.clone()
    }

    pub fn get_ssh_root_path(&self) -> (r: String)
        ensures
            r@ == self.ssh_root_path@,
    {
        self.ssh_root_path.clone()
    }
}

} // verus!
