//! Settings of a database, fixed when it is opened.
use vstd::prelude::*;

verus! {

/// How records are laid out on disk; one model so far.
#[derive(Clone, Copy, PartialEq, Eq, Structural, Debug)]
pub enum StoreModel {
    Bitcask,
}

impl StoreModel {
    /// Extension of the data files of this model.
    pub fn extension(&self) -> (r: String)
        ensures
            r@ == "bsk"@,
    {
        match self {
            StoreModel::Bitcask => "bsk".to_owned(),
        }
    }

    /// The model of number `index`; every index gives the one model there is.
    pub fn with_index(index: i32) -> (r: StoreModel)
        ensures
            r == StoreModel::Bitcask,
    {
        match index {
            0 => StoreModel::Bitcask,
            _ => StoreModel::Bitcask,
        }
    }
}

/// Largest size of a data file, by default: 8 MiB.
pub const DEFAULT_MAX_FILE_SIZE: u64 = 8388608;

/// Number of read handles kept open, by default.
pub const DEFAULT_MAX_FILE_HANDLE_CACHES: u32 = 100;

/// Number of sealed files at which a merge is due, by default.
pub const DEFAULT_MAX_HISTORICAL_FILES: u32 = 10;

/// Settings of a database: where it lives and when files rotate and merge.
#[derive(Clone, Debug)]
pub struct Config {
    data_dir: String,
    name: String,
    max_file_size: u64,
    max_file_handle_caches: u32,
    max_historical_files: u32,
    strict_crc_validation: bool,
    store_model: StoreModel,
}

/// The settings as plain values.
pub struct ConfigView {
    pub data_dir: Seq<char>,
    pub name: Seq<char>,
    pub max_file_size: u64,
    pub max_file_handle_caches: u32,
    pub max_historical_files: u32,
    pub strict_crc_validation: bool,
    pub store_model: StoreModel,
}

impl View for Config {
    type V = ConfigView;

    closed spec fn view(&self) -> ConfigView {
        ConfigView {
            data_dir: self.data_dir@,
            name: self.name@,
            max_file_size: self.max_file_size,
            max_file_handle_caches: self.max_file_handle_caches,
            max_historical_files: self.max_historical_files,
            strict_crc_validation: self.strict_crc_validation,
            store_model: self.store_model,
        }
    }
}

impl Config {
    /// Parent directory of the database.
    pub fn data_dir(&self) -> (r: &String)
        ensures
            r@ == self@.data_dir,
    {
        &self.data_dir
    }

    /// Name of the database: its directory under `data_dir`.
    pub fn name(&self) -> (r: &String)
        ensures
            r@ == self@.name,
    {
        &self.name
    }

    /// A data file is rotated before a write that would take it past this many bytes.
    pub fn max_file_size(&self) -> (r: u64)
        ensures
            r == self@.max_file_size,
    {
        self.max_file_size
    }

    /// Number of read handles kept open at most.
    pub fn max_file_handle_caches(&self) -> (r: u32)
        ensures
            r == self@.max_file_handle_caches,
    {
        self.max_file_handle_caches
    }

    /// Number of sealed files at or above which a merge is due.
    pub fn max_historical_files(&self) -> (r: u32)
        ensures
            r == self@.max_historical_files,
    {
        self.max_historical_files
    }

    /// Whether a checksum mismatch is an error rather than a record to skip.
    pub fn strict_crc_validation(&self) -> (r: bool)
        ensures
            r == self@.strict_crc_validation,
    {
        self.strict_crc_validation
    }

    /// The storage model.
    pub fn store_model(&self) -> (r: &StoreModel)
        ensures
            *r == self@.store_model,
    {
        &self.store_model
    }

    /// A builder that starts from the default settings.
    pub fn builder() -> (r: Builder)
        ensures
            r.spec_config()@.is_default(),
    {
        Builder::new()
    }

}

impl ConfigView {
    /// The settings hold the default values.
    pub open spec fn is_default(&self) -> bool {
        &&& self.data_dir == "data"@
        &&& self.name == "bitcask"@
        &&& self.max_file_size == DEFAULT_MAX_FILE_SIZE
        &&& self.max_file_handle_caches == DEFAULT_MAX_FILE_HANDLE_CACHES
        &&& self.max_historical_files == DEFAULT_MAX_HISTORICAL_FILES
        &&& !self.strict_crc_validation
        &&& self.store_model == StoreModel::Bitcask
    }
}

impl Default for Config {
    fn default() -> (r: Config)
        ensures
            r@.is_default(),
    {
        Config {
            data_dir: "data".to_owned(),
            name: "bitcask".to_owned(),
            max_file_size: DEFAULT_MAX_FILE_SIZE,
            max_file_handle_caches: DEFAULT_MAX_FILE_HANDLE_CACHES,
            max_historical_files: DEFAULT_MAX_HISTORICAL_FILES,
            strict_crc_validation: false,
            store_model: StoreModel::Bitcask,
        }
    }
}

/// Builds a `Config`, one setting at a time.
pub struct Builder {
    config: Config,
}

impl Builder {
    pub closed spec fn spec_config(&self) -> Config {
        self.config
    }

    /// A builder holding the default settings.
    pub(crate) fn new() -> (r: Builder)
        ensures
            r.spec_config()@.is_default(),
    {
        Builder { config: Config::default() }
    }

    /// The settings built so far.
    pub fn build(self) -> (r: Config)
        ensures
            r@ == self.spec_config()@,
    {
        self.config
    }

    /// Sets the parent directory of the database.
    pub fn set_data_dir(self, dir: String) -> (r: Builder)
        ensures
            r.spec_config()@ == (ConfigView { data_dir: dir@, ..self.spec_config()@ }),
    {
        let mut b = self;
        b.config.data_dir = dir;
        b
    }

    /// Sets the name of the database.
    pub fn set_name(self, name: String) -> (r: Builder)
        ensures
            r.spec_config()@ == (ConfigView { name: name@, ..self.spec_config()@ }),
    {
        let mut b = self;
        b.config.name = name;
        b
    }

    /// Sets the size past which a data file is rotated.
    pub fn set_max_file_size(self, size: u64) -> (r: Builder)
        ensures
            r.spec_config()@ == (ConfigView { max_file_size: size, ..self.spec_config()@ }),
    {
        let mut b = self;
        b.config.max_file_size = size;
        b
    }

    /// Sets how many read handles are kept open.
    pub fn set_max_file_handle_caches(self, caches: u32) -> (r: Builder)
        ensures
            r.spec_config()@ == (ConfigView { max_file_handle_caches: caches, ..self.spec_config()@ }),
    {
        let mut b = self;
        b.config.max_file_handle_caches = caches;
        b
    }

    /// Sets the number of sealed files at which a merge is due.
    pub fn set_max_historical_files(self, files: u32) -> (r: Builder)
        ensures
            r.spec_config()@ == (ConfigView { max_historical_files: files, ..self.spec_config()@ }),
    {
        let mut b = self;
        b.config.max_historical_files = files;
        b
    }

    /// Sets whether a checksum mismatch is an error.
    pub fn set_strict_crc_validation(self, validation: bool) -> (r: Builder)
        ensures
            r.spec_config()@ == (ConfigView { strict_crc_validation: validation, ..self.spec_config()@ }),
    {
        let mut b = self;
        b.config.strict_crc_validation = validation;
        b
    }

    /// Sets the storage model.
    pub fn set_store_model(self, model: StoreModel) -> (r: Builder)
        ensures
            r.spec_config()@ == (ConfigView { store_model: model, ..self.spec_config()@ }),
    {
        let mut b = self;
        b.config.store_model = model;
        b
    }
}

} // verus!
