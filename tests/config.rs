use kving::{Config, StoreModel};

#[test]
fn defaults() {
    let c = Config::builder().build();
    assert_eq!(c.data_dir(), "data");
    assert_eq!(c.name(), "bitcask");
    assert_eq!(c.max_file_size(), 8 * 1024 * 1024);
    assert_eq!(c.max_file_handle_caches(), 100);
    assert_eq!(c.max_historical_files(), 10);
    assert!(!c.strict_crc_validation());
    assert_eq!(*c.store_model(), StoreModel::Bitcask);
}

#[test]
fn builder_sets_each_option() {
    let c = Config::builder()
        .set_data_dir("/tmp/x".to_string())
        .set_name("db".to_string())
        .set_max_file_size(64)
        .set_max_file_handle_caches(3)
        .set_max_historical_files(2)
        .set_strict_crc_validation(true)
        .set_store_model(StoreModel::with_index(0))
        .build();
    assert_eq!(c.data_dir(), "/tmp/x");
    assert_eq!(c.name(), "db");
    assert_eq!(c.max_file_size(), 64);
    assert_eq!(c.max_file_handle_caches(), 3);
    assert_eq!(c.max_historical_files(), 2);
    assert!(c.strict_crc_validation());
}

#[test]
fn store_model_extension() {
    assert_eq!(StoreModel::Bitcask.extension(), "bsk");
    assert_eq!(StoreModel::with_index(7), StoreModel::Bitcask);
}

#[test]
fn error_kind_of_non_io_is_other() {
    assert_eq!(kving::Error::CorruptedData.kind(), std::io::ErrorKind::Other);
    let io = kving::Error::IOError(std::io::Error::new(std::io::ErrorKind::NotFound, "x"));
    assert_eq!(io.kind(), std::io::ErrorKind::NotFound);
}
