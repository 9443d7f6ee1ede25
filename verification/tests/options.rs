use std::path::PathBuf;
use std::time::Duration;
use vela::encrypt::{Encryption, EncryptionAlgorithm};
use vela::options::{KeyRegistryOptions, LogFileOptions, MemTableOptions, ValueLogOptions};

#[test]
fn options_key_registry_setters() {
    let o = KeyRegistryOptions::new(PathBuf::from("/tmp/registry"));
    assert_eq!(o.dir(), &PathBuf::from("/tmp/registry"));
    assert!(!o.in_memory());
    assert!(!o.read_only());
    assert_eq!(o.encryption_key_rotation_duration(), Duration::from_secs(0));
    assert!(o.secret().is_empty());
    let o = o
        .set_in_memory()
        .set_read_only()
        .set_dir(PathBuf::from("/data"))
        .set_encryption_key_rotation_duration(Duration::from_secs(60))
        .set_encryption(Encryption::aes(vec![1, 2, 3]));
    assert!(o.in_memory());
    assert!(o.read_only());
    assert_eq!(o.dir(), &PathBuf::from("/data"));
    assert_eq!(o.encryption_key_rotation_duration(), Duration::from_secs(60));
    assert_eq!(o.encryption().algorithm(), EncryptionAlgorithm::Aes);
    assert_eq!(o.secret(), &[1, 2, 3]);
    assert_eq!(o.secret_bytes(), vec![1, 2, 3]);
}

#[test]
fn options_mem_table() {
    let o = MemTableOptions { size: 1, in_memory: false, read_only: false };
    let o = o.set_size(64).set_in_memory().set_read_only();
    assert_eq!(o.size(), 64);
    assert!(o.in_memory());
    assert!(o.read_only());
}

#[test]
fn options_log_file_from_value_log() {
    let v = ValueLogOptions::new(PathBuf::from("/vlog"))
        .set_size(10)
        .set_file_size(1 << 20)
        .set_sync_writes(true)
        .set_read_only(true)
        .set_enable_metrics(true)
        .set_save_on_drop(true)
        .set_in_memory(true)
        .set_dir_path(PathBuf::from("/vlog2"));
    assert_eq!(v.size(), 10);
    assert_eq!(v.file_size(), 1 << 20);
    assert!(v.in_memory());
    assert_eq!(v.dir_path(), &PathBuf::from("/vlog2"));
    let l = LogFileOptions::from_value_log_options(&v);
    assert_eq!(l.mem_table_size(), 2 << 20);
    assert!(l.sync_writes() && l.read_only() && l.enable_metrics() && l.save_on_drop());
    let l2: LogFileOptions = LogFileOptions::from(v.clone());
    assert_eq!(l, l2);
    let l3 = l
        .set_sync_writes(false)
        .set_read_only(false)
        .set_enable_metrics(false)
        .set_save_on_drop(false)
        .set_mem_table_size(7);
    assert_eq!(l3, LogFileOptions { sync_writes: false, read_only: false, enable_metrics: false, mem_table_size: 7, save_on_drop: false });
    // the memtable size wraps at 64 bits
    let big = ValueLogOptions::new(PathBuf::new()).set_file_size(u64::MAX);
    assert_eq!(LogFileOptions::from(big).mem_table_size(), u64::MAX - 1);
}
