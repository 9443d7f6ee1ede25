//! Options of the key registry, the memtable, the log files and the value
//! log. Every setter changes its own option and keeps the others.
use vstd::prelude::*;
use core::time::Duration;
use std::path::PathBuf;
use crate::encrypt::{Encryption, EncryptionAlgorithm};

verus! {

/// A path in the file system.
#[verifier::external_type_specification]
#[verifier::external_body]
pub struct ExPathBuf(std::path::PathBuf);

/// `PathBuf::clone` copies the path; nothing is claimed of the copy.
pub assume_specification[<std::path::PathBuf as Clone>::clone](p: &std::path::PathBuf) -> std::path::PathBuf;

/// `Duration::clone` copies the duration, a `Copy` type.
pub assume_specification[<core::time::Duration as Clone>::clone](d: &core::time::Duration) -> (r: core::time::Duration)
    ensures
        r == *d,
;

/// Calls `Duration::from_secs(0)`, the empty duration. What it returns is
/// left unsaid: the type is opaque here.
#[verifier::external_body]
fn zero_duration() -> Duration {
    Duration::from_secs(0)
}

/// The options of the key registry.
#[derive(Debug, Clone)]
pub struct KeyRegistryOptions {
    dir: PathBuf,
    in_memory: bool,
    read_only: bool,
    encryption_key_rotation_duration: Duration,
    encryption: Encryption,
}

/// What the options of the key registry hold.
pub struct KeyRegistryOptionsView {
    pub dir: PathBuf,
    pub in_memory: bool,
    pub read_only: bool,
    pub encryption_key_rotation_duration: Duration,
    pub encryption: (EncryptionAlgorithm, Seq<u8>),
}

impl View for KeyRegistryOptions {
    type V = KeyRegistryOptionsView;

    closed spec fn view(&self) -> KeyRegistryOptionsView {
        KeyRegistryOptionsView {
            dir: self.dir,
            in_memory: self.in_memory,
            read_only: self.read_only,
            encryption_key_rotation_duration: self.encryption_key_rotation_duration,
            encryption: self.encryption@,
        }
    }
}

impl KeyRegistryOptions {
    /// The options of a registry in `dir` (by default `registry` in the
    /// temporary directory): on disk, writable, without key rotation and
    /// without encryption.
    pub fn new(dir: PathBuf) -> (r: Self)
        ensures
            r@.dir == dir,
            !r@.in_memory,
            !r@.read_only,
            r@.encryption == (EncryptionAlgorithm::Unencrypted, Seq::<u8>::empty()),
    {
        KeyRegistryOptions {
            dir,
            in_memory: false,
            read_only: false,
            encryption_key_rotation_duration: zero_duration(),
            encryption: Encryption::new(),
        }
    }

    /// The directory of the registry.
    pub fn dir(&self) -> (r: &PathBuf)
        ensures
            *r == self@.dir,
    {
        &self.dir
    }

    /// Sets the directory.
    pub fn set_dir(self, dir: PathBuf) -> (r: Self)
        ensures
            r@ == (KeyRegistryOptionsView { dir, ..self@ }),
    {
        KeyRegistryOptions { dir, ..self }
    }

    /// Keeps the registry in memory.
    pub fn set_in_memory(self) -> (r: Self)
        ensures
            r@ == (KeyRegistryOptionsView { in_memory: true, ..self@ }),
    {
        KeyRegistryOptions { in_memory: true, ..self }
    }

    /// Whether the registry is kept in memory.
    pub fn in_memory(&self) -> (r: bool)
        ensures
            r == self@.in_memory,
    {
        self.in_memory
    }

    /// Opens the registry read-only.
    pub fn set_read_only(self) -> (r: Self)
        ensures
            r@ == (KeyRegistryOptionsView { read_only: true, ..self@ }),
    {
        KeyRegistryOptions { read_only: true, ..self }
    }

    /// Whether the registry is read-only.
    pub fn read_only(&self) -> (r: bool)
        ensures
            r == self@.read_only,
    {
        self.read_only
    }

    /// Sets how often data keys are rotated.
    pub fn set_encryption_key_rotation_duration(self, duration: Duration) -> (r: Self)
        ensures
            r@ == (KeyRegistryOptionsView { encryption_key_rotation_duration: duration, ..self@ }),
    {
        KeyRegistryOptions { encryption_key_rotation_duration: duration, ..self }
    }

    /// How often data keys are rotated.
    pub fn encryption_key_rotation_duration(&self) -> (r: Duration)
        ensures
            r == self@.encryption_key_rotation_duration,
    {
        self.encryption_key_rotation_duration
    }

    /// Sets the encryption.
    pub fn set_encryption(self, encryption: Encryption) -> (r: Self)
        ensures
            r@ == (KeyRegistryOptionsView { encryption: encryption@, ..self@ }),
    {
        KeyRegistryOptions { encryption, ..self }
    }

    /// The encryption.
    pub fn encryption(&self) -> (r: &Encryption)
        ensures
            r@ == self@.encryption,
    {
        &self.encryption
    }

    /// The secret of the encryption.
    pub fn secret(&self) -> (r: &[u8])
        ensures
            r@ == self@.encryption.1,
    {
        self.encryption.secret()
    }

    /// A copy of the secret of the encryption.
    pub fn secret_bytes(&self) -> (r: Vec<u8>)
        ensures
            r@ == self@.encryption.1,
    {
        self.encryption.secret_bytes()
    }
}

/// The options of a memtable.
#[derive(Debug, Copy, Clone, PartialEq, Eq, Hash, Structural)]
pub struct MemTableOptions {
    pub size: u64,
    pub in_memory: bool,
    pub read_only: bool,
}

impl MemTableOptions {
    /// Sets the size.
    pub fn set_size(self, size: u64) -> (r: Self)
        ensures
            r == (MemTableOptions { size, ..self }),
    {
        MemTableOptions { size, ..self }
    }

    /// The size.
    pub fn size(&self) -> (r: u64)
        ensures
            r == self.size,
    {
        self.size
    }

    /// Keeps the memtable in memory.
    pub fn set_in_memory(self) -> (r: Self)
        ensures
            r == (MemTableOptions { in_memory: true, ..self }),
    {
        MemTableOptions { in_memory: true, ..self }
    }

    /// Whether the memtable is kept in memory.
    pub fn in_memory(&self) -> (r: bool)
        ensures
            r == self.in_memory,
    {
        self.in_memory
    }

    /// Makes the memtable read-only.
    pub fn set_read_only(self) -> (r: Self)
        ensures
            r == (MemTableOptions { read_only: true, ..self }),
    {
        MemTableOptions { read_only: true, ..self }
    }

    /// Whether the memtable is read-only.
    pub fn read_only(&self) -> (r: bool)
        ensures
            r == self.read_only,
    {
        self.read_only
    }
}

/// The options of a log file.
#[derive(Debug, Copy, Clone, PartialEq, Eq, Hash, PartialOrd, Ord, Structural)]
pub struct LogFileOptions {
    pub sync_writes: bool,
    pub read_only: bool,
    pub enable_metrics: bool,
    pub mem_table_size: u64,
    pub save_on_drop: bool,
}

/// The options of the log files of a value log: its flags, and a memtable
/// twice the size of a file (wrapping at 64 bits).
pub open spec fn log_file_options_of(v: ValueLogOptionsView) -> LogFileOptions {
    LogFileOptions {
        sync_writes: v.sync_writes,
        read_only: v.read_only,
        enable_metrics: v.enable_metrics,
        mem_table_size: ((2 * v.file_size) % 0x1_0000_0000_0000_0000) as u64,
        save_on_drop: v.save_on_drop,
    }
}

impl From<ValueLogOptions> for LogFileOptions {
    fn from(opts: ValueLogOptions) -> (r: Self) {
        LogFileOptions::from_value_log_options(&opts)
    }
}

impl vstd::std_specs::convert::FromSpecImpl<ValueLogOptions> for LogFileOptions {
    open spec fn obeys_from_spec() -> bool {
        true
    }

    open spec fn from_spec(v: ValueLogOptions) -> Self {
        log_file_options_of(v@)
    }
}

impl LogFileOptions {
    /// The options of the log files of a value log.
    pub fn from_value_log_options(opts: &ValueLogOptions) -> (r: Self)
        ensures
            r == log_file_options_of(opts@),
    {
        LogFileOptions {
            sync_writes: opts.sync_writes,
            read_only: opts.read_only,
            enable_metrics: opts.enable_metrics,
            mem_table_size: opts.file_size.wrapping_mul(2),
            save_on_drop: opts.save_on_drop,
        }
    }

    /// Whether writes are synced.
    pub fn sync_writes(&self) -> (r: bool)
        ensures
            r == self.sync_writes,
    {
        self.sync_writes
    }

    /// Sets whether writes are synced.
    pub fn set_sync_writes(self, sync_writes: bool) -> (r: Self)
        ensures
            r == (LogFileOptions { sync_writes, ..self }),
    {
        LogFileOptions { sync_writes, ..self }
    }

    /// Whether the file is read-only.
    pub fn read_only(&self) -> (r: bool)
        ensures
            r == self.read_only,
    {
        self.read_only
    }

    /// Sets whether the file is read-only.
    pub fn set_read_only(self, read_only: bool) -> (r: Self)
        ensures
            r == (LogFileOptions { read_only, ..self }),
    {
        LogFileOptions { read_only, ..self }
    }

    /// Whether metrics are enabled.
    pub fn enable_metrics(&self) -> (r: bool)
        ensures
            r == self.enable_metrics,
    {
        self.enable_metrics
    }

    /// Sets whether metrics are enabled.
    pub fn set_enable_metrics(self, enable_metrics: bool) -> (r: Self)
        ensures
            r == (LogFileOptions { enable_metrics, ..self }),
    {
        LogFileOptions { enable_metrics, ..self }
    }

    /// The size of the memtable.
    pub fn mem_table_size(&self) -> (r: u64)
        ensures
            r == self.mem_table_size,
    {
        self.mem_table_size
    }

    /// Sets the size of the memtable.
    pub fn set_mem_table_size(self, mem_table_size: u64) -> (r: Self)
        ensures
            r == (LogFileOptions { mem_table_size, ..self }),
    {
        LogFileOptions { mem_table_size, ..self }
    }

    /// Whether the file is saved when dropped.
    pub fn save_on_drop(&self) -> (r: bool)
        ensures
            r == self.save_on_drop,
    {
        self.save_on_drop
    }

    /// Sets whether the file is saved when dropped.
    pub fn set_save_on_drop(self, save_on_drop: bool) -> (r: Self)
        ensures
            r == (LogFileOptions { save_on_drop, ..self }),
    {
        LogFileOptions { save_on_drop, ..self }
    }
}

/// The options of the value log.
#[derive(Debug, Clone)]
pub struct ValueLogOptions {
    size: u64,
    in_memory: bool,
    read_only: bool,
    sync_writes: bool,
    enable_metrics: bool,
    dir_path: PathBuf,
    file_size: u64,
    save_on_drop: bool,
}

/// What the options of the value log hold.
pub struct ValueLogOptionsView {
    pub size: u64,
    pub in_memory: bool,
    pub read_only: bool,
    pub sync_writes: bool,
    pub enable_metrics: bool,
    pub dir_path: PathBuf,
    pub file_size: u64,
    pub save_on_drop: bool,
}

impl View for ValueLogOptions {
    type V = ValueLogOptionsView;

    closed spec fn view(&self) -> ValueLogOptionsView {
        ValueLogOptionsView {
            size: self.size,
            in_memory: self.in_memory,
            read_only: self.read_only,
            sync_writes: self.sync_writes,
            enable_metrics: self.enable_metrics,
            dir_path: self.dir_path,
            file_size: self.file_size,
            save_on_drop: self.save_on_drop,
        }
    }
}

impl ValueLogOptions {
    /// Options of a value log in `dir_path` with every flag off and no
    /// size.
    pub fn new(dir_path: PathBuf) -> (r: Self)
        ensures
            r@ == (ValueLogOptionsView {
                size: 0,
                in_memory: false,
                read_only: false,
                sync_writes: false,
                enable_metrics: false,
                dir_path,
                file_size: 0,
                save_on_drop: false,
            }),
    {
        ValueLogOptions {
            size: 0,
            in_memory: false,
            read_only: false,
            sync_writes: false,
            enable_metrics: false,
            dir_path,
            file_size: 0,
            save_on_drop: false,
        }
    }

    /// The size.
    pub fn size(&self) -> (r: u64)
        ensures
            r == self@.size,
    {
        self.size
    }

    /// Sets the size.
    pub fn set_size(self, size: u64) -> (r: Self)
        ensures
            r@ == (ValueLogOptionsView { size, ..self@ }),
    {
        ValueLogOptions { size, ..self }
    }

    /// Whether the value log is kept in memory.
    pub fn in_memory(&self) -> (r: bool)
        ensures
            r == self@.in_memory,
    {
        self.in_memory
    }

    /// Sets whether the value log is kept in memory.
    pub fn set_in_memory(self, in_memory: bool) -> (r: Self)
        ensures
            r@ == (ValueLogOptionsView { in_memory, ..self@ }),
    {
        ValueLogOptions { in_memory, ..self }
    }

    /// Whether the value log is read-only.
    pub fn read_only(&self) -> (r: bool)
        ensures
            r == self@.read_only,
    {
        self.read_only
    }

    /// Sets whether the value log is read-only.
    pub fn set_read_only(self, read_only: bool) -> (r: Self)
        ensures
            r@ == (ValueLogOptionsView { read_only, ..self@ }),
    {
        ValueLogOptions { read_only, ..self }
    }

    /// Whether writes are synced.
    pub fn sync_writes(&self) -> (r: bool)
        ensures
            r == self@.sync_writes,
    {
        self.sync_writes
    }

    /// Sets whether writes are synced.
    pub fn set_sync_writes(self, sync_writes: bool) -> (r: Self)
        ensures
            r@ == (ValueLogOptionsView { sync_writes, ..self@ }),
    {
        ValueLogOptions { sync_writes, ..self }
    }

    /// Whether metrics are enabled.
    pub fn enable_metrics(&self) -> (r: bool)
        ensures
            r == self@.enable_metrics,
    {
        self.enable_metrics
    }

    /// Sets whether metrics are enabled.
    pub fn set_enable_metrics(self, enable_metrics: bool) -> (r: Self)
        ensures
            r@ == (ValueLogOptionsView { enable_metrics, ..self@ }),
    {
        ValueLogOptions { enable_metrics, ..self }
    }

    /// The directory of the value log.
    pub fn dir_path(&self) -> (r: &PathBuf)
        ensures
            *r == self@.dir_path,
    {
        &self.dir_path
    }

    /// Sets the directory of the value log.
    pub fn set_dir_path(self, dir_path: PathBuf) -> (r: Self)
        ensures
            r@ == (ValueLogOptionsView { dir_path, ..self@ }),
    {
        ValueLogOptions { dir_path, ..self }
    }

    /// The size of a file.
    pub fn file_size(&self) -> (r: u64)
        ensures
            r == self@.file_size,
    {
        self.file_size
    }

    /// Sets the size of a file.
    pub fn set_file_size(self, file_size: u64) -> (r: Self)
        ensures
            r@ == (ValueLogOptionsView { file_size, ..self@ }),
    {
        ValueLogOptions { file_size, ..self }
    }

    /// Whether files are saved when dropped.
    pub fn save_on_drop(&self) -> (r: bool)
        ensures
            r == self@.save_on_drop,
    {
        self.save_on_drop
    }

    /// Sets whether files are saved when dropped.
    pub fn set_save_on_drop(self, save_on_drop: bool) -> (r: Self)
        ensures
            r@ == (ValueLogOptionsView { save_on_drop, ..self@ }),
    {
        ValueLogOptions { save_on_drop, ..self }
    }
}

} // verus!
