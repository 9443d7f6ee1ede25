//! The records that the store exchanges in protobuf form: key-value
//! messages, manifest changes, data keys, block offsets and table indexes.
//! Enumerations are stored as their protobuf numbers; reading one back
//! gives the default variant for a number that names none.
use vstd::prelude::*;
use crate::encrypt::{encryption_algorithm_number, EncryptionAlgorithm};
use crate::proto::{pb_bytes_field, pb_put_bytes, pb_put_uint32, pb_put_uint64, pb_varint_field};

verus! {

/// The kind of a key-value message.
#[derive(Copy, Clone, Debug, PartialEq, Eq, Hash, PartialOrd, Ord, Structural)]
pub enum Kind {
    Key,
    DataKey,
    File,
}

/// The protobuf number of a kind.
pub open spec fn kind_number(k: Kind) -> i32 {
    match k {
        Kind::Key => 0,
        Kind::DataKey => 1,
        Kind::File => 2,
    }
}

/// The kind of a protobuf number, if it names one.
pub open spec fn kind_of(v: int) -> Option<Kind> {
    if v == 0 {
        Some(Kind::Key)
    } else if v == 1 {
        Some(Kind::DataKey)
    } else if v == 2 {
        Some(Kind::File)
    } else {
        None
    }
}

/// The error of a number that names no kind.
#[derive(Copy, Clone, Debug, Default, PartialEq, Eq, Hash, Structural)]
pub struct InvalidKvKind;

impl InvalidKvKind {
    /// The message of the error.
    pub fn to_string(&self) -> (r: String)
        ensures
            r@ == "invalid key-value message kind"@,
    {
        "invalid key-value message kind".to_owned()
    }
}

impl Default for Kind {
    fn default() -> (r: Self)
        ensures
            r == Kind::Key,
    {
        Kind::Key
    }
}

impl Kind {
    /// The name of the kind in the protobuf definition.
    pub fn as_str_name(&self) -> (r: &'static str)
        ensures
            r@ == (match *self {
                Kind::Key => "KEY"@,
                Kind::DataKey => "DATA_KEY"@,
                Kind::File => "FILE"@,
            }),
    {
        match self {
            Kind::Key => "KEY",
            Kind::DataKey => "DATA_KEY",
            Kind::File => "FILE",
        }
    }

    /// The protobuf number of the kind.
    pub fn to_i32(&self) -> (r: i32)
        ensures
            r == kind_number(*self),
    {
        match self {
            Kind::Key => 0,
            Kind::DataKey => 1,
            Kind::File => 2,
        }
    }

    /// Whether `value` is the number of a kind.
    pub fn is_valid(value: i32) -> (r: bool)
        ensures
            r == kind_of(value as int) is Some,
    {
        0 <= value && value <= 2
    }

    /// The kind of a number, if there is one.
    pub fn from_i32(value: i32) -> (r: Option<Self>)
        ensures
            r == kind_of(value as int),
    {
        match Self::try_from_number(value as i128) {
            Ok(k) => Some(k),
            Err(_) => None,
        }
    }

    /// The kind of a number, or the error for a number that names none.
    pub fn try_from_number(value: i128) -> (r: Result<Self, InvalidKvKind>)
        ensures
            r matches Ok(k) ==> kind_of(value as int) == Some(k),
            r is Err <==> kind_of(value as int) is None,
    {
        if value == 0 {
            Ok(Kind::Key)
        } else if value == 1 {
            Ok(Kind::DataKey)
        } else if value == 2 {
            Ok(Kind::File)
        } else {
            Err(InvalidKvKind)
        }
    }
}

/// A key-value message.
#[derive(Clone, Debug, PartialEq, Eq, Hash)]
pub struct Kv {
    pub key: Vec<u8>,
    pub value: Vec<u8>,
    pub user_meta: Vec<u8>,
    pub version: u64,
    pub expires_at: u64,
    pub meta: Vec<u8>,
    /// The stream the message came from.
    pub stream_id: u32,
    /// Whether the stream ends here.
    pub stream_done: bool,
    /// The protobuf number of the kind.
    pub kind: i32,
}

impl Default for Kv {
    fn default() -> (r: Self)
        ensures
            r.key@.len() == 0 && r.value@.len() == 0 && r.user_meta@.len() == 0 && r.meta@.len() == 0,
            r.version == 0 && r.expires_at == 0 && r.stream_id == 0 && !r.stream_done && r.kind == 0,
    {
        Self::new()
    }
}

impl Kv {
    /// An empty message.
    pub fn new() -> (r: Self)
        ensures
            r.key@.len() == 0 && r.value@.len() == 0 && r.user_meta@.len() == 0 && r.meta@.len() == 0,
            r.version == 0 && r.expires_at == 0 && r.stream_id == 0 && !r.stream_done && r.kind == 0,
    {
        Kv {
            key: Vec::new(),
            value: Vec::new(),
            user_meta: Vec::new(),
            version: 0,
            expires_at: 0,
            meta: Vec::new(),
            stream_id: 0,
            stream_done: false,
            kind: 0,
        }
    }

    /// The kind, `Key` when the number names none.
    pub fn kind(&self) -> (r: Kind)
        ensures
            r == (match kind_of(self.kind as int) {
                Some(k) => k,
                None => Kind::Key,
            }),
    {
        match Kind::from_i32(self.kind) {
            Some(k) => k,
            None => Kind::Key,
        }
    }

    /// Sets the kind.
    pub fn set_kind(&mut self, value: Kind)
        ensures
            final(self).kind == kind_number(value),
            final(self).key == old(self).key,
            final(self).value == old(self).value,
            final(self).user_meta == old(self).user_meta,
            final(self).meta == old(self).meta,
            final(self).version == old(self).version,
            final(self).expires_at == old(self).expires_at,
            final(self).stream_id == old(self).stream_id,
            final(self).stream_done == old(self).stream_done,
    {
        self.kind = value.to_i32();
    }
}

/// A list of key-value messages.
#[derive(Clone, Debug, PartialEq, Eq, Hash)]
pub struct KvList {
    pub kv: Vec<Kv>,
    /// Used internally for memory management.
    pub alloc_ref: u64,
}

impl Default for KvList {
    fn default() -> (r: Self)
        ensures
            r.kv@.len() == 0,
            r.alloc_ref == 0,
    {
        Self::new()
    }
}

impl KvList {
    /// An empty list.
    pub fn new() -> (r: Self)
        ensures
            r.kv@.len() == 0,
            r.alloc_ref == 0,
    {
        KvList { kv: Vec::new(), alloc_ref: 0 }
    }
}

/// The operation of a manifest change.
#[derive(Copy, Clone, Debug, PartialEq, Eq, Hash, PartialOrd, Ord, Structural)]
pub enum Operation {
    Create,
    Delete,
}

/// The protobuf number of an operation.
pub open spec fn operation_number(o: Operation) -> i32 {
    match o {
        Operation::Create => 0,
        Operation::Delete => 1,
    }
}

/// The operation of a protobuf number, if it names one.
pub open spec fn operation_of(v: int) -> Option<Operation> {
    if v == 0 {
        Some(Operation::Create)
    } else if v == 1 {
        Some(Operation::Delete)
    } else {
        None
    }
}

/// The error of a number that names no operation.
#[derive(Copy, Clone, Debug, Default, PartialEq, Eq, Hash, Structural)]
pub struct InvalidManifestChangeOperation;

impl InvalidManifestChangeOperation {
    /// The message of the error.
    pub fn to_string(&self) -> (r: String)
        ensures
            r@ == "invalid manifest change operation"@,
    {
        "invalid manifest change operation".to_owned()
    }
}

impl Default for Operation {
    fn default() -> (r: Self)
        ensures
            r == Operation::Create,
    {
        Operation::Create
    }
}

impl Operation {
    /// The name of the operation in the protobuf definition.
    pub fn as_str_name(&self) -> (r: &'static str)
        ensures
            r@ == (match *self {
                Operation::Create => "CREATE"@,
                Operation::Delete => "DELETE"@,
            }),
    {
        match self {
            Operation::Create => "CREATE",
            Operation::Delete => "DELETE",
        }
    }

    /// The protobuf number of the operation.
    pub fn to_i32(&self) -> (r: i32)
        ensures
            r == operation_number(*self),
    {
        match self {
            Operation::Create => 0,
            Operation::Delete => 1,
        }
    }

    /// Whether `value` is the number of an operation.
    pub fn is_valid(value: i32) -> (r: bool)
        ensures
            r == operation_of(value as int) is Some,
    {
        0 <= value && value <= 1
    }

    /// The operation of a number, if there is one.
    pub fn from_i32(value: i32) -> (r: Option<Self>)
        ensures
            r == operation_of(value as int),
    {
        match Self::try_from_number(value as i128) {
            Ok(o) => Some(o),
            Err(_) => None,
        }
    }

    /// The operation of a number, or the error for a number that names
    /// none.
    pub fn try_from_number(value: i128) -> (r: Result<Self, InvalidManifestChangeOperation>)
        ensures
            r matches Ok(o) ==> operation_of(value as int) == Some(o),
            r is Err <==> operation_of(value as int) is None,
    {
        if value == 0 {
            Ok(Operation::Create)
        } else if value == 1 {
            Ok(Operation::Delete)
        } else {
            Err(InvalidManifestChangeOperation)
        }
    }
}

/// A change of the manifest: a table created at a level or deleted.
#[derive(Copy, Clone, Debug, PartialEq, Eq, Hash, Structural)]
pub struct ManifestChange {
    /// The table.
    pub id: u64,
    /// The protobuf number of the operation.
    pub op: i32,
    /// The level, for a creation.
    pub level: u32,
    pub key_id: u64,
    /// The protobuf number of the encryption algorithm.
    pub encryption_algo: i32,
    /// The compression, for a creation.
    pub compression: u32,
}

impl Default for ManifestChange {
    fn default() -> (r: Self)
        ensures
            r == (ManifestChange { id: 0, op: 0, level: 0, key_id: 0, encryption_algo: 0, compression: 0 }),
    {
        Self::new()
    }
}

impl ManifestChange {
    /// An empty change.
    pub fn new() -> (r: Self)
        ensures
            r == (ManifestChange { id: 0, op: 0, level: 0, key_id: 0, encryption_algo: 0, compression: 0 }),
    {
        ManifestChange { id: 0, op: 0, level: 0, key_id: 0, encryption_algo: 0, compression: 0 }
    }

    /// The creation of table `id` at `level` (truncated to 32 bits).
    pub fn new_create_change(
        id: u64,
        level: usize,
        key_id: u64,
        encryption_algo: EncryptionAlgorithm,
        compression_ty: u32,
    ) -> (r: Self)
        ensures
            r == (ManifestChange {
                id,
                op: 0,
                level: (level as nat % 0x1_0000_0000) as u32,
                key_id,
                encryption_algo: encryption_algorithm_number(encryption_algo),
                compression: compression_ty,
            }),
    {
        ManifestChange {
            id,
            op: Operation::Create.to_i32(),
            level: ((level as u64) % 0x1_0000_0000) as u32,
            key_id,
            encryption_algo: encryption_algo.to_i32(),
            compression: compression_ty,
        }
    }

    /// The deletion of table `id`.
    pub fn new_delete_change(id: u64, encryption_algo: EncryptionAlgorithm) -> (r: Self)
        ensures
            r == (ManifestChange {
                id,
                op: 1,
                level: 0,
                key_id: 0,
                encryption_algo: encryption_algorithm_number(encryption_algo),
                compression: 0,
            }),
    {
        ManifestChange {
            id,
            op: Operation::Delete.to_i32(),
            level: 0,
            key_id: 0,
            encryption_algo: encryption_algo.to_i32(),
            compression: 0,
        }
    }

    /// The operation, `Create` when the number names none.
    pub fn op(&self) -> (r: Operation)
        ensures
            r == (match operation_of(self.op as int) {
                Some(o) => o,
                None => Operation::Create,
            }),
    {
        match Operation::from_i32(self.op) {
            Some(o) => o,
            None => Operation::Create,
        }
    }

    /// Sets the operation.
    pub fn set_op(&mut self, value: Operation)
        ensures
            *final(self) == (ManifestChange { op: operation_number(value), ..*old(self) }),
    {
        self.op = value.to_i32();
    }

    /// The encryption algorithm, none when the number names none.
    pub fn encryption_algo(&self) -> (r: EncryptionAlgorithm)
        ensures
            r == (if self.encryption_algo == 1 { EncryptionAlgorithm::Aes } else { EncryptionAlgorithm::Unencrypted }),
    {
        EncryptionAlgorithm::from_number(self.encryption_algo as i64)
    }

    /// Sets the encryption algorithm.
    pub fn set_encryption_algo(&mut self, value: EncryptionAlgorithm)
        ensures
            *final(self) == (ManifestChange { encryption_algo: encryption_algorithm_number(value), ..*old(self) }),
    {
        self.encryption_algo = value.to_i32();
    }
}

/// A set of changes that are applied together.
#[derive(Clone, Debug, PartialEq, Eq, Hash)]
pub struct ManifestChangeSet {
    pub changes: Vec<ManifestChange>,
}

impl Default for ManifestChangeSet {
    fn default() -> (r: Self)
        ensures
            r.changes@.len() == 0,
    {
        Self::new()
    }
}

impl ManifestChangeSet {
    /// An empty set.
    pub fn new() -> (r: Self)
        ensures
            r.changes@.len() == 0,
    {
        ManifestChangeSet { changes: Vec::new() }
    }
}

/// A data key of the key registry.
#[derive(Clone, Debug, PartialEq, Eq)]
pub struct DataKey {
    pub key_id: u64,
    pub data: Vec<u8>,
    pub iv: Vec<u8>,
    pub created_at: u64,
}

impl Default for DataKey {
    fn default() -> (r: Self)
        ensures
            r.key_id == 0 && r.data@.len() == 0 && r.iv@.len() == 0 && r.created_at == 0,
    {
        Self::new()
    }
}

impl DataKey {
    /// An empty data key.
    pub fn new() -> (r: Self)
        ensures
            r.key_id == 0 && r.data@.len() == 0 && r.iv@.len() == 0 && r.created_at == 0,
    {
        DataKey { key_id: 0, data: Vec::new(), iv: Vec::new(), created_at: 0 }
    }
}

/// A prefix to match, with bytes to ignore.
#[derive(Clone, Debug, PartialEq, Eq, Hash)]
pub struct Match {
    pub prefix: Vec<u8>,
    /// Comma-separated positions and ranges, such as "1, 2-3, 4-7, 9".
    pub ignore_bytes: String,
}

impl Default for Match {
    fn default() -> (r: Self)
        ensures
            r.prefix@.len() == 0,
            r.ignore_bytes@.len() == 0,
    {
        Self::new()
    }
}

impl Match {
    /// An empty match.
    pub fn new() -> (r: Self)
        ensures
            r.prefix@.len() == 0,
            r.ignore_bytes@.len() == 0,
    {
        Match { prefix: Vec::new(), ignore_bytes: String::new() }
    }
}

/// Where a block lies in a table, and its first key.
#[derive(Clone, Debug, PartialEq, Eq, Hash)]
pub struct BlockOffset {
    pub key: Vec<u8>,
    pub offset: u32,
    pub len: u32,
}

impl Default for BlockOffset {
    fn default() -> (r: Self)
        ensures
            r.key@.len() == 0 && r.offset == 0 && r.len == 0,
    {
        Self::new()
    }
}

impl BlockOffset {
    /// An empty block offset.
    pub fn new() -> (r: Self)
        ensures
            r.key@.len() == 0 && r.offset == 0 && r.len == 0,
    {
        BlockOffset { key: Vec::new(), offset: 0, len: 0 }
    }
}

/// The index of a table: where its blocks are, its bloom filter and its
/// sizes.
#[derive(Clone, Debug, PartialEq, Eq, Hash)]
pub struct TableIndex {
    pub offsets: Vec<BlockOffset>,
    pub bloom_filter: Vec<u8>,
    pub estimated_size: u32,
    pub max_version: u64,
    pub key_count: u32,
    pub uncompressed_size: u32,
    pub stale_data_size: u32,
}

impl Default for TableIndex {
    fn default() -> (r: Self)
        ensures
            r.offsets@.len() == 0 && r.bloom_filter@.len() == 0,
            r.estimated_size == 0 && r.max_version == 0 && r.key_count == 0,
            r.uncompressed_size == 0 && r.stale_data_size == 0,
    {
        Self::new()
    }
}

impl TableIndex {
    /// An empty index.
    pub fn new() -> (r: Self)
        ensures
            r.offsets@.len() == 0 && r.bloom_filter@.len() == 0,
            r.estimated_size == 0 && r.max_version == 0 && r.key_count == 0,
            r.uncompressed_size == 0 && r.stale_data_size == 0,
    {
        TableIndex {
            offsets: Vec::new(),
            bloom_filter: Vec::new(),
            estimated_size: 0,
            max_version: 0,
            key_count: 0,
            uncompressed_size: 0,
            stale_data_size: 0,
        }
    }
}

/// The protobuf encoding of a block offset: the fields that are not zero
/// or empty, in field order.
pub open spec fn block_offset_encoding(bo: BlockOffset) -> Seq<u8> {
    (if bo.key@.len() != 0 { pb_bytes_field(1, bo.key@) } else { Seq::empty() })
    + (if bo.offset != 0 { pb_varint_field(2, bo.offset as nat) } else { Seq::empty() })
    + (if bo.len != 0 { pb_varint_field(3, bo.len as nat) } else { Seq::empty() })
}

/// The encoding of the block offsets of an index: each as a
/// length-delimited field 1.
pub open spec fn block_offsets_encoding(offs: Seq<BlockOffset>) -> Seq<u8>
    decreases offs.len(),
{
    if offs.len() == 0 {
        Seq::empty()
    } else {
        block_offsets_encoding(offs.drop_last()) + pb_bytes_field(1, block_offset_encoding(offs.last()))
    }
}

/// The protobuf encoding of a table index: its block offsets, then the
/// other fields that are not zero or empty, in field order.
pub open spec fn table_index_encoding(t: TableIndex) -> Seq<u8> {
    block_offsets_encoding(t.offsets@)
    + (if t.bloom_filter@.len() != 0 { pb_bytes_field(2, t.bloom_filter@) } else { Seq::empty() })
    + (if t.estimated_size != 0 { pb_varint_field(3, t.estimated_size as nat) } else { Seq::empty() })
    + (if t.max_version != 0 { pb_varint_field(4, t.max_version as nat) } else { Seq::empty() })
    + (if t.key_count != 0 { pb_varint_field(5, t.key_count as nat) } else { Seq::empty() })
    + (if t.uncompressed_size != 0 { pb_varint_field(6, t.uncompressed_size as nat) } else { Seq::empty() })
    + (if t.stale_data_size != 0 { pb_varint_field(7, t.stale_data_size as nat) } else { Seq::empty() })
}

impl BlockOffset {
    /// The protobuf encoding of the block offset.
    pub fn marshal(&self) -> (r: Vec<u8>)
        ensures
            r@ == block_offset_encoding(*self),
    {
        let mut buf: Vec<u8> = Vec::new();
        if self.key.len() != 0 {
            pb_put_bytes(1, self.key.as_slice(), &mut buf);
        }
        if self.offset != 0 {
            pb_put_uint32(2, self.offset, &mut buf);
        }
        if self.len != 0 {
            pb_put_uint32(3, self.len, &mut buf);
        }
        proof {
            assert(buf@ =~= block_offset_encoding(*self));
        }
        buf
    }
}

impl TableIndex {
    /// The protobuf encoding of the index.
    pub fn marshal(&self) -> (r: Vec<u8>)
        ensures
            r@ == table_index_encoding(*self),
    {
        let mut buf: Vec<u8> = Vec::new();
        let n = self.offsets.len();
        let mut i: usize = 0;
        proof {
            assert(self.offsets@.take(0) =~= Seq::<BlockOffset>::empty());
        }
        while i < n
            invariant
                i <= n,
                n == self.offsets@.len(),
                buf@ == block_offsets_encoding(self.offsets@.take(i as int)),
            decreases n - i,
        {
            let body = self.offsets[i].marshal();
            pb_put_bytes(1, body.as_slice(), &mut buf);
            proof {
                assert(self.offsets@.take(i + 1).drop_last() =~= self.offsets@.take(i as int));
            }
            i = i + 1;
        }
        proof {
            assert(self.offsets@.take(n as int) =~= self.offsets@);
        }
        if self.bloom_filter.len() != 0 {
            pb_put_bytes(2, self.bloom_filter.as_slice(), &mut buf);
        }
        if self.estimated_size != 0 {
            pb_put_uint32(3, self.estimated_size, &mut buf);
        }
        if self.max_version != 0 {
            pb_put_uint64(4, self.max_version, &mut buf);
        }
        if self.key_count != 0 {
            pb_put_uint32(5, self.key_count, &mut buf);
        }
        if self.uncompressed_size != 0 {
            pb_put_uint32(6, self.uncompressed_size, &mut buf);
        }
        if self.stale_data_size != 0 {
            pb_put_uint32(7, self.stale_data_size, &mut buf);
        }
        proof {
            assert(buf@ =~= table_index_encoding(*self));
        }
        buf
    }
}

} // verus!
