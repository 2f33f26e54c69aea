//! Storage layer rules: database names, the byte encoding of record ids,
//! the owner key status and the database header.

use vstd::prelude::*;
use vstd::string::StringExecFns;
use vstd::string::StringSliceAdditionalSpecFns;
use crate::error::StorageError;
use crate::schema::{all_name_chars, check_name_chars, lemma_name_chars_bytes};
use crate::text::{chars_of, str_eq};

verus! {

/// A database name is valid when it has 1 to 64 characters, is neither `local` nor
/// `mgmt`, and holds only `a-z`, `0-9`, `-`, `_`.
pub open spec fn spec_database_name_valid(s: &str) -> bool {
    &&& 1 <= s@.len() <= 64
    &&& s@ != "local"@
    &&& s@ != "mgmt"@
    &&& all_name_chars(s@)
}

/// Validate a database name: lowercase alphanumeric, hyphens, underscores, at most
/// 64 characters, not "local" nor "mgmt".
pub fn validate_database_name(name: &str) -> (r: Result<(), StorageError>)
    ensures
        r is Ok <==> spec_database_name_valid(name),
        r is Err ==> r->Err_0 is InvalidDatabaseName,
{
    let chars = chars_of(name);
    proof {
        if all_name_chars(name@) {
            lemma_name_chars_bytes(name);
        }
    }
    if chars.len() == 0 {
        return Err(StorageError::InvalidDatabaseName(String::from_str("name cannot be empty")));
    }
    if name.len() > 64 {
        return Err(StorageError::InvalidDatabaseName(String::from_str("name exceeds 64 characters")));
    }
    if str_eq(name, "local") || str_eq(name, "mgmt") {
        let mut msg = String::from_str("'");
        msg.append(name);
        msg.append("' is a reserved name");
        return Err(StorageError::InvalidDatabaseName(msg));
    }
    if !check_name_chars(name) {
        return Err(
            StorageError::InvalidDatabaseName(
                String::from_str(
                    "name must contain only lowercase alphanumeric, hyphens, and underscores",
                ),
            ),
        );
    }
    Ok(())
}

/// The 8-byte big-endian encoding of a record id (two's complement).
pub open spec fn spec_encode_id(id: i64) -> Seq<u8> {
    let x = id as u64;
    seq![
        (x >> 56u64) as u8,
        (x >> 48u64) as u8,
        (x >> 40u64) as u8,
        (x >> 32u64) as u8,
        (x >> 24u64) as u8,
        (x >> 16u64) as u8,
        (x >> 8u64) as u8,
        x as u8,
    ]
}

/// The id that 8 big-endian bytes encode.
pub open spec fn spec_decode_id(b: Seq<u8>) -> i64 {
    ((b[0] as u64) << 56u64 | (b[1] as u64) << 48u64 | (b[2] as u64) << 40u64 | (b[3] as u64)
        << 32u64 | (b[4] as u64) << 24u64 | (b[5] as u64) << 16u64 | (b[6] as u64) << 8u64 | (
    b[7] as u64)) as i64
}

/// Encode a record id as 8 big-endian bytes.
pub fn encode_id(id: i64) -> (r: Vec<u8>)
    ensures
        r@ == spec_encode_id(id),
{
    let x = id as u64;
    let r = vec![
        (x >> 56u64) as u8,
        (x >> 48u64) as u8,
        (x >> 40u64) as u8,
        (x >> 32u64) as u8,
        (x >> 24u64) as u8,
        (x >> 16u64) as u8,
        (x >> 8u64) as u8,
        x as u8,
    ];
    proof {
        assert(r@ =~= spec_encode_id(id));
    }
    r
}

/// Decode a record id from 8 big-endian bytes; any other length is an error.
pub fn decode_id(bytes: &[u8]) -> (r: Result<i64, StorageError>)
    ensures
        r is Ok <==> bytes@.len() == 8,
        r matches Ok(id) ==> id == spec_decode_id(bytes@),
        r matches Err(e) ==> e is Serialization,
{
    if bytes.len() != 8 {
        return Err(
            StorageError::Serialization(String::from_str("invalid id bytes: expected 8 bytes")),
        );
    }
    let x: u64 = (bytes[0] as u64) << 56u64 | (bytes[1] as u64) << 48u64 | (bytes[2] as u64)
        << 40u64 | (bytes[3] as u64) << 32u64 | (bytes[4] as u64) << 24u64 | (bytes[5] as u64)
        << 16u64 | (bytes[6] as u64) << 8u64 | (bytes[7] as u64);
    Ok(x as i64)
}

/// Decoding the encoding of an id gives the id back.
pub proof fn lemma_id_roundtrip(id: i64)
    ensures
        spec_encode_id(id).len() == 8,
        spec_decode_id(spec_encode_id(id)) == id,
{
    let x = id as u64;
    let b = spec_encode_id(id);
    assert(((((x >> 56u64) as u8) as u64) << 56u64 | (((x >> 48u64) as u8) as u64) << 48u64 | (((x
        >> 40u64) as u8) as u64) << 40u64 | (((x >> 32u64) as u8) as u64) << 32u64 | (((x >> 24u64)
        as u8) as u64) << 24u64 | (((x >> 16u64) as u8) as u64) << 16u64 | (((x >> 8u64) as u8)
        as u64) << 8u64 | ((x as u8) as u64)) == x) by (bit_vector);
    assert((x as i64) == id) by (bit_vector)
        requires
            x == id as u64,
    ;
}

/// Whether `x` comes before `y` in byte-wise lexicographic order (sequences of
/// equal length).
pub open spec fn bytes_lt(x: Seq<u8>, y: Seq<u8>) -> bool {
    exists|i: int|
        0 <= i < x.len() && i < y.len() && x[i] < y[i] && forall|j: int| 0 <= j < i ==> #[trigger] x[j] == y[j]
}

/// The encoding keeps the order of non-negative ids: a smaller id's bytes sort first.
pub proof fn lemma_encode_id_order(a: i64, b: i64)
    requires
        0 <= a < b,
    ensures
        bytes_lt(spec_encode_id(a), spec_encode_id(b)),
{
    let x = a as u64;
    let y = b as u64;
    assert(x < y) by (bit_vector)
        requires
            0 <= a < b,
            x == a as u64,
            y == b as u64,
    ;
    let ea = spec_encode_id(a);
    let eb = spec_encode_id(b);
    assert((x >> 56u64) as u8 <= (y >> 56u64) as u8) by (bit_vector)
        requires
            x < y,
    ;
    if (x >> 56u64) as u8 != (y >> 56u64) as u8 {
        assert(ea[0] < eb[0]);
    } else {
        assert((x >> 48u64) as u8 <= (y >> 48u64) as u8) by (bit_vector)
            requires
                x < y,
                (x >> 56u64) as u8 == (y >> 56u64) as u8,
        ;
        if (x >> 48u64) as u8 != (y >> 48u64) as u8 {
            assert(ea[1] < eb[1] && ea[0] == eb[0]);
        } else {
            assert((x >> 40u64) as u8 <= (y >> 40u64) as u8) by (bit_vector)
                requires
                    x < y,
                    (x >> 56u64) as u8 == (y >> 56u64) as u8,
                    (x >> 48u64) as u8 == (y >> 48u64) as u8,
            ;
            if (x >> 40u64) as u8 != (y >> 40u64) as u8 {
                assert(ea[2] < eb[2] && ea[0] == eb[0] && ea[1] == eb[1]);
            } else {
                assert((x >> 32u64) as u8 <= (y >> 32u64) as u8) by (bit_vector)
                    requires
                        x < y,
                        (x >> 56u64) as u8 == (y >> 56u64) as u8,
                        (x >> 48u64) as u8 == (y >> 48u64) as u8,
                        (x >> 40u64) as u8 == (y >> 40u64) as u8,
                ;
                if (x >> 32u64) as u8 != (y >> 32u64) as u8 {
                    assert(ea[3] < eb[3] && ea[0] == eb[0] && ea[1] == eb[1] && ea[2] == eb[2]);
                } else {
                    lemma_encode_id_order_low(x, y);
                    if (x >> 24u64) as u8 != (y >> 24u64) as u8 {
                        assert(ea[4] < eb[4]);
                        assert(forall|j: int| 0 <= j < 4 ==> #[trigger] ea[j] == eb[j]);
                    } else if (x >> 16u64) as u8 != (y >> 16u64) as u8 {
                        assert(ea[5] < eb[5]);
                        assert(forall|j: int| 0 <= j < 5 ==> #[trigger] ea[j] == eb[j]);
                    } else if (x >> 8u64) as u8 != (y >> 8u64) as u8 {
                        assert(ea[6] < eb[6]);
                        assert(forall|j: int| 0 <= j < 6 ==> #[trigger] ea[j] == eb[j]);
                    } else {
                        assert(ea[7] < eb[7]);
                        assert(forall|j: int| 0 <= j < 7 ==> #[trigger] ea[j] == eb[j]);
                    }
                }
            }
        }
    }
}

/// The low four bytes of two ids whose high four bytes agree decide their order.
proof fn lemma_encode_id_order_low(x: u64, y: u64)
    requires
        x < y,
        (x >> 56u64) as u8 == (y >> 56u64) as u8,
        (x >> 48u64) as u8 == (y >> 48u64) as u8,
        (x >> 40u64) as u8 == (y >> 40u64) as u8,
        (x >> 32u64) as u8 == (y >> 32u64) as u8,
    ensures
        (x >> 24u64) as u8 <= (y >> 24u64) as u8,
        (x >> 24u64) as u8 == (y >> 24u64) as u8 ==> (x >> 16u64) as u8 <= (y >> 16u64) as u8,
        (x >> 24u64) as u8 == (y >> 24u64) as u8 && (x >> 16u64) as u8 == (y >> 16u64) as u8 ==> (x
            >> 8u64) as u8 <= (y >> 8u64) as u8,
        (x >> 24u64) as u8 == (y >> 24u64) as u8 && (x >> 16u64) as u8 == (y >> 16u64) as u8 && (x
            >> 8u64) as u8 == (y >> 8u64) as u8 ==> (x as u8) < (y as u8),
{
    assert((x >> 24u64) as u8 <= (y >> 24u64) as u8) by (bit_vector)
        requires
            x < y,
            (x >> 56u64) as u8 == (y >> 56u64) as u8,
            (x >> 48u64) as u8 == (y >> 48u64) as u8,
            (x >> 40u64) as u8 == (y >> 40u64) as u8,
            (x >> 32u64) as u8 == (y >> 32u64) as u8,
    ;
    if (x >> 24u64) as u8 == (y >> 24u64) as u8 {
        assert((x >> 16u64) as u8 <= (y >> 16u64) as u8) by (bit_vector)
            requires
                x < y,
                (x >> 56u64) as u8 == (y >> 56u64) as u8,
                (x >> 48u64) as u8 == (y >> 48u64) as u8,
                (x >> 40u64) as u8 == (y >> 40u64) as u8,
                (x >> 32u64) as u8 == (y >> 32u64) as u8,
                (x >> 24u64) as u8 == (y >> 24u64) as u8,
        ;
        if (x >> 16u64) as u8 == (y >> 16u64) as u8 {
            assert((x >> 8u64) as u8 <= (y >> 8u64) as u8) by (bit_vector)
                requires
                    x < y,
                    (x >> 56u64) as u8 == (y >> 56u64) as u8,
                    (x >> 48u64) as u8 == (y >> 48u64) as u8,
                    (x >> 40u64) as u8 == (y >> 40u64) as u8,
                    (x >> 32u64) as u8 == (y >> 32u64) as u8,
                    (x >> 24u64) as u8 == (y >> 24u64) as u8,
                    (x >> 16u64) as u8 == (y >> 16u64) as u8,
            ;
            if (x >> 8u64) as u8 == (y >> 8u64) as u8 {
                assert((x as u8) < (y as u8)) by (bit_vector)
                    requires
                        x < y,
                        (x >> 56u64) as u8 == (y >> 56u64) as u8,
                        (x >> 48u64) as u8 == (y >> 48u64) as u8,
                        (x >> 40u64) as u8 == (y >> 40u64) as u8,
                        (x >> 32u64) as u8 == (y >> 32u64) as u8,
                        (x >> 24u64) as u8 == (y >> 24u64) as u8,
                        (x >> 16u64) as u8 == (y >> 16u64) as u8,
                        (x >> 8u64) as u8 == (y >> 8u64) as u8,
                ;
            }
        }
    }
}

/// Owner key status for keypair-bound databases.
#[derive(Debug, Clone, Copy, PartialEq, Eq, Structural)]
pub enum OwnerKeyStatus {
    Verified,
    Mismatch,
    Unbound,
}

/// The owner key status of a storage engine: mismatch mode wins, then a data
/// encryption key means verified, otherwise unbound.
pub fn owner_key_status(mismatch: bool, has_dek: bool) -> (r: OwnerKeyStatus)
    ensures
        r == (if mismatch {
            OwnerKeyStatus::Mismatch
        } else if has_dek {
            OwnerKeyStatus::Verified
        } else {
            OwnerKeyStatus::Unbound
        }),
{
    if mismatch {
        OwnerKeyStatus::Mismatch
    } else if has_dek {
        OwnerKeyStatus::Verified
    } else {
        OwnerKeyStatus::Unbound
    }
}

/// Database header stored in the `__db_header__` tree: sealed data encryption key,
/// owner fingerprint, schema version and database name.
#[derive(Debug, Clone)]
pub struct DbHeader {
    pub sealed_dek: Vec<u8>,
    pub owner_fingerprint: String,
    pub db_version: u32,
    pub database_name: Option<String>,
}

/// A single migration operation.
#[derive(Debug, Clone)]
pub enum MigrationOp {
    /// Rename a tree (copies all key-value pairs to the new tree, drops the old tree).
    RenameTree { from: String, to: String },
    /// Drop a tree and all its data.
    DropTree(String),
}


/// The counter stored for a namespace: eight big-endian bytes; nothing, or
/// bytes of another length, read as 0.
pub open spec fn counter_value(stored: Option<Seq<u8>>) -> int {
    match stored {
        Some(b) => if b.len() == 8 {
            spec_decode_id(b) as int
        } else {
            0
        },
        None => 0,
    }
}

/// The counter a namespace holds after drawing the next id: one more than
/// before, as eight big-endian bytes.
pub fn next_counter_bytes(stored: Option<&Vec<u8>>) -> (r: Vec<u8>)
    requires
        counter_value(match stored {
            Some(b) => Some(b@),
            None => None,
        }) < i64::MAX,
    ensures
        r@.len() == 8,
        spec_decode_id(r@) == counter_value(match stored {
            Some(b) => Some(b@),
            None => None,
        }) + 1,
{
    let current: i64 = match stored {
        Some(b) => {
            if b.len() == 8 {
                match decode_id(b.as_slice()) {
                    Ok(v) => v,
                    Err(_) => 0,
                }
            } else {
                0
            }
        },
        None => 0,
    };
    let next = current + 1;
    proof {
        lemma_id_roundtrip(next);
    }
    encode_id(next)
}

/// The id a counter holds, as `current_id` reads it: nothing reads as 0;
/// bytes of another length than 8 are an error.
pub fn read_counter(stored: Option<&Vec<u8>>) -> (r: Result<i64, StorageError>)
    ensures
        stored is None ==> (r matches Ok(v) && v == 0),
        stored matches Some(b) ==> (b@.len() == 8 ==> (r matches Ok(v) && v == spec_decode_id(b@))),
        stored matches Some(b) ==> (b@.len() != 8 ==> (r matches Err(StorageError::Serialization(m)) && m@ == "invalid id bytes"@)),
{
    match stored {
        None => Ok(0),
        Some(b) => {
            if b.len() != 8 {
                proof {
                    reveal_strlit("invalid id bytes");
                }
                return Err(StorageError::Serialization(String::from_str("invalid id bytes")));
            }
            decode_id(b.as_slice())
        },
    }
}

/// Runs schema migrations: decides whether the operations run and what the
/// header says afterwards. The storage work is the caller's.
pub struct MigrationRunner;

/// Whether migrations to `target` run on a database at version `current`
/// (0 without a header): only below the target.
pub open spec fn spec_needs_run(current: Option<u32>, target: u32) -> bool {
    (match current {
        Some(v) => v,
        None => 0u32,
    }) < target
}

/// Migrations run once: once the header carries `target` (as `header_after`
/// writes it), a later run to the same target, or to an older one, does
/// nothing.
pub proof fn lemma_migrations_run_once(after: DbHeader, target: u32, older: u32)
    requires
        after.db_version == target,
        older <= target,
    ensures
        !spec_needs_run(Some(after.db_version), target),
        !spec_needs_run(Some(after.db_version), older),
{
}

impl MigrationRunner {
    /// Whether migrations to `target` run: only when the database's version
    /// (0 without a header) is below it.
    pub fn needs_run(current: Option<u32>, target: u32) -> (r: bool)
        ensures
            r == spec_needs_run(current, target),
    {
        let v = match current {
            Some(v) => v,
            None => 0,
        };
        v < target
    }

    /// The header after migrating to `target`: the existing one (or an empty
    /// one) with its version set.
    pub fn header_after(header: Option<DbHeader>, target: u32) -> (r: DbHeader)
        ensures
            r.db_version == target,
            header matches Some(h) ==> r.sealed_dek == h.sealed_dek && r.owner_fingerprint == h.owner_fingerprint
                && r.database_name == h.database_name,
            header is None ==> r.sealed_dek@.len() == 0 && r.owner_fingerprint@ == Seq::<char>::empty()
                && r.database_name is None,
    {
        let mut h = match header {
            Some(h) => h,
            None => DbHeader { sealed_dek: Vec::new(), owner_fingerprint: String::new(), db_version: 0, database_name: None },
        };
        h.db_version = target;
        h
    }
}

/// Checks a database name change on the stored header: a name already set to
/// another name cannot change; the same name is kept as is.
pub fn database_name_change(existing: Option<&str>, name: &str) -> (r: Result<bool, StorageError>)
    ensures
        existing is None ==> (r matches Ok(w) && w),
        existing matches Some(e) ==> (e@ == name@ ==> (r matches Ok(w) && !w)),
        existing matches Some(e) ==> (e@ != name@ ==> (r matches Err(StorageError::InvalidDatabaseName(m))
            && m@ == "database name already set to '"@ + e@ + "', cannot change to '"@ + name@ + "'"@)),
{
    match existing {
        None => Ok(true),
        Some(e) => {
            if crate::text::str_eq(e, name) {
                Ok(false)
            } else {
                let mut m = String::from_str("database name already set to '");
                m.append(e);
                m.append("', cannot change to '");
                m.append(name);
                m.append("'");
                proof {
                    reveal_strlit("database name already set to '");
                    reveal_strlit("', cannot change to '");
                    reveal_strlit("'");
                }
                Err(StorageError::InvalidDatabaseName(m))
            }
        },
    }
}

/// A buffered write of a transaction.
#[derive(Debug)]
pub enum TransactionOp {
    Insert { tree_name: String, key: Vec<u8>, value: Vec<u8> },
    Remove { tree_name: String, key: Vec<u8> },
}

/// The tree an operation writes to.
pub open spec fn op_tree(op: TransactionOp) -> Seq<char> {
    match op {
        TransactionOp::Insert { tree_name, .. } => tree_name@,
        TransactionOp::Remove { tree_name, .. } => tree_name@,
    }
}

/// The distinct trees of a list of operations, in order of first use.
pub open spec fn op_trees(ops: Seq<TransactionOp>) -> Seq<Seq<char>>
    decreases ops.len(),
{
    if ops.len() == 0 {
        Seq::empty()
    } else {
        let prev = op_trees(ops.drop_last());
        if prev.contains(op_tree(ops.last())) {
            prev
        } else {
            prev.push(op_tree(ops.last()))
        }
    }
}

/// Writes buffered for an atomic commit.
#[derive(Debug)]
pub struct TransactionContext {
    operations: Vec<TransactionOp>,
}

impl TransactionContext {
    /// The buffered operations, in order.
    pub closed spec fn ops(&self) -> Seq<TransactionOp> {
        self.operations@
    }

    /// An empty transaction.
    pub fn new() -> (r: TransactionContext)
        ensures
            r.ops().len() == 0,
    {
        TransactionContext { operations: Vec::new() }
    }

    /// Buffers an insert.
    pub fn insert(&mut self, tree_name: &str, key: Vec<u8>, value: Vec<u8>)
        ensures
            final(self).ops().len() == old(self).ops().len() + 1,
            final(self).ops().drop_last() == old(self).ops(),
            final(self).ops().last() matches TransactionOp::Insert { tree_name: t, key: k, value: v } && t@ == tree_name@
                && k == key && v == value,
    {
        let ghost before = self.operations@;
        self.operations.push(TransactionOp::Insert { tree_name: String::from_str(tree_name), key, value });
        proof {
            assert(self.operations@.drop_last() =~= before);
        }
    }

    /// Buffers a removal.
    pub fn remove(&mut self, tree_name: &str, key: Vec<u8>)
        ensures
            final(self).ops().len() == old(self).ops().len() + 1,
            final(self).ops().drop_last() == old(self).ops(),
            final(self).ops().last() matches TransactionOp::Remove { tree_name: t, key: k } && t@ == tree_name@ && k == key,
    {
        let ghost before = self.operations@;
        self.operations.push(TransactionOp::Remove { tree_name: String::from_str(tree_name), key });
        proof {
            assert(self.operations@.drop_last() =~= before);
        }
    }

    /// The buffered operations, in order.
    pub fn operations(&self) -> (r: &Vec<TransactionOp>)
        ensures
            r@ == self.ops(),
    {
        &self.operations
    }

    /// The trees the commit opens: each written tree once, in order of first use.
    pub fn tree_names(&self) -> (r: Vec<String>)
        ensures
            r@.len() == op_trees(self.ops()).len(),
            forall|i: int| 0 <= i < r@.len() ==> (#[trigger] r@[i])@ == op_trees(self.ops())[i],
    {
        let mut names: Vec<String> = Vec::new();
        let mut i: usize = 0;
        while i < self.operations.len()
            invariant
                i <= self.operations@.len(),
                names@.len() == op_trees(self.operations@.take(i as int)).len(),
                forall|j: int| 0 <= j < names@.len() ==> (#[trigger] names@[j])@ == op_trees(self.operations@.take(i as int))[j],
            decreases self.operations.len() - i,
        {
            proof {
                assert(self.operations@.take(i + 1).drop_last() =~= self.operations@.take(i as int));
                assert(self.operations@.take(i + 1).last() == self.operations@[i as int]);
            }
            let name = match &self.operations[i] {
                TransactionOp::Insert { tree_name, .. } => tree_name,
                TransactionOp::Remove { tree_name, .. } => tree_name,
            };
            let ghost prev = op_trees(self.operations@.take(i as int));
            let found = crate::federation::contains_text(&names, name.as_str());
            proof {
                if found {
                    let k = choose|k: int| 0 <= k < names@.len() && (#[trigger] names@[k])@ == name@;
                    assert(prev[k] == name@);
                    assert(prev.contains(name@));
                } else {
                    if prev.contains(name@) {
                        let k = choose|k: int| 0 <= k < prev.len() && prev[k] == name@;
                        assert(names@[k]@ == name@);
                    }
                }
            }
            if !found {
                names.push(name.clone());
            }
            i = i + 1;
        }
        proof {
            assert(self.operations@.take(self.operations@.len() as int) =~= self.operations@);
        }
        names
    }
}

} // verus!
