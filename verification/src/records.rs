//! The records of a chain database: block bytes under their index and four
//! metadata values, with the writes that have not reached the disk yet.
//!
//! A database on disk is read into [`Records`] with the `load_*` methods. Every
//! later change is kept twice: in the records themselves, and as a [`Write`] in
//! a list that [`Records::take_writes`] hands out for the disk, oldest first.
//!
//! Key layout:
//!
//! * `b:` and the index as eight little-endian bytes: an encoded block
//! * `meta:h`: the height
//! * `meta:d`: the difficulty
//! * `meta:t`: the target block time
//! * `meta:cw`: the cumulative work

use std::collections::HashMap;
use vstd::bytes::u64_to_le_bytes;
use vstd::prelude::*;

verus! {

broadcast use vstd::std_specs::hash::group_hash_axioms;

/// The four metadata values of a chain database.
#[derive(Debug, Clone, Copy, PartialEq, Eq, Structural)]
pub enum Meta {
    Height,
    Difficulty,
    TargetTime,
    Chainwork,
}

/// One change to the database.
#[derive(Debug, PartialEq, Eq)]
pub enum Write {
    Put { key: Vec<u8>, value: Vec<u8> },
    Delete { key: Vec<u8> },
}

/// The mathematical content of a [`Write`].
pub enum WriteModel {
    Put { key: Seq<u8>, value: Seq<u8> },
    Delete { key: Seq<u8> },
}

impl View for Write {
    type V = WriteModel;

    open spec fn view(&self) -> WriteModel {
        match *self {
            Write::Put { key, value } => WriteModel::Put { key: key@, value: value@ },
            Write::Delete { key } => WriteModel::Delete { key: key@ },
        }
    }
}

/// The contents of a list of writes, in order.
pub open spec fn write_models(writes: Seq<Write>) -> Seq<WriteModel> {
    writes.map_values(|w: Write| w@)
}

/// What a database holds: values under keys.
pub type Image = Map<Seq<u8>, Seq<u8>>;

/// The database after one write.
pub open spec fn written(image: Image, write: WriteModel) -> Image {
    match write {
        WriteModel::Put { key, value } => image.insert(key, value),
        WriteModel::Delete { key } => image.remove(key),
    }
}

/// The database after a list of writes, oldest first.
pub open spec fn replayed(image: Image, writes: Seq<WriteModel>) -> Image
    decreases writes.len(),
{
    if writes.len() == 0 {
        image
    } else {
        written(replayed(image, writes.drop_last()), writes.last())
    }
}

/// The key of the block with the given index.
pub open spec fn block_key_bytes(index: u64) -> Seq<u8> {
    seq![98u8, 58u8] + vstd::bytes::spec_u64_to_le_bytes(index)
}

/// Whether a key has the form of a block's key.
pub open spec fn is_block_key(key: Seq<u8>) -> bool {
    key.len() == 10 && key[0] == 98 && key[1] == 58
}

/// The index that a block's key spells.
pub open spec fn key_index(key: Seq<u8>) -> u64 {
    vstd::bytes::spec_u64_from_le_bytes(key.subrange(2, 10))
}

/// The key of a metadata value.
pub open spec fn meta_key_bytes(meta: Meta) -> Seq<u8> {
    match meta {
        Meta::Height => seq![109u8, 101u8, 116u8, 97u8, 58u8, 104u8],
        Meta::Difficulty => seq![109u8, 101u8, 116u8, 97u8, 58u8, 100u8],
        Meta::TargetTime => seq![109u8, 101u8, 116u8, 97u8, 58u8, 116u8],
        Meta::Chainwork => seq![109u8, 101u8, 116u8, 97u8, 58u8, 99u8, 119u8],
    }
}

/// A block key spells the index it was made from, and no metadata key has the
/// form of a block key.
proof fn lemma_keys(index: u64)
    ensures
        is_block_key(block_key_bytes(index)),
        key_index(block_key_bytes(index)) == index,
        forall|m: Meta| !is_block_key(#[trigger] meta_key_bytes(m)),
        forall|key: Seq<u8>| #[trigger]
            is_block_key(key) ==> block_key_bytes(key_index(key)) == key,
        forall|m: Meta, n: Meta|
            #[trigger] meta_key_bytes(m) == #[trigger] meta_key_bytes(n) ==> m == n,
{
    vstd::bytes::lemma_auto_spec_u64_to_from_le_bytes();
    let key = block_key_bytes(index);
    assert(key.subrange(2, 10) =~= vstd::bytes::spec_u64_to_le_bytes(index));
    assert forall|key: Seq<u8>| #[trigger] is_block_key(key) implies block_key_bytes(key_index(key))
        == key by {
        assert(key.subrange(2, 10).len() == 8);
        assert(block_key_bytes(key_index(key)) =~= key);
    }
    assert forall|m: Meta, n: Meta| #[trigger] meta_key_bytes(m) == #[trigger] meta_key_bytes(
        n,
    ) implies m == n by {
        assert(meta_key_bytes(m).last() == meta_key_bytes(n).last());
    }
}

/// Two block keys are the same only if they belong to the same index.
pub proof fn law_block_keys_are_distinct(i: u64, j: u64)
    ensures
        block_key_bytes(i) == block_key_bytes(j) <==> i == j,
{
    lemma_keys(i);
    lemma_keys(j);
}

/// The key of a metadata value is no block's key, and no other metadata value's.
pub proof fn law_meta_keys_are_distinct(m: Meta, n: Meta, index: u64)
    ensures
        meta_key_bytes(m) == meta_key_bytes(n) <==> m == n,
        meta_key_bytes(m) != block_key_bytes(index),
{
    lemma_keys(index);
}

/// The database key under which a block is stored.
pub fn block_key(index: u64) -> (key: [u8; 10])
    ensures
        key@ == block_key_bytes(index),
{
    let bytes = u64_to_le_bytes(index);
    let key: [u8; 10] = [
        98,
        58,
        bytes[0],
        bytes[1],
        bytes[2],
        bytes[3],
        bytes[4],
        bytes[5],
        bytes[6],
        bytes[7],
    ];
    assert(key@ =~= block_key_bytes(index));
    key
}

/// The database key under which a metadata value is stored.
pub fn meta_key(meta: Meta) -> (key: Vec<u8>)
    ensures
        key@ == meta_key_bytes(meta),
{
    let mut key: Vec<u8> = Vec::new();
    key.push(109);
    key.push(101);
    key.push(116);
    key.push(97);
    key.push(58);
    match meta {
        Meta::Height => key.push(104),
        Meta::Difficulty => key.push(100),
        Meta::TargetTime => key.push(116),
        Meta::Chainwork => {
            key.push(99);
            key.push(119);
        },
    }
    assert(key@ =~= meta_key_bytes(meta));
    key
}

/// The mathematical content of [`Records`].
#[verifier::ext_equal]
pub struct RecordsModel {
    pub blocks: Map<u64, Seq<u8>>,
    pub meta: Map<Meta, Seq<u8>>,
}

impl RecordsModel {
    /// The value under a database key.
    pub open spec fn lookup(self, key: Seq<u8>) -> Option<Seq<u8>> {
        if is_block_key(key) {
            if self.blocks.dom().contains(key_index(key)) {
                Some(self.blocks[key_index(key)])
            } else {
                None
            }
        } else if exists|m: Meta| #[trigger] meta_key_bytes(m) == key && self.meta.dom().contains(
            m,
        ) {
            let m = choose|m: Meta| #[trigger]
                meta_key_bytes(m) == key && self.meta.dom().contains(m);
            Some(self.meta[m])
        } else {
            None
        }
    }

    /// These records as a database.
    pub open spec fn image(self) -> Image {
        Map::new(|key: Seq<u8>| self.lookup(key) is Some, |key: Seq<u8>| self.lookup(key)->0)
    }
}

proof fn lemma_image_put_block(before: RecordsModel, index: u64, value: Seq<u8>)
    ensures
        (RecordsModel { blocks: before.blocks.insert(index, value), ..before }).image()
            == before.image().insert(block_key_bytes(index), value),
{
    lemma_keys(index);
    let after = RecordsModel { blocks: before.blocks.insert(index, value), ..before };
    assert forall|key: Seq<u8>| key != block_key_bytes(index) implies after.lookup(key)
        == before.lookup(key) by {
        if is_block_key(key) {
            assert(block_key_bytes(key_index(key)) == key);
        }
    }
    assert(after.image() =~= before.image().insert(block_key_bytes(index), value));
}

proof fn lemma_image_delete_block(before: RecordsModel, index: u64)
    ensures
        (RecordsModel { blocks: before.blocks.remove(index), ..before }).image()
            == before.image().remove(block_key_bytes(index)),
{
    lemma_keys(index);
    let after = RecordsModel { blocks: before.blocks.remove(index), ..before };
    assert forall|key: Seq<u8>| key != block_key_bytes(index) implies after.lookup(key)
        == before.lookup(key) by {
        if is_block_key(key) {
            assert(block_key_bytes(key_index(key)) == key);
        }
    }
    assert(after.image() =~= before.image().remove(block_key_bytes(index)));
}

proof fn lemma_image_put_meta(before: RecordsModel, meta: Meta, value: Seq<u8>)
    ensures
        (RecordsModel { meta: before.meta.insert(meta, value), ..before }).image()
            == before.image().insert(meta_key_bytes(meta), value),
{
    lemma_keys(0);
    let after = RecordsModel { meta: before.meta.insert(meta, value), ..before };
    let key = meta_key_bytes(meta);
    assert(after.meta.dom().contains(meta));
    assert(after.lookup(key) == Some(value));
    assert forall|k: Seq<u8>| k != key implies after.lookup(k) == before.lookup(k) by {
        if !is_block_key(k) {
            if exists|m: Meta| #[trigger] meta_key_bytes(m) == k && before.meta.dom().contains(m) {
                let m = choose|m: Meta| #[trigger]
                    meta_key_bytes(m) == k && before.meta.dom().contains(m);
                assert(m != meta);
                assert(after.meta.dom().contains(m));
                assert(after.lookup(k) == Some(before.meta[m]));
            } else {
                assert forall|m: Meta| #[trigger] meta_key_bytes(m) == k implies
                    !after.meta.dom().contains(m) by {
                    assert(m != meta);
                }
            }
        }
    }
    assert(after.image() =~= before.image().insert(key, value));
}

/// What is on disk determines the records: reading a database back gives the
/// records that were written to it.
pub proof fn law_a_database_determines_its_records(a: RecordsModel, b: RecordsModel)
    ensures
        a.image() == b.image() <==> a == b,
{
    if a.image() == b.image() {
        assert forall|key: Seq<u8>| #[trigger] a.lookup(key) == b.lookup(key) by {
            assert(a.image().dom().contains(key) == b.image().dom().contains(key));
            if a.image().dom().contains(key) {
                assert(a.image()[key] == b.image()[key]);
            }
        }
        assert forall|i: u64| #[trigger]
            a.blocks.dom().contains(i) == b.blocks.dom().contains(i) && (
        a.blocks.dom().contains(i) ==> a.blocks[i] == b.blocks[i]) by {
            lemma_keys(i);
            assert(a.lookup(block_key_bytes(i)) == b.lookup(block_key_bytes(i)));
        }
        assert forall|m: Meta| #[trigger]
            a.meta.dom().contains(m) == b.meta.dom().contains(m) && (a.meta.dom().contains(m)
                ==> a.meta[m] == b.meta[m]) by {
            lemma_keys(0);
            let key = meta_key_bytes(m);
            assert(a.lookup(key) == b.lookup(key));
            lemma_lookup_meta(a, m);
            lemma_lookup_meta(b, m);
        }
        assert(a.blocks =~= b.blocks);
        assert(a.meta =~= b.meta);
    }
}

proof fn lemma_lookup_meta(records: RecordsModel, meta: Meta)
    ensures
        records.lookup(meta_key_bytes(meta)) == if records.meta.dom().contains(meta) {
            Some(records.meta[meta])
        } else {
            None
        },
{
    lemma_keys(0);
}

/// The records of a chain database that are in memory.
pub struct Records {
    blocks: HashMap<u64, Vec<u8>>,
    height: Option<Vec<u8>>,
    difficulty: Option<Vec<u8>>,
    target_time: Option<Vec<u8>>,
    chainwork: Option<Vec<u8>>,
    writes: Vec<Write>,
    flushed: Ghost<Image>,
}

impl View for Records {
    type V = RecordsModel;

    closed spec fn view(&self) -> RecordsModel {
        RecordsModel {
            blocks: self.blocks@.map_values(|bytes: Vec<u8>| bytes@),
            meta: Map::new(|m: Meta| self.slot(m) is Some, |m: Meta| self.slot(m)->0@),
        }
    }
}

impl Records {
    spec fn slot(&self, meta: Meta) -> Option<Vec<u8>> {
        match meta {
            Meta::Height => self.height,
            Meta::Difficulty => self.difficulty,
            Meta::TargetTime => self.target_time,
            Meta::Chainwork => self.chainwork,
        }
    }

    /// The writes that the disk has not seen yet, oldest first.
    pub closed spec fn pending(&self) -> Seq<WriteModel> {
        write_models(self.writes@)
    }

    /// The records as the disk last agreed with them.
    pub closed spec fn on_disk(&self) -> Image {
        self.flushed@
    }

    /// The pending writes turn what is on disk into what is in memory.
    pub open spec fn wf(&self) -> bool {
        replayed(self.on_disk(), self.pending()) == self@.image()
    }

    /// Records of an empty database.
    pub fn new() -> (records: Self)
        ensures
            records.wf(),
            records@.blocks == Map::<u64, Seq<u8>>::empty(),
            records@.meta == Map::<Meta, Seq<u8>>::empty(),
            records.pending() == Seq::<WriteModel>::empty(),
    {
        let mut records = Records {
            blocks: HashMap::new(),
            height: None,
            difficulty: None,
            target_time: None,
            chainwork: None,
            writes: Vec::new(),
            flushed: Ghost(Map::empty()),
        };
        let ghost now = records@;
        proof {
            records.flushed@ = records@.image();
        }
        assert(records@.blocks =~= Map::<u64, Seq<u8>>::empty());
        assert(records@.meta =~= Map::<Meta, Seq<u8>>::empty());
        assert(records@.meta =~= now.meta);
        assert(records.pending() =~= Seq::<WriteModel>::empty());
        records
    }

    /// The bytes of the block stored under `index`.
    pub fn block(&self, index: u64) -> (bytes: Option<&Vec<u8>>)
        ensures
            match bytes {
                Some(b) => self@.blocks.dom().contains(index) && self@.blocks[index] == b@,
                None => !self@.blocks.dom().contains(index),
            },
    {
        self.blocks.get(&index)
    }

    /// The indices of all block records, in no particular order.
    pub fn indices(&self) -> (indices: Vec<u64>)
        ensures
            forall|i: u64| #[trigger]
                indices@.contains(i) <==> self@.blocks.dom().contains(i),
    {
        let mut indices: Vec<u64> = Vec::new();
        let ghost all: Seq<u64> = vstd::std_specs::iter::IteratorSpec::remaining(
            &vstd::std_specs::hash::spec_keys_iter(&self.blocks),
        ).unref();
        for key in keys: self.blocks.keys()
            invariant
                keys.seq().unref() == all,
                indices@ == all.take(keys.index()),
                keys.seq().len() == all.len(),
        {
            indices.push(*key);
            assert(indices@ =~= all.take(keys.index() + 1));
        }
        assert(indices@ =~= all);
        assert forall|i: u64| #[trigger]
            indices@.contains(i) <==> self@.blocks.dom().contains(i) by {
            assert(all.to_set().contains(i) <==> self.blocks@.dom().contains(i));
        }
        indices
    }

    /// A metadata value.
    pub fn meta(&self, meta: Meta) -> (bytes: Option<&Vec<u8>>)
        ensures
            match bytes {
                Some(b) => self@.meta.dom().contains(meta) && self@.meta[meta] == b@,
                None => !self@.meta.dom().contains(meta),
            },
    {
        match meta {
            Meta::Height => self.height.as_ref(),
            Meta::Difficulty => self.difficulty.as_ref(),
            Meta::TargetTime => self.target_time.as_ref(),
            Meta::Chainwork => self.chainwork.as_ref(),
        }
    }

    fn set_block(&mut self, index: u64, bytes: Vec<u8>)
        ensures
            final(self)@ == (RecordsModel {
                blocks: old(self)@.blocks.insert(index, bytes@),
                ..old(self)@
            }),
            final(self).writes == old(self).writes,
            final(self).flushed == old(self).flushed,
    {
        self.blocks.insert(index, bytes);
        assert(self@.blocks =~= old(self)@.blocks.insert(index, bytes@));
        assert(self@.meta =~= old(self)@.meta);
    }

    fn unset_block(&mut self, index: u64)
        ensures
            final(self)@ == (RecordsModel {
                blocks: old(self)@.blocks.remove(index),
                ..old(self)@
            }),
            final(self).writes == old(self).writes,
            final(self).flushed == old(self).flushed,
    {
        self.blocks.remove(&index);
        assert(self@.blocks =~= old(self)@.blocks.remove(index));
        assert(self@.meta =~= old(self)@.meta);
    }

    fn set_meta(&mut self, meta: Meta, bytes: Vec<u8>)
        ensures
            final(self)@ == (RecordsModel {
                meta: old(self)@.meta.insert(meta, bytes@),
                ..old(self)@
            }),
            final(self).writes == old(self).writes,
            final(self).flushed == old(self).flushed,
    {
        match meta {
            Meta::Height => {
                self.height = Some(bytes);
            },
            Meta::Difficulty => {
                self.difficulty = Some(bytes);
            },
            Meta::TargetTime => {
                self.target_time = Some(bytes);
            },
            Meta::Chainwork => {
                self.chainwork = Some(bytes);
            },
        }
        assert(self@.blocks =~= old(self)@.blocks);
        assert(self@.meta =~= old(self)@.meta.insert(meta, bytes@));
    }

    fn note(&mut self, write: Write)
        ensures
            final(self)@ == old(self)@,
            final(self).pending() == old(self).pending().push(write@),
            final(self).on_disk() == old(self).on_disk(),
            replayed(final(self).on_disk(), final(self).pending()) == written(
                replayed(old(self).on_disk(), old(self).pending()),
                write@,
            ),
    {
        self.writes.push(write);
        assert(self@.meta =~= old(self)@.meta);
        assert(self.pending() =~= old(self).pending().push(write@));
        assert(self.pending().drop_last() =~= old(self).pending());
    }

    /// Takes in a block record that was read from disk.
    pub fn load_block(&mut self, index: u64, bytes: Vec<u8>)
        requires
            old(self).pending().len() == 0,
        ensures
            final(self).wf(),
            final(self)@ == (RecordsModel {
                blocks: old(self)@.blocks.insert(index, bytes@),
                ..old(self)@
            }),
            final(self).pending() == old(self).pending(),
    {
        self.set_block(index, bytes);
        proof {
            self.flushed@ = self@.image();
        }
        assert(self@.meta =~= old(self)@.meta);
    }

    /// Takes in a metadata value that was read from disk.
    pub fn load_meta(&mut self, meta: Meta, bytes: Vec<u8>)
        requires
            old(self).pending().len() == 0,
        ensures
            final(self).wf(),
            final(self)@ == (RecordsModel {
                meta: old(self)@.meta.insert(meta, bytes@),
                ..old(self)@
            }),
            final(self).pending() == old(self).pending(),
    {
        self.set_meta(meta, bytes);
        let ghost now = self@;
        proof {
            self.flushed@ = self@.image();
        }
        assert(self@.meta =~= now.meta);
    }

    /// Drops a block record from memory; the disk keeps it.
    pub fn forget_block(&mut self, index: u64)
        requires
            old(self).pending().len() == 0,
        ensures
            final(self).wf(),
            final(self)@ == (RecordsModel {
                blocks: old(self)@.blocks.remove(index),
                ..old(self)@
            }),
            final(self).pending() == old(self).pending(),
    {
        self.unset_block(index);
        let ghost now = self@;
        proof {
            self.flushed@ = self@.image();
        }
        assert(self@.meta =~= now.meta);
    }

    /// Stores a block.
    pub fn put_block(&mut self, index: u64, bytes: Vec<u8>)
        requires
            old(self).wf(),
        ensures
            final(self).wf(),
            final(self)@ == (RecordsModel {
                blocks: old(self)@.blocks.insert(index, bytes@),
                ..old(self)@
            }),
            final(self).pending() == old(self).pending().push(
                WriteModel::Put { key: block_key_bytes(index), value: bytes@ },
            ),
            final(self).on_disk() == old(self).on_disk(),
    {
        let key = block_key(index);
        let value = bytes.clone();
        assert(value@ =~= bytes@);
        self.note(Write::Put { key: array_to_vec(&key), value });
        self.set_block(index, bytes);
        proof {
            lemma_image_put_block(old(self)@, index, bytes@);
        }
    }

    /// Removes a block.
    pub fn delete_block(&mut self, index: u64)
        requires
            old(self).wf(),
        ensures
            final(self).wf(),
            final(self)@ == (RecordsModel {
                blocks: old(self)@.blocks.remove(index),
                ..old(self)@
            }),
            final(self).pending() == old(self).pending().push(
                WriteModel::Delete { key: block_key_bytes(index) },
            ),
            final(self).on_disk() == old(self).on_disk(),
    {
        let key = block_key(index);
        self.note(Write::Delete { key: array_to_vec(&key) });
        self.unset_block(index);
        proof {
            lemma_image_delete_block(old(self)@, index);
        }
    }

    /// Stores a metadata value.
    pub fn put_meta(&mut self, meta: Meta, bytes: Vec<u8>)
        requires
            old(self).wf(),
        ensures
            final(self).wf(),
            final(self)@ == (RecordsModel {
                meta: old(self)@.meta.insert(meta, bytes@),
                ..old(self)@
            }),
            final(self).pending() == old(self).pending().push(
                WriteModel::Put { key: meta_key_bytes(meta), value: bytes@ },
            ),
            final(self).on_disk() == old(self).on_disk(),
    {
        let key = meta_key(meta);
        let value = bytes.clone();
        assert(value@ =~= bytes@);
        self.note(Write::Put { key, value });
        self.set_meta(meta, bytes);
        proof {
            lemma_image_put_meta(old(self)@, meta, bytes@);
        }
    }

    /// Hands out the pending writes, oldest first. Carried out in this order on
    /// what the disk holds, they make it agree with the records in memory.
    pub fn take_writes(&mut self) -> (writes: Vec<Write>)
        requires
            old(self).wf(),
        ensures
            final(self).wf(),
            final(self)@ == old(self)@,
            write_models(writes@) == old(self).pending(),
            replayed(old(self).on_disk(), write_models(writes@)) == final(self)@.image(),
            final(self).on_disk() == final(self)@.image(),
            final(self).pending() == Seq::<WriteModel>::empty(),
    {
        let mut writes: Vec<Write> = Vec::new();
        std::mem::swap(&mut writes, &mut self.writes);
        proof {
            self.flushed@ = old(self)@.image();
        }
        assert(self@.meta =~= old(self)@.meta);
        assert(self.pending() =~= Seq::<WriteModel>::empty());
        writes
    }
}

fn array_to_vec(bytes: &[u8; 10]) -> (copy: Vec<u8>)
    ensures
        copy@ == bytes@,
{
    let mut copy: Vec<u8> = Vec::new();
    let mut i: usize = 0;
    while i < 10
        invariant
            i <= 10,
            copy@ =~= bytes@.take(i as int),
        decreases 10 - i,
    {
        copy.push(bytes[i]);
        i = i + 1;
    }
    assert(copy@ =~= bytes@);
    copy
}

} // verus!
