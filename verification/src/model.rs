//! Mathematical model of the packed file: the six blocks as byte
//! sequences, and the packing of a raw tree into them, written as pure
//! functions.  The executable packer is proved to produce exactly these
//! bytes, and the parser's inverse theorems are stated against them.

use vstd::prelude::*;
use vstd::bytes::{spec_u16_to_le_bytes, spec_u32_to_le_bytes, spec_u64_to_le_bytes};
use crate::raw::{RawStructV, RawValueV, LocEntryV, loc_entries_extra, cost_value, cost_fields, cost_struct, cost_structs};

verus! {

/// Little-endian bytes of a 16-bit value.
pub open spec fn le16(x: u16) -> Seq<u8> {
    spec_u16_to_le_bytes(x)
}

/// Little-endian bytes of a 32-bit value.
pub open spec fn le32(x: u32) -> Seq<u8> {
    spec_u32_to_le_bytes(x)
}

/// Little-endian bytes of a 64-bit value.
pub open spec fn le64(x: u64) -> Seq<u8> {
    spec_u64_to_le_bytes(x)
}

/// The six data blocks of a file under construction or under parse, in
/// file order.  Counts are not tracked separately: the struct, field and
/// label counts are the block lengths divided by 12, 12 and 16, and the
/// other three counts are byte lengths.
#[verifier::ext_equal]
pub struct Blocks {
    pub structs: Seq<u8>,
    pub fields: Seq<u8>,
    pub labels: Seq<u8>,
    pub field_data: Seq<u8>,
    pub field_indices: Seq<u8>,
    pub list_indices: Seq<u8>,
}

impl Blocks {
    pub open spec fn empty() -> Blocks {
        Blocks {
            structs: Seq::empty(),
            fields: Seq::empty(),
            labels: Seq::empty(),
            field_data: Seq::empty(),
            field_indices: Seq::empty(),
            list_indices: Seq::empty(),
        }
    }

    pub open spec fn n_structs(self) -> int {
        self.structs.len() as int / 12
    }

    pub open spec fn n_fields(self) -> int {
        self.fields.len() as int / 12
    }

    pub open spec fn n_labels(self) -> int {
        self.labels.len() as int / 16
    }

    /// Total byte size of the file these blocks would form.
    pub open spec fn total(self) -> int {
        56 + self.structs.len() as int + self.fields.len() as int + self.labels.len() as int
            + self.field_data.len() as int + self.field_indices.len() as int
            + self.list_indices.len() as int
    }

    /// The struct and field records are whole 12-byte records and the
    /// labels whole 16-byte entries.
    pub open spec fn aligned(self) -> bool {
        &&& self.structs.len() % 12 == 0
        &&& self.fields.len() % 12 == 0
        &&& self.labels.len() % 16 == 0
        &&& self.field_indices.len() % 4 == 0
        &&& self.list_indices.len() % 4 == 0
    }
}

/// A label padded with NUL bytes to its 16-byte block entry.  A label
/// longer than 16 bytes is cut off; the packer refuses such labels before
/// this function is ever applied to one.
pub open spec fn pad16(l: Seq<u8>) -> Seq<u8> {
    if l.len() <= 16 {
        l + Seq::new((16 - l.len()) as nat, |i: int| 0u8)
    } else {
        l.subrange(0, 16)
    }
}

/// The index of the first 16-byte entry of `labels` that equals `p`,
/// scanning from entry `i` on, if any.
pub open spec fn find_label_from(labels: Seq<u8>, p: Seq<u8>, i: int) -> Option<int>
    decreases labels.len() as int / 16 - i,
{
    if i < 0 || i >= labels.len() as int / 16 {
        None
    } else if labels.subrange(16 * i, 16 * i + 16) == p {
        Some(i)
    } else {
        find_label_from(labels, p, i + 1)
    }
}

/// Label interning: the labels block after adding `l`, and the index of
/// `l` in it.  A label already present keeps its first index; a new label
/// extends the block by one padded entry.
pub open spec fn intern_label(labels: Seq<u8>, l: Seq<u8>) -> (Seq<u8>, int) {
    let p = pad16(l);
    match find_label_from(labels, p, 0) {
        Some(i) => (labels, i),
        None => (labels + p, labels.len() as int / 16),
    }
}

/// A 12-byte field record: type code, label index, and the 4-byte data
/// slot.
pub open spec fn field_rec(code: u32, lbl: int, slot: Seq<u8>) -> Seq<u8> {
    le32(code) + le32(lbl as u32) + slot
}

/// The bytes that the substrings of a localized string contribute to the
/// field-data block: per substring its key, its byte length and its
/// bytes.
pub open spec fn loc_entries_bytes(es: Seq<LocEntryV>) -> Seq<u8>
    decreases es,
{
    if es.len() == 0 {
        Seq::empty()
    } else {
        le32(es[0].key) + le32(es[0].data.len() as u32) + es[0].data + loc_entries_bytes(
            es.drop_first(),
        )
    }
}

/// `n` consecutive 32-bit indices starting at `base`, in little-endian
/// bytes: the shape of a run of field indices or list members.
pub open spec fn idx_run_bytes(base: int, n: int) -> Seq<u8>
    decreases n,
{
    if n <= 0 {
        Seq::empty()
    } else {
        le32(base as u32) + idx_run_bytes(base + 1, n - 1)
    }
}

/// The immediate sub-structs a value hands to the breadth-first queue, in
/// the order they appear.
pub open spec fn children_value(v: RawValueV) -> Seq<RawStructV> {
    match v {
        RawValueV::Struct(s) => seq![s],
        RawValueV::List(vs) => vs,
        _ => Seq::empty(),
    }
}

pub open spec fn children_fields(fs: Seq<(Seq<u8>, RawValueV)>) -> Seq<RawStructV>
    decreases fs,
{
    if fs.len() == 0 {
        Seq::empty()
    } else {
        children_value(fs[0].1) + children_fields(fs.drop_first())
    }
}

/// The immediate sub-structs of a struct, in field order.
pub open spec fn children_struct(s: RawStructV) -> Seq<RawStructV> {
    children_fields(s.fields)
}

/// Number of structs in a tree, the root included.
pub open spec fn n_nodes_struct(s: RawStructV) -> nat
    decreases s,
{
    1 + n_nodes_fields(s.fields)
}

pub open spec fn n_nodes_fields(fs: Seq<(Seq<u8>, RawValueV)>) -> nat
    decreases fs,
{
    if fs.len() == 0 {
        0nat
    } else {
        n_nodes_value(fs[0].1) + n_nodes_fields(fs.drop_first())
    }
}

pub open spec fn n_nodes_value(v: RawValueV) -> nat
    decreases v,
{
    match v {
        RawValueV::Struct(s) => n_nodes_struct(s),
        RawValueV::List(vs) => n_nodes_structs(vs),
        _ => 0nat,
    }
}

pub open spec fn n_nodes_structs(vs: Seq<RawStructV>) -> nat
    decreases vs,
{
    if vs.len() == 0 {
        0nat
    } else {
        n_nodes_struct(vs[0]) + n_nodes_structs(vs.drop_first())
    }
}

pub proof fn lemma_nodes_concat(a: Seq<RawStructV>, b: Seq<RawStructV>)
    ensures
        n_nodes_structs(a + b) == n_nodes_structs(a) + n_nodes_structs(b),
    decreases a,
{
    if a.len() == 0 {
        assert(a + b =~= b);
    } else {
        assert((a + b).drop_first() =~= a.drop_first() + b);
        lemma_nodes_concat(a.drop_first(), b);
    }
}

pub proof fn lemma_children_fields_nodes(fs: Seq<(Seq<u8>, RawValueV)>)
    ensures
        n_nodes_structs(children_fields(fs)) == n_nodes_fields(fs),
    decreases fs,
{
    if fs.len() == 0 {
    } else {
        lemma_nodes_concat(children_value(fs[0].1), children_fields(fs.drop_first()));
        lemma_children_fields_nodes(fs.drop_first());
        assert(n_nodes_structs(children_value(fs[0].1)) == n_nodes_value(fs[0].1)) by {
            match fs[0].1 {
                RawValueV::Struct(s) => {
                    assert(seq![s].drop_first() =~= Seq::<RawStructV>::empty());
                    assert(n_nodes_structs(seq![s]) == n_nodes_struct(s) + n_nodes_structs(
                        seq![s].drop_first(),
                    ));
                    assert(n_nodes_structs(Seq::<RawStructV>::empty()) == 0);
                },
                _ => {},
            }
        }
        assert(children_fields(fs) == children_value(fs[0].1) + children_fields(fs.drop_first()));
        assert(n_nodes_fields(fs) == n_nodes_value(fs[0].1) + n_nodes_fields(fs.drop_first()));
    }
}

/// A packed tree holds one struct record for the root and one for every
/// sub-struct it hands on.
pub proof fn lemma_children_struct_nodes(s: RawStructV)
    ensures
        n_nodes_structs(children_struct(s)) == n_nodes_struct(s) - 1,
{
    lemma_children_fields_nodes(s.fields);
}

/// One field packed onto the blocks: the label interned, a 12-byte field
/// record appended, and the out-of-line payload, if any, appended to its
/// block.  `next_idx` is the struct index the first sub-struct of this
/// field will receive.
pub open spec fn pack_one_field(
    ff: Blocks,
    label: Seq<u8>,
    v: RawValueV,
    next_idx: int,
) -> Blocks {
    let (labels2, li) = intern_label(ff.labels, label);
    let ff = Blocks { labels: labels2, ..ff };
    let fd = ff.field_data.len() as int;
    match v {
        RawValueV::Byte(x) => Blocks {
            fields: ff.fields + field_rec(0, li, seq![x, 0u8, 0u8, 0u8]),
            ..ff
        },
        RawValueV::Char(x) => Blocks {
            fields: ff.fields + field_rec(1, li, seq![x as u8, 0u8, 0u8, 0u8]),
            ..ff
        },
        RawValueV::Word(x) => Blocks {
            fields: ff.fields + field_rec(2, li, le16(x) + seq![0u8, 0u8]),
            ..ff
        },
        RawValueV::Short(x) => Blocks {
            fields: ff.fields + field_rec(3, li, le16(x as u16) + seq![0u8, 0u8]),
            ..ff
        },
        RawValueV::DWord(x) => Blocks { fields: ff.fields + field_rec(4, li, le32(x)), ..ff },
        RawValueV::Int(x) => Blocks { fields: ff.fields + field_rec(5, li, le32(x as u32)), ..ff },
        RawValueV::DWord64(x) => Blocks {
            fields: ff.fields + field_rec(6, li, le32(fd as u32)),
            field_data: ff.field_data + le64(x),
            ..ff
        },
        RawValueV::Int64(x) => Blocks {
            fields: ff.fields + field_rec(7, li, le32(fd as u32)),
            field_data: ff.field_data + le64(x as u64),
            ..ff
        },
        RawValueV::Float(x) => Blocks { fields: ff.fields + field_rec(8, li, le32(x)), ..ff },
        RawValueV::Double(x) => Blocks {
            fields: ff.fields + field_rec(9, li, le32(fd as u32)),
            field_data: ff.field_data + le64(x),
            ..ff
        },
        RawValueV::CExoString(b) => Blocks {
            fields: ff.fields + field_rec(10, li, le32(fd as u32)),
            field_data: ff.field_data + le32(b.len() as u32) + b,
            ..ff
        },
        RawValueV::CResRef(b) => Blocks {
            fields: ff.fields + field_rec(11, li, le32(fd as u32)),
            field_data: ff.field_data + seq![b.len() as u8] + b,
            ..ff
        },
        RawValueV::CExoLocString(tlk, es) => Blocks {
            fields: ff.fields + field_rec(12, li, le32(fd as u32)),
            field_data: ff.field_data + le32((8 + loc_entries_extra(es)) as u32) + le32(tlk)
                + le32(es.len() as u32) + loc_entries_bytes(es),
            ..ff
        },
        RawValueV::Void(b) => Blocks {
            fields: ff.fields + field_rec(13, li, le32(fd as u32)),
            field_data: ff.field_data + le32(b.len() as u32) + b,
            ..ff
        },
        RawValueV::Struct(_) => Blocks {
            fields: ff.fields + field_rec(14, li, le32(next_idx as u32)),
            ..ff
        },
        RawValueV::List(vs) => Blocks {
            fields: ff.fields + field_rec(15, li, le32(ff.list_indices.len() as u32)),
            list_indices: ff.list_indices + le32(vs.len() as u32) + idx_run_bytes(
                next_idx,
                vs.len() as int,
            ),
            ..ff
        },
    }
}

/// The fields of one struct packed in order.  `next_idx` advances by the
/// number of sub-structs each field hands to the queue.
pub open spec fn pack_fields(
    ff: Blocks,
    fs: Seq<(Seq<u8>, RawValueV)>,
    next_idx: int,
) -> Blocks
    decreases fs,
{
    if fs.len() == 0 {
        ff
    } else {
        pack_fields(
            pack_one_field(ff, fs[0].0, fs[0].1, next_idx),
            fs.drop_first(),
            next_idx + children_value(fs[0].1).len(),
        )
    }
}

/// One struct packed onto the blocks: its 12-byte record, then its field
/// records, then (for two or more fields) the run of its field indices.
/// The locator of a struct with no field or one field is the current
/// field count; with more it is the byte offset of its index run.
/// `next_idx` is the struct index its first sub-struct will receive.
pub open spec fn pack_one_struct(ff: Blocks, s: RawStructV, next_idx: int) -> Blocks {
    let n = s.fields.len() as int;
    let locator: int = if n >= 2 {
        ff.field_indices.len() as int
    } else {
        ff.n_fields()
    };
    let nf0 = ff.n_fields();
    let ff1 = Blocks {
        structs: ff.structs + le32(s.st_type) + le32(locator as u32) + le32(n as u32),
        ..ff
    };
    let ff2 = pack_fields(ff1, s.fields, next_idx);
    if n >= 2 {
        Blocks { field_indices: ff2.field_indices + idx_run_bytes(nf0, n), ..ff2 }
    } else {
        ff2
    }
}

/// Breadth-first packing of a queue of trees: pop the first struct, pack
/// its record and fields, and append its immediate sub-structs to the
/// queue.  Struct indices are assigned in discovery order, so the next
/// free index is the count of records already written plus the queue
/// length.
pub open spec fn pack_forest(ff: Blocks, q: Seq<RawStructV>) -> Blocks
    decreases n_nodes_structs(q) via pack_forest_decreases
{
    if q.len() == 0 {
        ff
    } else {
        pack_forest(
            pack_one_struct(ff, q[0], ff.n_structs() + q.len()),
            q.drop_first() + children_struct(q[0]),
        )
    }
}

#[via_fn]
proof fn pack_forest_decreases(ff: Blocks, q: Seq<RawStructV>) {
    if q.len() > 0 {
        lemma_nodes_concat(q.drop_first(), children_struct(q[0]));
        lemma_children_struct_nodes(q[0]);
    }
}

/// The blocks of the packed form of one tree.
pub open spec fn pack_blocks(root: RawStructV) -> Blocks {
    pack_forest(Blocks::empty(), seq![root])
}

/// The 56-byte header for the given blocks: the type and version tags,
/// then the six (offset, count) pairs, offsets accumulating from 56 in
/// block order.
pub open spec fn header_bytes(ff: Blocks, tag: Seq<u8>, ver: Seq<u8>) -> Seq<u8> {
    let o_structs: int = 56;
    let o_fields = o_structs + ff.structs.len() as int;
    let o_labels = o_fields + ff.fields.len() as int;
    let o_field_data = o_labels + ff.labels.len() as int;
    let o_field_indices = o_field_data + ff.field_data.len() as int;
    let o_list_indices = o_field_indices + ff.field_indices.len() as int;
    tag + ver + le32(o_structs as u32) + le32(ff.n_structs() as u32) + le32(o_fields as u32)
        + le32(ff.n_fields() as u32) + le32(o_labels as u32) + le32(ff.n_labels() as u32) + le32(
        o_field_data as u32,
    ) + le32(ff.field_data.len() as u32) + le32(o_field_indices as u32) + le32(
        ff.field_indices.len() as u32,
    ) + le32(o_list_indices as u32) + le32(ff.list_indices.len() as u32)
}

/// A whole file: the header followed by the six blocks, contiguous, in
/// fixed order.
pub open spec fn file_bytes(ff: Blocks, tag: Seq<u8>, ver: Seq<u8>) -> Seq<u8> {
    header_bytes(ff, tag, ver) + ff.structs + ff.fields + ff.labels + ff.field_data
        + ff.field_indices + ff.list_indices
}

pub broadcast proof fn lemma_le16_len(x: u16)
    ensures
        (#[trigger] le16(x)).len() == 2,
{
    vstd::bytes::lemma_auto_spec_u16_to_from_le_bytes();
}

pub broadcast proof fn lemma_le32_len(x: u32)
    ensures
        (#[trigger] le32(x)).len() == 4,
{
    vstd::bytes::lemma_auto_spec_u32_to_from_le_bytes();
}

pub broadcast proof fn lemma_le64_len(x: u64)
    ensures
        (#[trigger] le64(x)).len() == 8,
{
    vstd::bytes::lemma_auto_spec_u64_to_from_le_bytes();
}

/// A NUL-padded label entry is exactly 16 bytes.
pub broadcast proof fn lemma_pad16_len(l: Seq<u8>)
    ensures
        (#[trigger] pad16(l)).len() == 16,
{
}

/// `a` is an initial segment of `b`.
pub open spec fn is_prefix(a: Seq<u8>, b: Seq<u8>) -> bool {
    &&& a.len() <= b.len()
    &&& forall|i: int| 0 <= i < a.len() ==> a[i] == b[i]
}

/// Every block of `a` is an initial segment of the same block of `b`:
/// packing only appends.
pub open spec fn blocks_extend(a: Blocks, b: Blocks) -> bool {
    &&& is_prefix(a.structs, b.structs)
    &&& is_prefix(a.fields, b.fields)
    &&& is_prefix(a.labels, b.labels)
    &&& is_prefix(a.field_data, b.field_data)
    &&& is_prefix(a.field_indices, b.field_indices)
    &&& is_prefix(a.list_indices, b.list_indices)
}

pub proof fn lemma_blocks_extend_trans(a: Blocks, b: Blocks, c: Blocks)
    requires
        blocks_extend(a, b),
        blocks_extend(b, c),
    ensures
        blocks_extend(a, c),
{
}

/// Bytes a value appends to the field-data block.
pub open spec fn fd_delta_value(v: RawValueV) -> int {
    match v {
        RawValueV::DWord64(_) => 8,
        RawValueV::Int64(_) => 8,
        RawValueV::Double(_) => 8,
        RawValueV::CExoString(b) => 4 + b.len() as int,
        RawValueV::CResRef(b) => 1 + b.len() as int,
        RawValueV::CExoLocString(_, es) => 12 + loc_entries_extra(es),
        RawValueV::Void(b) => 4 + b.len() as int,
        _ => 0,
    }
}

/// Bytes a value appends to the list-indices block.
pub open spec fn li_delta_value(v: RawValueV) -> int {
    match v {
        RawValueV::List(vs) => 4 + 4 * vs.len() as int,
        _ => 0,
    }
}

pub proof fn lemma_loc_entries_bytes_len(es: Seq<LocEntryV>)
    ensures
        loc_entries_bytes(es).len() == loc_entries_extra(es),
    decreases es,
{
    broadcast use lemma_le32_len;

    if es.len() > 0 {
        lemma_loc_entries_bytes_len(es.drop_first());
    }
}

pub proof fn lemma_idx_run_bytes_len(base: int, n: int)
    ensures
        idx_run_bytes(base, n).len() == if n <= 0 { 0int } else { 4 * n },
    decreases n,
{
    broadcast use lemma_le32_len;

    if n > 0 {
        lemma_idx_run_bytes_len(base + 1, n - 1);
    }
}

/// How one packed field changes the blocks: the struct and field-index
/// blocks untouched, one 12-byte field record appended, the labels block
/// kept or extended by one entry, and the data blocks extended by the
/// value's own bytes.
pub proof fn lemma_pack_one_field_shape(ff: Blocks, l: Seq<u8>, v: RawValueV, next_idx: int)
    ensures
        ({
            let r = pack_one_field(ff, l, v, next_idx);
            &&& blocks_extend(ff, r)
            &&& r.structs == ff.structs
            &&& r.field_indices == ff.field_indices
            &&& r.fields.len() == ff.fields.len() + 12
            &&& r.labels.len() == ff.labels.len() || r.labels.len() == ff.labels.len() + 16
            &&& r.field_data.len() == ff.field_data.len() + fd_delta_value(v)
            &&& r.list_indices.len() == ff.list_indices.len() + li_delta_value(v)
        }),
{
    broadcast use lemma_le16_len, lemma_le32_len, lemma_le64_len, lemma_pad16_len;

    match v {
        RawValueV::CExoLocString(_, es) => {
            lemma_loc_entries_bytes_len(es);
        },
        RawValueV::List(vs) => {
            lemma_idx_run_bytes_len(next_idx, vs.len() as int);
        },
        _ => {},
    }
}

/// Sum of the costs of the trees waiting in the breadth-first queue.
pub open spec fn sum_cost(q: Seq<RawStructV>) -> int
    decreases q,
{
    if q.len() == 0 {
        0
    } else {
        cost_struct(q[0]) + sum_cost(q.drop_first())
    }
}

pub proof fn lemma_sum_cost_concat(a: Seq<RawStructV>, b: Seq<RawStructV>)
    ensures
        sum_cost(a + b) == sum_cost(a) + sum_cost(b),
    decreases a,
{
    if a.len() == 0 {
        assert(a + b =~= b);
    } else {
        assert((a + b).drop_first() =~= a.drop_first() + b);
        lemma_sum_cost_concat(a.drop_first(), b);
    }
}

/// The cost of list members counts a 4-byte list index for each, beyond
/// the members' own costs.
pub proof fn lemma_cost_structs_sum(vs: Seq<RawStructV>)
    ensures
        cost_structs(vs) == 4 * vs.len() + sum_cost(vs),
    decreases vs,
{
    if vs.len() > 0 {
        lemma_cost_structs_sum(vs.drop_first());
    }
}

/// Packing one field grows the file total by at most the field's cost
/// less the 4 bytes reserved for its field index; the cost of sub-structs
/// it hands to the queue is accounted against the field's own cost.
pub proof fn lemma_pack_one_field_bound(ff: Blocks, l: Seq<u8>, v: RawValueV, next_idx: int)
    ensures
        ({
            let r = pack_one_field(ff, l, v, next_idx);
            r.total() + sum_cost(children_value(v)) <= ff.total() + 28 + cost_value(v)
        }),
{
    lemma_pack_one_field_shape(ff, l, v, next_idx);
    match v {
        RawValueV::Struct(s) => {
            assert(sum_cost(seq![s]) == cost_struct(s) + sum_cost(seq![s].drop_first()));
            assert(seq![s].drop_first() =~= Seq::<RawStructV>::empty());
        },
        RawValueV::List(vs) => {
            lemma_cost_structs_sum(vs);
        },
        _ => {},
    }
}

pub proof fn lemma_pack_fields_shape(ff: Blocks, fs: Seq<(Seq<u8>, RawValueV)>, next_idx: int)
    ensures
        ({
            let r = pack_fields(ff, fs, next_idx);
            &&& blocks_extend(ff, r)
            &&& r.structs == ff.structs
            &&& r.field_indices == ff.field_indices
            &&& r.fields.len() == ff.fields.len() + 12 * fs.len()
            &&& (r.labels.len() - ff.labels.len()) % 16 == 0
            &&& r.total() + sum_cost(children_fields(fs)) <= ff.total() + cost_fields(fs) - 4 * fs.len()
        }),
    decreases fs,
{
    if fs.len() == 0 {
    } else {
        let ff1 = pack_one_field(ff, fs[0].0, fs[0].1, next_idx);
        lemma_pack_one_field_shape(ff, fs[0].0, fs[0].1, next_idx);
        lemma_pack_one_field_bound(ff, fs[0].0, fs[0].1, next_idx);
        lemma_pack_fields_shape(ff1, fs.drop_first(), next_idx + children_value(fs[0].1).len());
        lemma_blocks_extend_trans(ff, ff1, pack_fields(ff1, fs.drop_first(), next_idx + children_value(fs[0].1).len()));
        lemma_sum_cost_concat(children_value(fs[0].1), children_fields(fs.drop_first()));
        assert(children_fields(fs) == children_value(fs[0].1) + children_fields(fs.drop_first()));
    }
}

/// How one packed struct changes the blocks: one 12-byte struct record,
/// one field record per field, and (for two or more fields) a run of
/// field indices; the growth of the file total is bounded by the struct's
/// cost less the cost of the sub-structs handed to the queue.
pub proof fn lemma_pack_one_struct_shape(ff: Blocks, s: RawStructV, next_idx: int)
    ensures
        ({
            let r = pack_one_struct(ff, s, next_idx);
            &&& blocks_extend(ff, r)
            &&& r.structs.len() == ff.structs.len() + 12
            &&& r.fields.len() == ff.fields.len() + 12 * s.fields.len()
            &&& (r.labels.len() - ff.labels.len()) % 16 == 0
            &&& (r.field_indices.len() - ff.field_indices.len()) % 4 == 0
            &&& (r.list_indices.len() - ff.list_indices.len()) % 4 == 0
            &&& r.total() + sum_cost(children_struct(s)) <= ff.total() + cost_struct(s)
        }),
{
    broadcast use lemma_le32_len;

    let n = s.fields.len() as int;
    let locator: int = if n >= 2 {
        ff.field_indices.len() as int
    } else {
        ff.n_fields()
    };
    let ff1 = Blocks {
        structs: ff.structs + le32(s.st_type) + le32(locator as u32) + le32(n as u32),
        ..ff
    };
    let ff2 = pack_fields(ff1, s.fields, next_idx);
    lemma_pack_fields_shape(ff1, s.fields, next_idx);
    lemma_idx_run_bytes_len(ff.n_fields(), n);
    assert(blocks_extend(ff, ff1));
    lemma_blocks_extend_trans(ff, ff1, ff2);
    if n >= 2 {
        let r = Blocks { field_indices: ff2.field_indices + idx_run_bytes(ff.n_fields(), n), ..ff2 };
        lemma_blocks_extend_trans(ff, ff2, r);
        // li_delta of fields has no 4-byte remainder issue: deltas of the
        // list-indices block are 4 + 4k per list field
        assert((r.list_indices.len() - ff.list_indices.len()) % 4 == 0) by {
            lemma_pack_fields_li_mod(ff1, s.fields, next_idx);
        }
    } else {
        assert((ff2.list_indices.len() - ff.list_indices.len()) % 4 == 0) by {
            lemma_pack_fields_li_mod(ff1, s.fields, next_idx);
        }
    }
}

/// The list-indices block grows by whole 4-byte entries.
pub proof fn lemma_pack_fields_li_mod(ff: Blocks, fs: Seq<(Seq<u8>, RawValueV)>, next_idx: int)
    ensures
        (pack_fields(ff, fs, next_idx).list_indices.len() - ff.list_indices.len()) % 4 == 0,
    decreases fs,
{
    if fs.len() > 0 {
        let ff1 = pack_one_field(ff, fs[0].0, fs[0].1, next_idx);
        lemma_pack_one_field_shape(ff, fs[0].0, fs[0].1, next_idx);
        lemma_pack_fields_li_mod(ff1, fs.drop_first(), next_idx + children_value(fs[0].1).len());
    }
}

/// The whole breadth-first pack: only appends; the structs block gains
/// exactly 12 bytes per node of the queued trees; alignment of the blocks
/// is preserved; the file total is bounded by the queued trees' costs.
pub proof fn lemma_pack_forest_shape(ff: Blocks, q: Seq<RawStructV>)
    ensures
        ({
            let r = pack_forest(ff, q);
            &&& blocks_extend(ff, r)
            &&& r.structs.len() == ff.structs.len() + 12 * n_nodes_structs(q)
            &&& r.total() <= ff.total() + sum_cost(q)
            &&& ff.aligned() ==> r.aligned()
        }),
    decreases n_nodes_structs(q),
{
    if q.len() == 0 {
    } else {
        let next_idx = ff.n_structs() + q.len();
        let ff1 = pack_one_struct(ff, q[0], next_idx);
        let q1 = q.drop_first() + children_struct(q[0]);
        lemma_pack_one_struct_shape(ff, q[0], next_idx);
        lemma_nodes_concat(q.drop_first(), children_struct(q[0]));
        lemma_children_struct_nodes(q[0]);
        lemma_pack_forest_shape(ff1, q1);
        lemma_blocks_extend_trans(ff, ff1, pack_forest(ff1, q1));
        lemma_sum_cost_concat(q.drop_first(), children_struct(q[0]));
        lemma_sum_cost_children(q[0]);
    }
}

/// The queued cost of a struct's children is its own cost less its fixed
/// per-struct and per-field block bytes; stated as the bound the forest
/// induction needs.
pub proof fn lemma_sum_cost_children(s: RawStructV)
    ensures
        sum_cost(children_struct(s)) <= cost_struct(s) - 12,
{
    lemma_sum_cost_children_fields(s.fields);
}

pub proof fn lemma_sum_cost_children_fields(fs: Seq<(Seq<u8>, RawValueV)>)
    ensures
        sum_cost(children_fields(fs)) <= cost_fields(fs),
    decreases fs,
{
    if fs.len() > 0 {
        lemma_sum_cost_concat(children_value(fs[0].1), children_fields(fs.drop_first()));
        lemma_sum_cost_children_fields(fs.drop_first());
        lemma_cost_value_nonneg(fs[0].1);
        match fs[0].1 {
            RawValueV::Struct(s) => {
                assert(sum_cost(seq![s]) == cost_struct(s) + sum_cost(seq![s].drop_first()));
                assert(seq![s].drop_first() =~= Seq::<RawStructV>::empty());
            },
            RawValueV::List(vs) => {
                lemma_cost_structs_sum(vs);
                lemma_sum_cost_nonneg(vs);
            },
            _ => {},
        }
    }
}

pub proof fn lemma_sum_cost_nonneg(q: Seq<RawStructV>)
    ensures
        sum_cost(q) >= 0,
    decreases q,
{
    if q.len() > 0 {
        lemma_sum_cost_nonneg(q.drop_first());
        lemma_cost_struct_nonneg(q[0]);
    }
}

pub proof fn lemma_cost_struct_nonneg(s: RawStructV)
    ensures
        cost_struct(s) >= 12,
    decreases s,
{
    lemma_cost_fields_nonneg(s.fields);
}

pub proof fn lemma_cost_fields_nonneg(fs: Seq<(Seq<u8>, RawValueV)>)
    ensures
        cost_fields(fs) >= 0,
    decreases fs,
{
    if fs.len() > 0 {
        lemma_cost_fields_nonneg(fs.drop_first());
        lemma_cost_value_nonneg(fs[0].1);
    }
}

pub proof fn lemma_cost_value_nonneg(v: RawValueV)
    ensures
        cost_value(v) >= 0,
    decreases v,
{
    match v {
        RawValueV::CExoLocString(_, es) => {
            lemma_loc_entries_extra_nonneg(es);
        },
        RawValueV::Struct(s) => {
            lemma_cost_struct_nonneg(s);
        },
        RawValueV::List(vs) => {
            lemma_cost_structs_nonneg(vs);
        },
        _ => {},
    }
}

pub proof fn lemma_cost_structs_nonneg(vs: Seq<RawStructV>)
    ensures
        cost_structs(vs) >= 0,
    decreases vs,
{
    if vs.len() > 0 {
        lemma_cost_struct_nonneg(vs[0]);
        lemma_cost_structs_nonneg(vs.drop_first());
    }
}

/// Every tree counts at least its own root.
pub proof fn lemma_nodes_ge_len(vs: Seq<RawStructV>)
    ensures
        n_nodes_structs(vs) >= vs.len(),
    decreases vs,
{
    if vs.len() > 0 {
        lemma_nodes_ge_len(vs.drop_first());
        assert(n_nodes_struct(vs[0]) >= 1);
    }
}

pub proof fn lemma_children_fields_len(fs: Seq<(Seq<u8>, RawValueV)>)
    ensures
        children_fields(fs).len() <= n_nodes_fields(fs),
{
    lemma_children_fields_nodes(fs);
    lemma_nodes_ge_len(children_fields(fs));
}

pub proof fn lemma_loc_entries_extra_nonneg(es: Seq<LocEntryV>)
    ensures
        loc_entries_extra(es) >= 0,
    decreases es,
{
    if es.len() > 0 {
        lemma_loc_entries_extra_nonneg(es.drop_first());
    }
}

} // verus!
