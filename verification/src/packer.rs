//! The packer: walks a raw tree breadth-first, assigns struct indices in
//! discovery order, interns labels, fills the six blocks, and emits the
//! header followed by the blocks.  Every byte of the output is pinned to
//! the model of [`crate::model`].

use vstd::prelude::*;
use vstd::bytes::u32_to_le_bytes;
use vstd::string::StrSliceExecFns;
use crate::common::{Encodings, GffError, GffHeader, OffsetCount};
use crate::model::{
    Blocks, children_fields, children_struct, children_value, field_rec, find_label_from,
    idx_run_bytes, intern_label, le32, le64, lemma_children_fields_len, lemma_children_struct_nodes,
    lemma_nodes_concat, lemma_nodes_ge_len, lemma_pack_fields_shape, lemma_pack_forest_shape,
    lemma_pack_one_field_shape, loc_entries_bytes, n_nodes_struct, n_nodes_structs, pack_blocks,
    pack_fields, pack_forest, pack_one_field, pack_one_struct, pad16, sum_cost,
};
use crate::raw::{
    RawStruct, RawValue, RawStructV, RawValueV, lemma_loc_entries_view_props,
    lemma_raw_fields_view_props, lemma_raw_structs_view_props, loc_entries_extra, loc_entries_view,
    raw_fields_view, raw_structs_view, spec_size_ub,
};

verus! {

broadcast use vstd::array::group_array_axioms;

/// The six growing blocks of a file under construction, and the header
/// that is filled in when the blocks are complete.
pub struct PackData {
    pub header: GffHeader,
    pub structs: Vec<u8>,
    pub fields: Vec<u8>,
    pub labels: Vec<u8>,
    pub field_data: Vec<u8>,
    pub field_indices: Vec<u8>,
    pub list_indices: Vec<u8>,
}

impl PackData {
    /// The mathematical view of the six blocks.
    pub open spec fn blocks(self) -> Blocks {
        Blocks {
            structs: self.structs@,
            fields: self.fields@,
            labels: self.labels@,
            field_data: self.field_data@,
            field_indices: self.field_indices@,
            list_indices: self.list_indices@,
        }
    }

    pub fn new() -> (r: PackData)
        ensures
            r.blocks() == Blocks::empty(),
            r.header.gff_type@ == crate::common::spec_blank_type_tag(),
            r.header.version@ == crate::common::spec_version_tag(),
    {
        let r = PackData {
            header: GffHeader::default(),
            structs: Vec::new(),
            fields: Vec::new(),
            labels: Vec::new(),
            field_data: Vec::new(),
            field_indices: Vec::new(),
            list_indices: Vec::new(),
        };
        proof {
            assert(r.blocks() =~~= Blocks::empty());
        }
        r
    }
}

/// Appends the little-endian bytes of a 32-bit value.
fn push_u32(v: &mut Vec<u8>, x: u32)
    ensures
        final(v)@ == old(v)@ + le32(x),
{
    let b = u32_to_le_bytes(x);
    v.extend_from_slice(b.as_slice());
}

/// The 56 header bytes that a filled-in [`GffHeader`] denotes.
pub open spec fn header_struct_bytes(h: GffHeader) -> Seq<u8> {
    h.gff_type@ + h.version@ + le32(h.structs.0) + le32(h.structs.1) + le32(h.fields.0) + le32(
        h.fields.1,
    ) + le32(h.labels.0) + le32(h.labels.1) + le32(h.field_data.0) + le32(h.field_data.1) + le32(
        h.field_indices.0,
    ) + le32(h.field_indices.1) + le32(h.list_indices.0) + le32(h.list_indices.1)
}

/// The views of the trees waiting in the breadth-first queue.
pub open spec fn q_views(q: Seq<&RawStruct>) -> Seq<RawStructV> {
    Seq::new(q.len(), |i: int| q[i]@)
}

/// How many sub-structs a value hands to the breadth-first queue.
fn children_count(v: &RawValue) -> (c: usize)
    ensures
        c == children_value(v@).len(),
{
    match v {
        RawValue::Struct(_) => 1,
        RawValue::List(vs) => {
            proof {
                lemma_raw_structs_view_props(vs@);
            }
            vs.len()
        },
        _ => 0,
    }
}

/// One step of the breadth-first pack: the facts the packing loop needs
/// to pop the next struct, stay within bounds, and keep its invariant.
proof fn lemma_pack_step(cur: Blocks, qv: Seq<RawStructV>, target: Blocks)
    requires
        qv.len() > 0,
        pack_forest(cur, qv) == target,
        target.total() <= 0xFFFF_FFFF,
        cur.aligned(),
        target.aligned(),
    ensures
        ({
            let stepped = pack_one_struct(cur, qv[0], cur.n_structs() + qv.len() as int);
            &&& cur.total() <= target.total()
            &&& stepped.total() <= target.total()
            &&& pack_forest(stepped, qv.drop_first() + children_struct(qv[0])) == target
            &&& stepped.aligned()
            &&& cur.n_structs() + n_nodes_structs(qv) == target.n_structs()
            &&& 12 * target.n_structs() <= target.total() - 56
            &&& n_nodes_structs(qv.drop_first()) >= qv.len() - 1
            &&& n_nodes_structs(qv.drop_first() + children_struct(qv[0])) == n_nodes_structs(qv)
                - 1
        }),
{
    let next = cur.n_structs() + qv.len() as int;
    let stepped = pack_one_struct(cur, qv[0], next);
    let q1 = qv.drop_first() + children_struct(qv[0]);
    lemma_pack_forest_shape(cur, qv);
    assert(cur.total() <= target.total());
    lemma_pack_forest_shape(stepped, q1);
    assert(stepped.total() <= target.total());
    crate::model::lemma_pack_one_struct_shape(cur, qv[0], next);
    assert(cur.n_structs() + n_nodes_structs(qv) == target.n_structs()) by {
        assert(target.structs.len() == cur.structs.len() + 12 * n_nodes_structs(qv));
        assert(cur.structs.len() == 12 * cur.n_structs());
        assert(target.structs.len() == 12 * target.n_structs());
    }
    assert(12 * target.n_structs() <= target.total() - 56);
    lemma_nodes_ge_len(qv.drop_first());
    assert(n_nodes_structs(qv) == n_nodes_struct(qv[0]) + n_nodes_structs(qv.drop_first()));
    lemma_nodes_concat(qv.drop_first(), children_struct(qv[0]));
    lemma_children_struct_nodes(qv[0]);
}

/// The packer.  It owns the blocks under construction; the byte output is
/// returned by the pack call itself, so that callers decide where it
/// goes.
pub struct Packer {
    pub data: PackData,
    pub encodings: Encodings,
}

impl Packer {
    pub fn new(encodings: Encodings) -> (r: Packer)
        ensures
            r.data.blocks() == Blocks::empty(),
            r.data.header.gff_type@ == crate::common::spec_blank_type_tag(),
            r.data.header.version@ == crate::common::spec_version_tag(),
            r.encodings == encodings,
    {
        Packer { data: PackData::new(), encodings }
    }

    /// Appends a 12-byte field record with the given 4-byte data slot.
    fn pack_val_slot(&mut self, ftype: u32, label_idx: u32, slot: &[u8])
        requires
            slot@.len() == 4,
        ensures
            final(self).data.blocks() == (Blocks {
                fields: old(self).data.blocks().fields + field_rec(
                    ftype,
                    label_idx as int,
                    slot@,
                ),
                ..old(self).data.blocks()
            }),
            final(self).data.header == old(self).data.header,
            final(self).encodings == old(self).encodings,
    {
        push_u32(&mut self.data.fields, ftype);
        push_u32(&mut self.data.fields, label_idx);
        self.data.fields.extend_from_slice(slot);
        proof {
            assert(self.data.fields@ =~= old(self).data.fields@ + field_rec(
                ftype,
                label_idx as int,
                slot@,
            ));
            assert(self.data.blocks() =~~= (Blocks {
                fields: old(self).data.blocks().fields + field_rec(ftype, label_idx as int, slot@),
                ..old(self).data.blocks()
            }));
        }
    }

    /// Appends a field record whose slot holds one byte of data padded
    /// with three NUL bytes.
    fn pack_val_1(&mut self, ftype: u32, label_idx: u32, val: u8)
        ensures
            final(self).data.blocks() == (Blocks {
                fields: old(self).data.blocks().fields + field_rec(
                    ftype,
                    label_idx as int,
                    seq![val, 0u8, 0u8, 0u8],
                ),
                ..old(self).data.blocks()
            }),
            final(self).data.header == old(self).data.header,
            final(self).encodings == old(self).encodings,
    {
        let slot: [u8; 4] = [val, 0, 0, 0];
        proof {
            assert(slot@ =~= seq![val, 0u8, 0u8, 0u8]);
        }
        self.pack_val_slot(ftype, label_idx, slot.as_slice());
    }

    /// Appends a field record whose slot holds two bytes of data padded
    /// with two NUL bytes.
    fn pack_val_2(&mut self, ftype: u32, label_idx: u32, val: &[u8])
        requires
            val@.len() == 2,
        ensures
            final(self).data.blocks() == (Blocks {
                fields: old(self).data.blocks().fields + field_rec(
                    ftype,
                    label_idx as int,
                    val@ + seq![0u8, 0u8],
                ),
                ..old(self).data.blocks()
            }),
            final(self).data.header == old(self).data.header,
            final(self).encodings == old(self).encodings,
    {
        let slot: [u8; 4] = [val[0], val[1], 0, 0];
        proof {
            assert(slot@ =~= val@ + seq![0u8, 0u8]);
        }
        self.pack_val_slot(ftype, label_idx, slot.as_slice());
    }

    /// Appends a field record whose slot holds four bytes of data.
    pub fn pack_val_4(&mut self, ftype: u32, label_idx: u32, val: &[u8; 4])
        ensures
            final(self).data.blocks() == (Blocks {
                fields: old(self).data.blocks().fields + field_rec(ftype, label_idx as int, val@),
                ..old(self).data.blocks()
            }),
            final(self).data.header == old(self).data.header,
            final(self).encodings == old(self).encodings,
    {
        self.pack_val_slot(ftype, label_idx, val.as_slice());
    }

    /// Appends a field record whose slot is the current length of the
    /// field-data block: the slot of every out-of-line value.
    fn pack_data_offset(&mut self, ftype: u32, label_idx: u32)
        ensures
            final(self).data.blocks() == (Blocks {
                fields: old(self).data.blocks().fields + field_rec(
                    ftype,
                    label_idx as int,
                    le32(old(self).data.blocks().field_data.len() as u32),
                ),
                ..old(self).data.blocks()
            }),
            final(self).data.header == old(self).data.header,
            final(self).encodings == old(self).encodings,
    {
        let off = self.data.field_data.len() as u32;
        push_u32(&mut self.data.fields, ftype);
        push_u32(&mut self.data.fields, label_idx);
        push_u32(&mut self.data.fields, off);
        proof {
            assert(self.data.fields@ =~= old(self).data.fields@ + field_rec(
                ftype,
                label_idx as int,
                le32(off),
            ));
            assert(self.data.blocks() =~~= (Blocks {
                fields: old(self).data.blocks().fields + field_rec(
                    ftype,
                    label_idx as int,
                    le32(off),
                ),
                ..old(self).data.blocks()
            }));
        }
    }

    /// Appends an out-of-line field record and eight bytes of data to the
    /// field-data block.
    fn pack_val_8(&mut self, ftype: u32, label_idx: u32, val: u64)
        ensures
            final(self).data.blocks() == (Blocks {
                fields: old(self).data.blocks().fields + field_rec(
                    ftype,
                    label_idx as int,
                    le32(old(self).data.blocks().field_data.len() as u32),
                ),
                field_data: old(self).data.blocks().field_data + le64(val),
                ..old(self).data.blocks()
            }),
            final(self).data.header == old(self).data.header,
            final(self).encodings == old(self).encodings,
    {
        self.pack_data_offset(ftype, label_idx);
        let b = vstd::bytes::u64_to_le_bytes(val);
        self.data.field_data.extend_from_slice(b.as_slice());
        proof {
            assert(self.data.blocks() =~~= (Blocks {
                fields: old(self).data.blocks().fields + field_rec(
                    ftype,
                    label_idx as int,
                    le32(old(self).data.blocks().field_data.len() as u32),
                ),
                field_data: old(self).data.blocks().field_data + le64(val),
                ..old(self).data.blocks()
            }));
        }
    }

    /// Appends a 32-bit value to the field-data block.
    fn pack_data_u32(&mut self, val: u32)
        ensures
            final(self).data.blocks() == (Blocks {
                field_data: old(self).data.blocks().field_data + le32(val),
                ..old(self).data.blocks()
            }),
            final(self).data.header == old(self).data.header,
            final(self).encodings == old(self).encodings,
    {
        push_u32(&mut self.data.field_data, val);
        proof {
            assert(self.data.blocks() =~~= (Blocks {
                field_data: old(self).data.blocks().field_data + le32(val),
                ..old(self).data.blocks()
            }));
        }
    }

    /// Appends raw bytes to the field-data block.
    fn pack_data_slice(&mut self, val: &[u8])
        ensures
            final(self).data.blocks() == (Blocks {
                field_data: old(self).data.blocks().field_data + val@,
                ..old(self).data.blocks()
            }),
            final(self).data.header == old(self).data.header,
            final(self).encodings == old(self).encodings,
    {
        self.data.field_data.extend_from_slice(val);
        proof {
            assert(self.data.blocks() =~~= (Blocks {
                field_data: old(self).data.blocks().field_data + val@,
                ..old(self).data.blocks()
            }));
        }
    }

    /// Appends a 32-bit value to the list-indices block.
    fn pack_list_u32(&mut self, val: u32)
        ensures
            final(self).data.blocks() == (Blocks {
                list_indices: old(self).data.blocks().list_indices + le32(val),
                ..old(self).data.blocks()
            }),
            final(self).data.header == old(self).data.header,
            final(self).encodings == old(self).encodings,
    {
        push_u32(&mut self.data.list_indices, val);
        proof {
            assert(self.data.blocks() =~~= (Blocks {
                list_indices: old(self).data.blocks().list_indices + le32(val),
                ..old(self).data.blocks()
            }));
        }
    }

    /// Interns a label given as raw bytes: returns the index of its
    /// 16-byte entry in the labels block, appending a new entry if the
    /// label was not seen before.
    fn intern_bytes(&mut self, l: &[u8]) -> (r: u32)
        ensures
            ({
                let (labels2, idx) = intern_label(old(self).data.blocks().labels, l@);
                &&& final(self).data.blocks() == (Blocks {
                    labels: labels2,
                    ..old(self).data.blocks()
                })
                &&& r == idx as u32
            }),
            final(self).data.header == old(self).data.header,
            final(self).encodings == old(self).encodings,
    {
        let mut padded: Vec<u8> = Vec::new();
        if l.len() > 16 {
            padded.extend_from_slice(vstd::slice::slice_subrange(l, 0, 16));
        } else {
            padded.extend_from_slice(l);
            let mut j = padded.len();
            while j < 16
                invariant
                    l@.len() <= j <= 16,
                    padded@.len() == j,
                    padded@ == l@ + Seq::new((j - l@.len()) as nat, |i: int| 0u8),
                decreases 16 - j,
            {
                padded.push(0);
                j += 1;
                proof {
                    assert(padded@ =~= l@ + Seq::new((j - l@.len()) as nat, |i: int| 0u8));
                }
            }
        }
        proof {
            assert(padded@ =~= pad16(l@));
        }
        let total_len = self.data.labels.len();
        let n = total_len / 16;
        let ghost labels = self.data.labels@;
        let ghost p = padded@;
        let mut i: usize = 0;
        while i < n
            invariant
                0 <= i <= n,
                n == labels.len() as int / 16,
                labels.len() == total_len as int,
                p.len() == 16,
                p == pad16(l@),
                self.data.labels@ == labels,
                self.data == old(self).data,
                self.encodings == old(self).encodings,
                padded@ == p,
                padded@.len() == 16,
                find_label_from(labels, p, 0) == find_label_from(labels, p, i as int),
            decreases n - i,
        {
            proof {
                assert(16 * (i as int) + 16 <= labels.len()) by {
                    assert(i as int + 1 <= labels.len() as int / 16);
                };
                assert(labels.len() == total_len as int);
            }
            let base: usize = 16 * i;
            let mut k: usize = 0;
            let mut same = true;
            while k < 16
                invariant
                    0 <= k <= 16,
                    0 <= i < n,
                    n == labels.len() as int / 16,
                    base == 16 * (i as int),
                    16 * (i as int) + 16 <= labels.len(),
                    self.data.labels@ == labels,
                    padded@ == p,
                    p.len() == 16,
                    same <==> (forall|t: int|
                        0 <= t < k ==> labels[16 * (i as int) + t] == p[t]),
                decreases 16 - k,
            {
                if self.data.labels[base + k] != padded[k] {
                    same = false;
                }
                k += 1;
            }
            if same {
                proof {
                    assert(labels.subrange(16 * (i as int), 16 * (i as int) + 16) =~= p);
                    assert(find_label_from(labels, p, i as int) == Some(i as int));
                }
                return i as u32;
            }
            proof {
                assert(labels.subrange(16 * (i as int), 16 * (i as int) + 16) != p) by {
                    let t = choose|t: int| 0 <= t < 16 && labels[16 * (i as int) + t] != p[t];
                    assert(labels.subrange(16 * (i as int), 16 * (i as int) + 16)[t] != p[t]);
                }
            }
            i += 1;
        }
        proof {
            assert(find_label_from(labels, p, n as int) is None);
        }
        self.data.labels.extend_from_slice(padded.as_slice());
        proof {
            assert(self.data.blocks() =~~= (Blocks {
                labels: labels + p,
                ..old(self).data.blocks()
            }));
        }
        i as u32
    }

    /// Interns a field label handed as a string: the label is encoded in
    /// the codepage of non-localized strings and must fit the 16-byte
    /// label entry, else `LabelTooLong`.
    pub fn pack_label(&mut self, label: &String) -> (r: Result<u32, GffError>)
        requires
            label@.len() < 0x400_0000,
        ensures
            ({
                let e = crate::enc::encode_of(1252, label@);
                if e.len() > 16 {
                    r == Err::<u32, GffError>(GffError::LabelTooLong) && *final(self) == *old(self)
                } else {
                    let (labels2, idx) = intern_label(old(self).data.blocks().labels, e);
                    &&& final(self).data.blocks() == (Blocks {
                        labels: labels2,
                        ..old(self).data.blocks()
                    })
                    &&& r == Ok::<u32, GffError>(idx as u32)
                    &&& final(self).data.header == old(self).data.header
                    &&& final(self).encodings == old(self).encodings
                }
            }),
    {
        let enc = crate::enc::encode_bytes(crate::common::Codepage::Windows1252, label.as_str());
        if enc.len() > 16 {
            return Err(GffError::LabelTooLong);
        }
        Ok(self.intern_bytes(enc.as_slice()))
    }

    /// Packs one labelled field: interns the label, appends the field
    /// record and the value's out-of-line bytes, and hands any sub-structs
    /// of the value to the breadth-first queue.  `next_idx` is the struct
    /// index the first of those sub-structs will receive.
    fn pack_field_raw<'a>(
        &mut self,
        label: &Vec<u8>,
        value: &'a RawValue,
        structs: &mut Vec<&'a RawStruct>,
        next_idx: usize,
    )
        requires
            pack_one_field(
                old(self).data.blocks(),
                label@,
                value@,
                next_idx as int,
            ).total() <= 0xFFFF_FFFF,
            next_idx + children_value(value@).len() <= 0x4000_0000,
        ensures
            final(self).data.blocks() == pack_one_field(
                old(self).data.blocks(),
                label@,
                value@,
                next_idx as int,
            ),
            q_views(final(structs)@) == q_views(old(structs)@) + children_value(value@),
            final(self).data.header == old(self).data.header,
            final(self).encodings == old(self).encodings,
    {
        proof {
            lemma_pack_one_field_shape(old(self).data.blocks(), label@, value@, next_idx as int);
        }
        let label_idx = self.intern_bytes(label.as_slice());
        let ghost mid = self.data.blocks();
        match value {
            RawValue::Byte(x) => {
                self.pack_val_1(0, label_idx, *x);
                proof {
                    assert(self.data.blocks() =~~= pack_one_field(
                        old(self).data.blocks(),
                        label@,
                        value@,
                        next_idx as int,
                    ));
                    assert(q_views(structs@) =~= q_views(old(structs)@) + children_value(value@));
                }
            },
            RawValue::Char(x) => {
                self.pack_val_1(1, label_idx, *x as u8);
                proof {
                    assert(self.data.blocks() =~~= pack_one_field(
                        old(self).data.blocks(),
                        label@,
                        value@,
                        next_idx as int,
                    ));
                    assert(q_views(structs@) =~= q_views(old(structs)@) + children_value(value@));
                }
            },
            RawValue::Word(x) => {
                let b = vstd::bytes::u16_to_le_bytes(*x);
                self.pack_val_2(2, label_idx, b.as_slice());
                proof {
                    assert(self.data.blocks() =~~= pack_one_field(
                        old(self).data.blocks(),
                        label@,
                        value@,
                        next_idx as int,
                    ));
                    assert(q_views(structs@) =~= q_views(old(structs)@) + children_value(value@));
                }
            },
            RawValue::Short(x) => {
                let b = vstd::bytes::u16_to_le_bytes(*x as u16);
                self.pack_val_2(3, label_idx, b.as_slice());
                proof {
                    assert(self.data.blocks() =~~= pack_one_field(
                        old(self).data.blocks(),
                        label@,
                        value@,
                        next_idx as int,
                    ));
                    assert(q_views(structs@) =~= q_views(old(structs)@) + children_value(value@));
                }
            },
            RawValue::DWord(x) => {
                let b = u32_to_le_bytes(*x);
                self.pack_val_slot(4, label_idx, b.as_slice());
                proof {
                    assert(self.data.blocks() =~~= pack_one_field(
                        old(self).data.blocks(),
                        label@,
                        value@,
                        next_idx as int,
                    ));
                    assert(q_views(structs@) =~= q_views(old(structs)@) + children_value(value@));
                }
            },
            RawValue::Int(x) => {
                let b = u32_to_le_bytes(*x as u32);
                self.pack_val_slot(5, label_idx, b.as_slice());
                proof {
                    assert(self.data.blocks() =~~= pack_one_field(
                        old(self).data.blocks(),
                        label@,
                        value@,
                        next_idx as int,
                    ));
                    assert(q_views(structs@) =~= q_views(old(structs)@) + children_value(value@));
                }
            },
            RawValue::DWord64(x) => {
                self.pack_val_8(6, label_idx, *x);
                proof {
                    assert(self.data.blocks() =~~= pack_one_field(
                        old(self).data.blocks(),
                        label@,
                        value@,
                        next_idx as int,
                    ));
                    assert(q_views(structs@) =~= q_views(old(structs)@) + children_value(value@));
                }
            },
            RawValue::Int64(x) => {
                self.pack_val_8(7, label_idx, *x as u64);
                proof {
                    assert(self.data.blocks() =~~= pack_one_field(
                        old(self).data.blocks(),
                        label@,
                        value@,
                        next_idx as int,
                    ));
                    assert(q_views(structs@) =~= q_views(old(structs)@) + children_value(value@));
                }
            },
            RawValue::Float(x) => {
                let b = u32_to_le_bytes(*x);
                self.pack_val_slot(8, label_idx, b.as_slice());
                proof {
                    assert(self.data.blocks() =~~= pack_one_field(
                        old(self).data.blocks(),
                        label@,
                        value@,
                        next_idx as int,
                    ));
                    assert(q_views(structs@) =~= q_views(old(structs)@) + children_value(value@));
                }
            },
            RawValue::Double(x) => {
                self.pack_val_8(9, label_idx, *x);
                proof {
                    assert(self.data.blocks() =~~= pack_one_field(
                        old(self).data.blocks(),
                        label@,
                        value@,
                        next_idx as int,
                    ));
                    assert(q_views(structs@) =~= q_views(old(structs)@) + children_value(value@));
                }
            },
            RawValue::CExoString(b) => {
                self.pack_data_offset(10, label_idx);
                self.pack_data_u32(b.len() as u32);
                self.pack_data_slice(b.as_slice());
                proof {
                    assert(self.data.blocks() =~~= pack_one_field(
                        old(self).data.blocks(),
                        label@,
                        value@,
                        next_idx as int,
                    ));
                    assert(q_views(structs@) =~= q_views(old(structs)@) + children_value(value@));
                }
            },
            RawValue::CResRef(b) => {
                self.pack_data_offset(11, label_idx);
                self.data.field_data.push(b.len() as u8);
                self.pack_data_slice(b.as_slice());
                proof {
                    assert(self.data.blocks() =~~= pack_one_field(
                        old(self).data.blocks(),
                        label@,
                        value@,
                        next_idx as int,
                    ));
                    assert(q_views(structs@) =~= q_views(old(structs)@) + children_value(value@));
                }
            },
            RawValue::CExoLocString(tlk, es) => {
                self.pack_data_offset(12, label_idx);
                let ghost ev = loc_entries_view(es@);
                proof {
                    lemma_loc_entries_view_props(es@);
                    assert(value@ == RawValueV::CExoLocString(*tlk, ev));
                }
                proof {
                    assert(ev.skip(0) =~= ev);
                    crate::model::lemma_loc_entries_extra_nonneg(ev);
                    assert(crate::model::fd_delta_value(value@) == 12 + loc_entries_extra(ev));
                    assert(8 + loc_entries_extra(ev) <= 0xFFFF_FFFF);
                }
                let mut total: u64 = 8;
                let mut k: usize = 0;
                while k < es.len()
                    invariant
                        0 <= k <= es.len(),
                        ev == loc_entries_view(es@),
                        ev.len() == es@.len(),
                        forall|i: int|
                            0 <= i < es@.len() ==> ev[i] == (crate::raw::LocEntryV {
                                key: es@[i].key,
                                data: es@[i].data@,
                            }),
                        total + loc_entries_extra(ev.skip(k as int)) == 8 + loc_entries_extra(ev),
                        total <= 8 + loc_entries_extra(ev),
                        8 + loc_entries_extra(ev) <= 0xFFFF_FFFF,
                    decreases es@.len() - k,
                {
                    proof {
                        assert(ev.skip(k as int)[0] == ev[k as int]);
                        assert(ev.skip(k as int).drop_first() =~= ev.skip(k as int + 1));
                        crate::model::lemma_loc_entries_extra_nonneg(ev.skip(k as int + 1));
                    }
                    total = total + 8 + es[k].data.len() as u64;
                    k += 1;
                }
                proof {
                    assert(ev.skip(es@.len() as int) =~= Seq::<crate::raw::LocEntryV>::empty());
                    assert(total as int == 8 + loc_entries_extra(ev));
                }
                self.pack_data_u32(total as u32);
                self.pack_data_u32(*tlk);
                self.pack_data_u32(es.len() as u32);
                let ghost pre = self.data.blocks();
                let ghost target = Blocks {
                    field_data: pre.field_data + loc_entries_bytes(ev),
                    ..pre
                };
                proof {
                    assert(ev.skip(0) =~= ev);
                    assert(target =~~= (Blocks {
                        field_data: self.data.blocks().field_data + loc_entries_bytes(
                            ev.skip(0),
                        ),
                        ..self.data.blocks()
                    }));
                }
                let mut k: usize = 0;
                while k < es.len()
                    invariant
                        0 <= k <= es.len(),
                        ev == loc_entries_view(es@),
                        ev.len() == es@.len(),
                        forall|i: int|
                            0 <= i < es@.len() ==> ev[i] == (crate::raw::LocEntryV {
                                key: es@[i].key,
                                data: es@[i].data@,
                            }),
                        target == (Blocks {
                            field_data: self.data.blocks().field_data + loc_entries_bytes(
                                ev.skip(k as int),
                            ),
                            ..self.data.blocks()
                        }),
                        self.data.header == old(self).data.header,
                        self.encodings == old(self).encodings,
                    decreases es@.len() - k,
                {
                    proof {
                        assert(ev.skip(k as int)[0] == ev[k as int]);
                        assert(ev.skip(k as int).drop_first() =~= ev.skip(k as int + 1));
                    }
                    self.pack_data_u32(es[k].key);
                    self.pack_data_u32(es[k].data.len() as u32);
                    self.pack_data_slice(es[k].data.as_slice());
                    k += 1;
                    proof {
                        assert(target =~~= (Blocks {
                            field_data: self.data.blocks().field_data + loc_entries_bytes(
                                ev.skip(k as int),
                            ),
                            ..self.data.blocks()
                        }));
                    }
                }
                proof {
                    assert(ev.skip(es@.len() as int) =~= Seq::<crate::raw::LocEntryV>::empty());
                    assert(self.data.blocks() =~~= target);
                    assert(self.data.blocks() =~~= pack_one_field(
                        old(self).data.blocks(),
                        label@,
                        value@,
                        next_idx as int,
                    ));
                    assert(q_views(structs@) =~= q_views(old(structs)@) + children_value(value@));
                }
            },
            RawValue::Void(b) => {
                self.pack_data_offset(13, label_idx);
                self.pack_data_u32(b.len() as u32);
                self.pack_data_slice(b.as_slice());
                proof {
                    assert(self.data.blocks() =~~= pack_one_field(
                        old(self).data.blocks(),
                        label@,
                        value@,
                        next_idx as int,
                    ));
                    assert(q_views(structs@) =~= q_views(old(structs)@) + children_value(value@));
                }
            },
            RawValue::Struct(s) => {
                let b = u32_to_le_bytes(next_idx as u32);
                self.pack_val_slot(14, label_idx, b.as_slice());
                structs.push(s);
                proof {
                    assert(self.data.blocks() =~~= pack_one_field(
                        old(self).data.blocks(),
                        label@,
                        value@,
                        next_idx as int,
                    ));
                    assert(q_views(structs@) =~= q_views(old(structs)@) + children_value(value@));
                }
            },
            RawValue::List(vs) => {
                let ghost vv = raw_structs_view(vs@);
                proof {
                    lemma_raw_structs_view_props(vs@);
                    assert(value@ == RawValueV::List(vv));
                }
                let b = u32_to_le_bytes(self.data.list_indices.len() as u32);
                self.pack_val_slot(15, label_idx, b.as_slice());
                self.pack_list_u32(vs.len() as u32);
                let ghost pre = self.data.blocks();
                let ghost target = Blocks {
                    list_indices: pre.list_indices + idx_run_bytes(
                        next_idx as int,
                        vs@.len() as int,
                    ),
                    ..pre
                };
                let ghost qtarget = q_views(old(structs)@) + vv;
                proof {
                    assert(vv.skip(0) =~= vv);
                    assert(target =~~= (Blocks {
                        list_indices: self.data.blocks().list_indices + idx_run_bytes(
                            next_idx as int,
                            vs@.len() - 0,
                        ),
                        ..self.data.blocks()
                    }));
                }
                let mut k: usize = 0;
                while k < vs.len()
                    invariant
                        0 <= k <= vs.len(),
                        vv == raw_structs_view(vs@),
                        vv.len() == vs@.len(),
                        forall|i: int|
                            0 <= i < vs@.len() ==> vv[i] == crate::raw::raw_struct_view(vs@[i]),
                        next_idx + vs@.len() <= 0x4000_0000,
                        target == (Blocks {
                            list_indices: self.data.blocks().list_indices + idx_run_bytes(
                                next_idx as int + k as int,
                                vs@.len() - k as int,
                            ),
                            ..self.data.blocks()
                        }),
                        qtarget == q_views(structs@) + vv.skip(k as int),
                        self.data.header == old(self).data.header,
                        self.encodings == old(self).encodings,
                    decreases vs@.len() - k,
                {
                    proof {
                        assert(vv.skip(k as int)[0] == vv[k as int]);
                        assert(vv.skip(k as int).drop_first() =~= vv.skip(k as int + 1));
                    }
                    self.pack_list_u32((next_idx + k) as u32);
                    structs.push(&vs[k]);
                    k += 1;
                    proof {
                        assert(target =~~= (Blocks {
                            list_indices: self.data.blocks().list_indices + idx_run_bytes(
                                next_idx as int + k as int,
                                vs@.len() - k as int,
                            ),
                            ..self.data.blocks()
                        }));
                        assert(qtarget =~= q_views(structs@) + vv.skip(k as int));
                    }
                }
                proof {
                    assert(vv.skip(vs@.len() as int) =~= Seq::<RawStructV>::empty());
                    assert(self.data.blocks() =~~= target);
                    assert(self.data.blocks() =~~= pack_one_field(
                        old(self).data.blocks(),
                        label@,
                        value@,
                        next_idx as int,
                    ));
                    assert(q_views(structs@) =~= qtarget);
                    assert(q_views(structs@) =~= q_views(old(structs)@) + children_value(value@));
                }
            },
        }
    }

    /// Packs one struct: appends its 12-byte record, then its fields in
    /// order, then (for two or more fields) the run of its field indices,
    /// handing its immediate sub-structs to the breadth-first queue.
    fn pack_struct<'a>(&mut self, input: &'a RawStruct, structs: &mut Vec<&'a RawStruct>)
        requires
            pack_one_struct(
                old(self).data.blocks(),
                input@,
                old(self).data.blocks().n_structs() + old(structs)@.len() + 1,
            ).total() <= 0xFFFF_FFFF,
            old(self).data.blocks().total() <= 0xFFFF_FFFF,
            old(self).data.blocks().n_structs() + old(structs)@.len() + 1 + n_nodes_struct(input@)
                <= 0x2000_0000,
        ensures
            final(self).data.blocks() == pack_one_struct(
                old(self).data.blocks(),
                input@,
                old(self).data.blocks().n_structs() + old(structs)@.len() + 1,
            ),
            q_views(final(structs)@) == q_views(old(structs)@) + children_struct(input@),
            final(self).data.header == old(self).data.header,
            final(self).encodings == old(self).encodings,
    {
        let ghost start = self.data.blocks();
        let ghost fv = raw_fields_view(input.fields@);
        let ghost next0 = start.n_structs() + old(structs)@.len() + 1;
        proof {
            lemma_raw_fields_view_props(input.fields@);
            assert(input@.fields == fv);
        }
        let n = input.fields.len();
        let nf0 = self.data.fields.len() / 12;
        let locator: u32 = if n >= 2 {
            self.data.field_indices.len() as u32
        } else {
            nf0 as u32
        };
        let next_base: usize = self.data.structs.len() / 12 + structs.len() + 1;
        push_u32(&mut self.data.structs, input.st_type);
        push_u32(&mut self.data.structs, locator);
        push_u32(&mut self.data.structs, n as u32);
        let ghost ff1 = Blocks {
            structs: start.structs + le32(input@.st_type) + le32(
                (if fv.len() as int >= 2 {
                    start.field_indices.len() as int
                } else {
                    start.n_fields()
                }) as u32,
            ) + le32(fv.len() as u32),
            ..start
        };
        proof {
            assert(self.data.blocks() =~~= ff1);
            lemma_pack_fields_shape(ff1, fv, next0);
            lemma_children_fields_len(fv);
            assert(pack_one_struct(start, input@, next0) == if fv.len() as int >= 2 {
                Blocks {
                    field_indices: pack_fields(ff1, fv, next0).field_indices + idx_run_bytes(
                        start.n_fields(),
                        fv.len() as int,
                    ),
                    ..pack_fields(ff1, fv, next0)
                }
            } else {
                pack_fields(ff1, fv, next0)
            });
        }
        let ghost tfields = pack_fields(ff1, fv, next0);
        proof {
            assert(next0 + children_fields(fv).len() <= 0x4000_0000);
            assert(tfields.total() <= 0xFFFF_FFFF) by {
                if fv.len() as int >= 2 {
                    crate::model::lemma_idx_run_bytes_len(start.n_fields(), fv.len() as int);
                }
            }
        }
        proof {
            assert(fv.skip(0) =~= fv);
            assert(next_base as int == next0);
        }
        let mut next_idx: usize = next_base;
        let mut k: usize = 0;
        while k < n
            invariant
                0 <= k <= n,
                n == fv.len(),
                n == input.fields@.len(),
                fv == raw_fields_view(input.fields@),
                forall|i: int|
                    0 <= i < input.fields@.len() ==> fv[i] == (
                    input.fields@[i].0@,
                    crate::raw::raw_value_view(input.fields@[i].1),
                ),
                next_idx as int + children_fields(fv.skip(k as int)).len() == next0
                    + children_fields(fv).len(),
                next0 + children_fields(fv).len() <= 0x4000_0000,
                tfields == pack_fields(self.data.blocks(), fv.skip(k as int), next_idx as int),
                tfields.total() <= 0xFFFF_FFFF,
                q_views(old(structs)@) + children_fields(fv) == q_views(structs@)
                    + children_fields(fv.skip(k as int)),
                self.data.header == old(self).data.header,
                self.encodings == old(self).encodings,
            decreases n - k,
        {
            proof {
                assert(fv.skip(k as int)[0] == fv[k as int]);
                assert(fv.skip(k as int).drop_first() =~= fv.skip(k as int + 1));
                lemma_pack_one_field_shape(
                    self.data.blocks(),
                    fv[k as int].0,
                    fv[k as int].1,
                    next_idx as int,
                );
                lemma_pack_fields_shape(
                    pack_one_field(self.data.blocks(), fv[k as int].0, fv[k as int].1, next_idx as int),
                    fv.skip(k as int + 1),
                    next_idx as int + children_value(fv[k as int].1).len(),
                );
            }
            let pair: &(Vec<u8>, RawValue) = &input.fields[k];
            self.pack_field_raw(&pair.0, &pair.1, structs, next_idx);
            let c = children_count(&pair.1);
            proof {
                assert(q_views(old(structs)@) + children_fields(fv) =~= q_views(structs@)
                    + children_fields(fv.skip(k as int + 1)));
            }
            next_idx = next_idx + c;
            k += 1;
        }
        proof {
            assert(fv.skip(n as int) =~= Seq::<(Seq<u8>, RawValueV)>::empty());
            assert(self.data.blocks() == tfields);
            assert(q_views(structs@) =~= q_views(old(structs)@) + children_fields(fv));
        }
        if n >= 2 {
            proof {
                assert(12 * (nf0 as int) <= start.fields.len());
                assert(12 * (n as int) <= tfields.fields.len() - start.fields.len());
                assert(nf0 + n <= 0x2000_0000);
            }
            let ghost pre = self.data.blocks();
            let ghost target = Blocks {
                field_indices: pre.field_indices + idx_run_bytes(start.n_fields(), n as int),
                ..pre
            };
            let mut j: usize = 0;
            while j < n
                invariant
                    0 <= j <= n,
                    nf0 as int == start.n_fields(),
                    nf0 + n <= 0x2000_0000,
                    target == (Blocks {
                        field_indices: self.data.blocks().field_indices + idx_run_bytes(
                            nf0 as int + j as int,
                            n as int - j as int,
                        ),
                        ..self.data.blocks()
                    }),
                    self.data.header == old(self).data.header,
                    self.encodings == old(self).encodings,
                decreases n - j,
            {
                push_u32(&mut self.data.field_indices, (nf0 + j) as u32);
                j += 1;
                proof {
                    assert(target =~~= (Blocks {
                        field_indices: self.data.blocks().field_indices + idx_run_bytes(
                            nf0 as int + j as int,
                            n as int - j as int,
                        ),
                        ..self.data.blocks()
                    }));
                }
            }
            proof {
                assert(self.data.blocks() =~~= target);
                assert(self.data.blocks() =~~= pack_one_struct(start, input@, next0));
            }
        } else {
            proof {
                assert(self.data.blocks() =~~= pack_one_struct(start, input@, next0));
            }
        }
        proof {
            assert(q_views(structs@) == q_views(old(structs)@) + children_struct(input@));
        }
    }

    /// Packs a whole tree breadth-first and returns the packed file: the
    /// header followed by the six blocks.  The root receives struct index
    /// 0 and sub-structs the next free index, in discovery order.
    #[verifier::rlimit(100)]
    pub fn pack_raw(&mut self, input: &RawStruct) -> (r: Vec<u8>)
        requires
            old(self).data.blocks() == Blocks::empty(),
            spec_size_ub(input@) <= 0xFFFF_FFFF,
        ensures
            final(self).data.blocks() == pack_blocks(input@),
            r@ == crate::model::file_bytes(
                pack_blocks(input@),
                old(self).data.header.gff_type@,
                old(self).data.header.version@,
            ),
            final(self).data.header.gff_type == old(self).data.header.gff_type,
            final(self).data.header.version == old(self).data.header.version,
            final(self).data.header.structs.1 as int == pack_blocks(input@).n_structs(),
            final(self).data.header.fields.1 as int == pack_blocks(input@).n_fields(),
            final(self).data.header.labels.1 as int == pack_blocks(input@).n_labels(),
            final(self).data.header.field_data.1 as int == pack_blocks(input@).field_data.len(),
            final(self).data.header.field_indices.1 as int == pack_blocks(
                input@,
            ).field_indices.len(),
            final(self).data.header.list_indices.1 as int == pack_blocks(
                input@,
            ).list_indices.len(),
            final(self).encodings == old(self).encodings,
    {
        let ghost target = pack_blocks(input@);
        let mut queue: Vec<&RawStruct> = Vec::new();
        queue.push(input);
        proof {
            assert(q_views(queue@) =~= seq![input@]);
            lemma_pack_forest_shape(Blocks::empty(), seq![input@]);
            assert(sum_cost(seq![input@]) == crate::raw::cost_struct(input@) + sum_cost(
                seq![input@].drop_first(),
            ));
            assert(seq![input@].drop_first() =~= Seq::<RawStructV>::empty());
            assert(target.total() <= 0xFFFF_FFFF);
            assert(Blocks::empty().aligned());
            assert(target.aligned());
        }
        while queue.len() > 0
            invariant
                pack_forest(self.data.blocks(), q_views(queue@)) == target,
                target == pack_blocks(input@),
                target.total() <= 0xFFFF_FFFF,
                self.data.blocks().aligned(),
                target.aligned(),
                self.data.header == old(self).data.header,
                self.encodings == old(self).encodings,
            decreases n_nodes_structs(q_views(queue@)),
        {
            let ghost cur = self.data.blocks();
            let ghost qv = q_views(queue@);
            proof {
                assert(qv.len() == queue@.len());
                lemma_pack_step(cur, qv, target);
            }
            let st = queue.remove(0);
            proof {
                assert(q_views(queue@) =~= qv.drop_first());
                assert(st@ == qv[0]);
            }
            self.pack_struct(st, &mut queue);
            proof {
                assert(q_views(queue@) == qv.drop_first() + children_struct(st@));
            }
        }
        proof {
            assert(q_views(queue@) =~= Seq::<RawStructV>::empty());
            assert(self.data.blocks() == target);
        }
        self.finalize();
        let out = self.write_out();
        proof {
            assert(out@ == crate::model::file_bytes(
                target,
                old(self).data.header.gff_type@,
                old(self).data.header.version@,
            ));
        }
        out
    }

    /// Packs a whole character-string tree and returns the packed file.
    /// The tree is first encoded into its on-wire codepages — which may
    /// refuse a long label or resource reference — and then packed
    /// breadth-first; the output must fit the format's 32-bit offsets.
    pub fn pack(&mut self, input: &crate::value::GffStruct) -> (r: Result<Vec<u8>, GffError>)
        requires
            old(self).data.blocks() == Blocks::empty(),
            crate::convert::strings_fit(input@),
            crate::convert::enc_struct(input@, old(self).encodings) matches Ok(rv)
                ==> spec_size_ub(rv) <= 0xFFFF_FFFF,
        ensures
            ({
                match crate::convert::enc_struct(input@, old(self).encodings) {
                    Err(e) => r == Err::<Vec<u8>, GffError>(e) && *final(self) == *old(self),
                    Ok(rv) => {
                        &&& r matches Ok(b) && b@ == crate::model::file_bytes(
                            pack_blocks(rv),
                            old(self).data.header.gff_type@,
                            old(self).data.header.version@,
                        )
                        &&& final(self).data.blocks() == pack_blocks(rv)
                    },
                }
            }),
    {
        let rs = match crate::convert::encode_tree(input, self.encodings) {
            Ok(rs) => rs,
            Err(e) => {
                return Err(e);
            },
        };
        Ok(self.pack_raw(&rs))
    }

    /// Packs a tree after checking that its packed form fits the format's
    /// 32-bit offsets: `None` when it would not, otherwise the outcome of
    /// the pack itself.
    pub fn pack_checked(&mut self, input: &crate::value::GffStruct) -> (r: Option<
        Result<Vec<u8>, GffError>,
    >)
        requires
            old(self).data.blocks() == Blocks::empty(),
            crate::convert::strings_fit(input@),
        ensures
            ({
                match crate::convert::enc_struct(input@, old(self).encodings) {
                    Err(e) => r == Some(Err::<Vec<u8>, GffError>(e)),
                    Ok(rv) => if spec_size_ub(rv) <= 0xFFFF_FFFF {
                        r matches Some(res) && res matches Ok(b) && b@
                            == crate::model::file_bytes(
                            pack_blocks(rv),
                            old(self).data.header.gff_type@,
                            old(self).data.header.version@,
                        )
                    } else {
                        r is None
                    },
                }
            }),
    {
        let rs = match crate::convert::encode_tree(input, self.encodings) {
            Ok(rs) => rs,
            Err(e) => {
                return Some(Err(e));
            },
        };
        let ub = crate::raw::size_ub(&rs);
        if ub <= 0xFFFF_FFFF {
            Some(self.pack(input))
        } else {
            None
        }
    }

    /// Fills the header from the finished blocks: offsets accumulate from
    /// 56 in block order, counts are record counts for the first three
    /// blocks and byte counts for the rest.
    fn finalize(&mut self)
        requires
            old(self).data.blocks().total() <= 0xFFFF_FFFF,
        ensures
            final(self).data.blocks() == old(self).data.blocks(),
            final(self).encodings == old(self).encodings,
            final(self).data.header.gff_type == old(self).data.header.gff_type,
            final(self).data.header.version == old(self).data.header.version,
            header_struct_bytes(final(self).data.header) == crate::model::header_bytes(
                old(self).data.blocks(),
                old(self).data.header.gff_type@,
                old(self).data.header.version@,
            ),
            final(self).data.header.structs.1 as int == old(self).data.blocks().n_structs(),
            final(self).data.header.fields.1 as int == old(self).data.blocks().n_fields(),
            final(self).data.header.labels.1 as int == old(self).data.blocks().n_labels(),
            final(self).data.header.field_data.1 as int == old(
                self,
            ).data.blocks().field_data.len(),
            final(self).data.header.field_indices.1 as int == old(
                self,
            ).data.blocks().field_indices.len(),
            final(self).data.header.list_indices.1 as int == old(
                self,
            ).data.blocks().list_indices.len(),
    {
        let o_structs: usize = 56;
        let o_fields: usize = o_structs + self.data.structs.len();
        let o_labels: usize = o_fields + self.data.fields.len();
        let o_field_data: usize = o_labels + self.data.labels.len();
        let o_field_indices: usize = o_field_data + self.data.field_data.len();
        let o_list_indices: usize = o_field_indices + self.data.field_indices.len();
        self.data.header.structs = OffsetCount(o_structs as u32, (self.data.structs.len() / 12) as u32);
        self.data.header.fields = OffsetCount(o_fields as u32, (self.data.fields.len() / 12) as u32);
        self.data.header.labels = OffsetCount(o_labels as u32, (self.data.labels.len() / 16) as u32);
        self.data.header.field_data = OffsetCount(
            o_field_data as u32,
            self.data.field_data.len() as u32,
        );
        self.data.header.field_indices = OffsetCount(
            o_field_indices as u32,
            self.data.field_indices.len() as u32,
        );
        self.data.header.list_indices = OffsetCount(
            o_list_indices as u32,
            self.data.list_indices.len() as u32,
        );
    }

    /// Assembles the header and the six blocks into one contiguous byte
    /// buffer.
    fn write_out(&self) -> (r: Vec<u8>)
        ensures
            r@ == header_struct_bytes(self.data.header) + self.data.blocks().structs
                + self.data.blocks().fields + self.data.blocks().labels
                + self.data.blocks().field_data + self.data.blocks().field_indices
                + self.data.blocks().list_indices,
    {
        let mut out: Vec<u8> = Vec::new();
        out.extend_from_slice(self.data.header.gff_type.as_slice());
        out.extend_from_slice(self.data.header.version.as_slice());
        push_u32(&mut out, self.data.header.structs.0);
        push_u32(&mut out, self.data.header.structs.1);
        push_u32(&mut out, self.data.header.fields.0);
        push_u32(&mut out, self.data.header.fields.1);
        push_u32(&mut out, self.data.header.labels.0);
        push_u32(&mut out, self.data.header.labels.1);
        push_u32(&mut out, self.data.header.field_data.0);
        push_u32(&mut out, self.data.header.field_data.1);
        push_u32(&mut out, self.data.header.field_indices.0);
        push_u32(&mut out, self.data.header.field_indices.1);
        push_u32(&mut out, self.data.header.list_indices.0);
        push_u32(&mut out, self.data.header.list_indices.1);
        out.extend_from_slice(self.data.structs.as_slice());
        out.extend_from_slice(self.data.fields.as_slice());
        out.extend_from_slice(self.data.labels.as_slice());
        out.extend_from_slice(self.data.field_data.as_slice());
        out.extend_from_slice(self.data.field_indices.as_slice());
        out.extend_from_slice(self.data.list_indices.as_slice());
        proof {
            assert(out@ =~= header_struct_bytes(self.data.header) + self.data.blocks().structs
                + self.data.blocks().fields + self.data.blocks().labels
                + self.data.blocks().field_data + self.data.blocks().field_indices
                + self.data.blocks().list_indices);
        }
        out
    }
}

/// Hook for mapping layers that lower one user value into a packed
/// field: implemented per primitive type, consumed by code above the
/// codec.  The return value is the index of the packed field record.
pub trait PackField {
    fn pack_field(&self, label: &String, packer: &mut Packer) -> Result<u32, GffError>;
}

/// Hook for mapping layers that lower a user-defined record to a struct
/// of the field tree.
pub trait PackStruct {
    fn pack(&self) -> Result<crate::value::GffStruct, &'static str>;
}

impl PackField for String {
    /// Packs a string as a non-localized string field: an out-of-line
    /// record and the encoded bytes behind a 32-bit length.
    fn pack_field(&self, label: &String, packer: &mut Packer) -> (r: Result<u32, GffError>) {
        if label.as_str().unicode_len() >= 0x400_0000 {
            return Err(GffError::LabelTooLong);
        }
        if self.as_str().unicode_len() >= 0x400_0000 {
            return Err(GffError::StringLengthOverflow(0));
        }
        let label_idx = match packer.pack_label(label) {
            Ok(li) => li,
            Err(e) => {
                return Err(e);
            },
        };
        let nf = packer.data.fields.len() / 12;
        packer.pack_data_offset(10, label_idx);
        let b = crate::enc::encode_bytes(crate::common::Codepage::Windows1252, self.as_str());
        packer.pack_data_u32(b.len() as u32);
        packer.pack_data_slice(b.as_slice());
        Ok(nf as u32)
    }
}

/// Serializes every member through the caller's [`crate::packer::PackStruct`]
/// hook into a list field; the members become the structs of the list.
pub fn serialize_list<T: PackStruct>(items: &Vec<T>) -> (r: Result<
    crate::value::GffFieldValue,
    &'static str,
>)
    ensures
        r matches Ok(v) ==> v matches crate::value::GffFieldValue::List(_),
{
    let mut out: Vec<crate::value::GffStruct> = Vec::new();
    let mut i: usize = 0;
    while i < items.len()
        decreases items@.len() - i,
    {
        match items[i].pack() {
            Ok(s) => out.push(s),
            Err(e) => {
                return Err(e);
            },
        }
        i += 1;
    }
    Ok(crate::value::GffFieldValue::List(out))
}

} // verus!
