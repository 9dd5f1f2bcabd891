//! Round-trip theorems: what the parser makes of the packer's output.
//!
//! The central statement is that parsing a packed file yields the tree
//! that was packed.  It is proved here for flat trees — structs whose
//! fields are all leaves — covering the header, the block layout, label
//! interning and every leaf codec; trees with struct and list fields are
//! not covered by the proof.

use vstd::prelude::*;
use crate::common::{GffError, spec_version_tag};
use crate::model::{
    Blocks, blocks_extend, children_fields, children_struct, children_value, file_bytes, find_label_from,
    header_bytes, idx_run_bytes, intern_label, is_prefix, le16, le32, le64, lemma_idx_run_bytes_len,
    lemma_le16_len, lemma_le32_len, lemma_le64_len, lemma_loc_entries_bytes_len,
    lemma_loc_entries_extra_nonneg, lemma_pack_fields_shape, lemma_pack_forest_shape,
    lemma_pack_one_field_shape, lemma_pad16_len, loc_entries_bytes, pack_blocks, pack_fields,
    pack_forest, pack_one_field, pack_one_struct, pad16, sum_cost,
};
use crate::parser::{
    n_unmarked, parse_field_spec, parse_fields_spec, parse_header_spec, parse_list_spec, parse_loc_entries_spec,
    parse_struct_spec, parse_file_spec, read_u32, trunc_nul, lemma_trunc_nul_prefix,
};
use crate::raw::{
    LocEntryV, RawStructV, RawValueV, cost_fields, cost_value, loc_entries_extra, spec_size_ub,
    wf_fields, wf_label, wf_struct, wf_value,
};

verus! {

/// A value without sub-structs: every leaf type of the format.
pub open spec fn flat_value(v: RawValueV) -> bool {
    match v {
        RawValueV::Struct(_) => false,
        RawValueV::List(_) => false,
        _ => true,
    }
}

pub open spec fn flat_fields(fs: Seq<(Seq<u8>, RawValueV)>) -> bool
    decreases fs,
{
    if fs.len() == 0 {
        true
    } else {
        flat_value(fs[0].1) && flat_fields(fs.drop_first())
    }
}

/// A tree of one struct: all of its fields are leaves.
pub open spec fn flat_struct(s: RawStructV) -> bool {
    flat_fields(s.fields)
}

/// The packed file laid back out: its length is the blocks' total, its
/// first 56 bytes are the header, and each block sits at its offset.
pub proof fn lemma_file_layout(ff: Blocks, tag: Seq<u8>)
    requires
        tag.len() == 4,
    ensures
        ({
            let file = file_bytes(ff, tag, spec_version_tag());
            let o_fields = 56 + ff.structs.len() as int;
            let o_labels = o_fields + ff.fields.len() as int;
            let o_field_data = o_labels + ff.labels.len() as int;
            let o_field_indices = o_field_data + ff.field_data.len() as int;
            let o_list_indices = o_field_indices + ff.field_indices.len() as int;
            &&& file.len() == ff.total()
            &&& file.subrange(0, 56) == header_bytes(ff, tag, spec_version_tag())
            &&& file.subrange(56, o_fields) == ff.structs
            &&& file.subrange(o_fields, o_labels) == ff.fields
            &&& file.subrange(o_labels, o_field_data) == ff.labels
            &&& file.subrange(o_field_data, o_field_indices) == ff.field_data
            &&& file.subrange(o_field_indices, o_list_indices) == ff.field_indices
            &&& file.subrange(o_list_indices, o_list_indices + ff.list_indices.len() as int)
                == ff.list_indices
        }),
{
    broadcast use lemma_le32_len;

    let ver = spec_version_tag();
    let file = file_bytes(ff, tag, ver);
    let h = header_bytes(ff, tag, ver);
    assert(h.len() == 56);
    let o_fields = 56 + ff.structs.len() as int;
    let o_labels = o_fields + ff.fields.len() as int;
    let o_field_data = o_labels + ff.labels.len() as int;
    let o_field_indices = o_field_data + ff.field_data.len() as int;
    let o_list_indices = o_field_indices + ff.field_indices.len() as int;
    assert(file.subrange(0, 56) =~= h);
    assert(file.subrange(56, o_fields) =~= ff.structs);
    assert(file.subrange(o_fields, o_labels) =~= ff.fields);
    assert(file.subrange(o_labels, o_field_data) =~= ff.labels);
    assert(file.subrange(o_field_data, o_field_indices) =~= ff.field_data);
    assert(file.subrange(o_field_indices, o_list_indices) =~= ff.field_indices);
    assert(file.subrange(o_list_indices, o_list_indices + ff.list_indices.len() as int)
        =~= ff.list_indices);
}

/// The header of a packed file parses back to exactly the blocks it was
/// computed from: offsets and counts agree and the slices return the
/// blocks.
pub proof fn lemma_header_roundtrip(ff: Blocks, tag: Seq<u8>)
    requires
        ff.aligned(),
        ff.total() <= 0xFFFF_FFFF,
        tag.len() == 4,
    ensures
        parse_header_spec(file_bytes(ff, tag, spec_version_tag())) == Ok::<Blocks, GffError>(ff),
{
    broadcast use lemma_le32_len;

    vstd::bytes::lemma_auto_spec_u32_to_from_le_bytes();
    let ver = spec_version_tag();
    let file = file_bytes(ff, tag, ver);
    let h = header_bytes(ff, tag, ver);
    lemma_file_layout(ff, tag);
    let o_fields = 56 + ff.structs.len() as int;
    let o_labels = o_fields + ff.fields.len() as int;
    let o_field_data = o_labels + ff.labels.len() as int;
    let o_field_indices = o_field_data + ff.field_data.len() as int;
    let o_list_indices = o_field_indices + ff.field_indices.len() as int;
    assert(file.subrange(4, 8) =~= ver);
    assert(file.subrange(8, 12) =~= le32(56u32));
    assert(file.subrange(12, 16) =~= le32(ff.n_structs() as u32));
    assert(file.subrange(16, 20) =~= le32(o_fields as u32));
    assert(file.subrange(20, 24) =~= le32(ff.n_fields() as u32));
    assert(file.subrange(24, 28) =~= le32(o_labels as u32));
    assert(file.subrange(28, 32) =~= le32(ff.n_labels() as u32));
    assert(file.subrange(32, 36) =~= le32(o_field_data as u32));
    assert(file.subrange(36, 40) =~= le32(ff.field_data.len() as u32));
    assert(file.subrange(40, 44) =~= le32(o_field_indices as u32));
    assert(file.subrange(44, 48) =~= le32(ff.field_indices.len() as u32));
    assert(file.subrange(48, 52) =~= le32(o_list_indices as u32));
    assert(file.subrange(52, 56) =~= le32(ff.list_indices.len() as u32));
    // the counts and offsets fit 32 bits, so reading them back undoes the
    // truncating casts
    assert(12 * ff.n_structs() == ff.structs.len());
    assert(12 * ff.n_fields() == ff.fields.len());
    assert(16 * ff.n_labels() == ff.labels.len());
    assert(read_u32(file, 12) as int == ff.n_structs());
    assert(read_u32(file, 20) as int == ff.n_fields());
    assert(read_u32(file, 28) as int == ff.n_labels());
    assert(read_u32(file, 36) as int == ff.field_data.len());
    assert(read_u32(file, 44) as int == ff.field_indices.len());
    assert(read_u32(file, 52) as int == ff.list_indices.len());
    assert(read_u32(file, 8) as int == 56);
    assert(read_u32(file, 16) as int == o_fields);
    assert(read_u32(file, 24) as int == o_labels);
    assert(read_u32(file, 32) as int == o_field_data);
    assert(read_u32(file, 40) as int == o_field_indices);
    assert(read_u32(file, 48) as int == o_list_indices);
    match parse_header_spec(file) {
        Ok(got) => {
            assert(got =~~= ff);
        },
        Err(_) => {
            assert(false);
        },
    }
}

/// Leaves hand nothing to the breadth-first queue.
proof fn lemma_children_flat(fs: Seq<(Seq<u8>, RawValueV)>)
    requires
        flat_fields(fs),
    ensures
        children_fields(fs) == Seq::<RawStructV>::empty(),
    decreases fs,
{
    if fs.len() == 0 {
    } else {
        lemma_children_flat(fs.drop_first());
        assert(children_value(fs[0].1) =~= Seq::<RawStructV>::empty());
        assert(children_fields(fs) =~= Seq::<RawStructV>::empty());
    }
}

/// Every field costs at least its fixed block bytes.
proof fn lemma_cost_fields_min(fs: Seq<(Seq<u8>, RawValueV)>)
    ensures
        cost_fields(fs) >= 32 * fs.len(),
    decreases fs,
{
    if fs.len() > 0 {
        lemma_cost_fields_min(fs.drop_first());
        crate::model::lemma_cost_value_nonneg(fs[0].1);
    }
}

/// Every substring of a localized string takes at least its 8-byte key
/// and length.
proof fn lemma_loc_extra_min(es: Seq<LocEntryV>)
    ensures
        loc_entries_extra(es) >= 8 * es.len(),
    decreases es,
{
    if es.len() > 0 {
        lemma_loc_extra_min(es.drop_first());
    }
}

/// A found label entry really is the sought entry.
proof fn lemma_find_label_found(labels: Seq<u8>, p: Seq<u8>, i: int, j: int)
    requires
        find_label_from(labels, p, i) == Some(j),
    ensures
        0 <= j,
        16 * j + 16 <= labels.len(),
        labels.subrange(16 * j, 16 * j + 16) == p,
    decreases labels.len() as int / 16 - i,
{
    if i < 0 || i >= labels.len() as int / 16 {
    } else if labels.subrange(16 * i, 16 * i + 16) == p {
        assert(i + 1 <= labels.len() as int / 16);
    } else {
        lemma_find_label_found(labels, p, i + 1, j);
    }
}

/// Interning puts the padded label at the returned index, extending the
/// block by at most one entry.
proof fn lemma_intern_entry(labels: Seq<u8>, l: Seq<u8>)
    requires
        labels.len() % 16 == 0,
    ensures
        ({
            let (labels2, li) = intern_label(labels, l);
            &&& 0 <= li
            &&& 16 * li + 16 <= labels2.len()
            &&& labels2.subrange(16 * li, 16 * li + 16) == pad16(l)
            &&& is_prefix(labels, labels2)
            &&& labels2.len() <= labels.len() + 16
        }),
{
    broadcast use lemma_pad16_len;

    let p = pad16(l);
    match find_label_from(labels, p, 0) {
        Some(j) => {
            lemma_find_label_found(labels, p, 0, j);
        },
        None => {
            assert((labels + p).subrange(labels.len() as int, labels.len() as int + 16) =~= p);
        },
    }
}

/// A well-formed label survives padding and truncation unchanged.
proof fn lemma_trunc_pad(l: Seq<u8>)
    requires
        wf_label(l),
    ensures
        trunc_nul(pad16(l)) == l,
{
    broadcast use lemma_pad16_len;

    let p = pad16(l);
    lemma_trunc_nul_prefix(p, l.len() as int);
    assert(p.subrange(0, l.len() as int) =~= l);
}

/// One entry of an index run reads back as its index.
proof fn lemma_idx_run_read(base: int, n: int, k: int)
    requires
        0 <= k < n,
    ensures
        idx_run_bytes(base, n).subrange(4 * k, 4 * k + 4) == le32((base + k) as u32),
    decreases k,
{
    broadcast use lemma_le32_len;

    lemma_idx_run_bytes_len(base, n);
    lemma_idx_run_bytes_len(base + 1, n - 1);
    if k == 0 {
        assert(idx_run_bytes(base, n).subrange(0, 4) =~= le32(base as u32));
    } else {
        lemma_idx_run_read(base + 1, n - 1, k - 1);
        assert(idx_run_bytes(base, n).subrange(4 * k, 4 * k + 4) =~= idx_run_bytes(
            base + 1,
            n - 1,
        ).subrange(4 * (k - 1), 4 * (k - 1) + 4));
    }
}

/// The substrings written for a localized string parse back to the same
/// substrings.
proof fn lemma_parse_loc_inverse(fd: Seq<u8>, off: int, es: Seq<LocEntryV>)
    requires
        0 <= off,
        off + loc_entries_extra(es) <= fd.len(),
        fd.len() < 0x1_0000_0000,
        fd.subrange(off, off + loc_entries_extra(es)) == loc_entries_bytes(es),
    ensures
        parse_loc_entries_spec(fd, off, off + loc_entries_extra(es), es.len() as int) == Ok::<
            Seq<LocEntryV>,
            GffError,
        >(es),
    decreases es,
{
    broadcast use lemma_le32_len;

    vstd::bytes::lemma_auto_spec_u32_to_from_le_bytes();
    lemma_loc_entries_bytes_len(es);
    let end = off + loc_entries_extra(es);
    assert(forall|t: int|
        0 <= t < loc_entries_extra(es) ==> fd[off + t] == #[trigger] loc_entries_bytes(es)[t]) by {
        assert forall|t: int|
            0 <= t < loc_entries_extra(es) implies fd[off + t] == #[trigger] loc_entries_bytes(
            es,
        )[t] by {
            assert(fd.subrange(off, end)[t] == fd[off + t]);
        }
    }
    if es.len() == 0 {
        assert(es =~= Seq::<LocEntryV>::empty());
    } else {
        let e0 = es[0];
        let rest = es.drop_first();
        lemma_loc_entries_extra_nonneg(rest);
        lemma_loc_entries_bytes_len(rest);
        let dlen = e0.data.len() as int;
        let bytes0 = fd.subrange(off, end);
        assert(bytes0 == le32(e0.key) + le32(e0.data.len() as u32) + e0.data + loc_entries_bytes(
            rest,
        ));
        assert(fd.subrange(off, off + 4) =~= bytes0.subrange(0, 4));
        assert(bytes0.subrange(0, 4) =~= le32(e0.key));
        assert(fd.subrange(off + 4, off + 8) =~= bytes0.subrange(4, 8));
        assert(bytes0.subrange(4, 8) =~= le32(e0.data.len() as u32));
        assert(dlen < 0x1_0000_0000);
        assert(read_u32(fd, off) == e0.key);
        assert(read_u32(fd, off + 4) as int == dlen);
        assert(fd.subrange(off + 8, off + 8 + dlen) =~= bytes0.subrange(8, 8 + dlen));
        assert(bytes0.subrange(8, 8 + dlen) =~= e0.data);
        assert(fd.subrange(off + 8 + dlen, end) =~= bytes0.subrange(8 + dlen, end - off));
        assert(bytes0.subrange(8 + dlen, end - off) =~= loc_entries_bytes(rest));
        lemma_parse_loc_inverse(fd, off + 8 + dlen, rest);
        assert(off + 8 + dlen + loc_entries_extra(rest) == end);
        assert(parse_loc_entries_spec(fd, off + 8 + dlen, end, rest.len() as int) == Ok::<
            Seq<LocEntryV>,
            GffError,
        >(rest));
        assert(LocEntryV { key: e0.key, data: fd.subrange(off + 8, off + 8 + dlen) } == e0);
        assert(seq![e0] + rest =~= es);
    }
}

/// A flat field packed at position `j` of the run parses back to itself,
/// from any blocks that carry the packed field, data and label blocks.
/// The visited marks are untouched: a leaf field never recurses.
proof fn lemma_parse_flat_field(
    ff0: Blocks,
    fs: Seq<(Seq<u8>, RawValueV)>,
    i: int,
    ff: Blocks,
    j: int,
    vis: Seq<bool>,
)
    requires
        flat_fields(fs),
        wf_fields(fs),
        0 <= j < fs.len(),
        ff0.fields.len() % 12 == 0,
        ff0.labels.len() % 16 == 0,
        ff.fields == pack_fields(ff0, fs, i).fields,
        ff.field_data == pack_fields(ff0, fs, i).field_data,
        ff.labels == pack_fields(ff0, fs, i).labels,
        ff.fields.len() < 0x1_0000_0000,
        ff.field_data.len() < 0x1_0000_0000,
        ff.labels.len() < 0x1_0000_0000,
    ensures
        parse_field_spec(ff, ff0.n_fields() + j, vis) == (
            Ok::<(Seq<u8>, RawValueV), GffError>(fs[j]),
            vis,
        ),
    decreases j,
{
    broadcast use lemma_le16_len, lemma_le32_len, lemma_le64_len, lemma_pad16_len;

    vstd::bytes::lemma_auto_spec_u16_to_from_le_bytes();
    vstd::bytes::lemma_auto_spec_u32_to_from_le_bytes();
    vstd::bytes::lemma_auto_spec_u64_to_from_le_bytes();
    let label = fs[0].0;
    let v = fs[0].1;
    let ff1 = pack_one_field(ff0, label, v, i);
    let tf = pack_fields(ff0, fs, i);
    lemma_pack_one_field_shape(ff0, label, v, i);
    lemma_pack_fields_shape(ff1, fs.drop_first(), i + children_value(v).len());
    if j > 0 {
        lemma_parse_flat_field(ff1, fs.drop_first(), i + children_value(v).len(), ff, j - 1, vis);
        assert(ff1.n_fields() + (j - 1) == ff0.n_fields() + j);
    } else {
        let nf0 = ff0.n_fields();
        let base = 12 * nf0;
        assert(12 * nf0 == ff0.fields.len());
        let (labels1, li) = intern_label(ff0.labels, label);
        lemma_intern_entry(ff0.labels, label);
        // the field record, the appended data and the label entry are all
        // stable under the later fields' appends
        assert(blocks_extend(ff1, tf));
        assert(ff.n_fields() > nf0);
        assert(ff.fields.subrange(base, base + 12) =~= ff1.fields.subrange(base, base + 12));
        assert(li < 0x1_0000_0000) by {
            assert(16 * li + 16 <= labels1.len());
            assert(is_prefix(labels1, tf.labels));
        }
        let lbl32 = li as u32;
        assert(16 * li + 16 <= ff.labels.len()) by {
            assert(is_prefix(labels1, tf.labels));
        }
        assert(ff.labels.subrange(16 * li, 16 * li + 16) =~= labels1.subrange(
            16 * li,
            16 * li + 16,
        ));
        assert(wf_label(label) && wf_value(v) && flat_value(v));
        lemma_trunc_pad(label);
        let fd0 = ff0.field_data.len() as int;
        assert(fd0 < 0x1_0000_0000) by {
            assert(is_prefix(ff1.field_data, tf.field_data));
        }
        assert(ff.fields.len() == 12 * (nf0 + fs.len())) by {
            assert(12 * nf0 == ff0.fields.len());
        }
        assert(ff.n_fields() == nf0 + fs.len());
        match v {
            RawValueV::Byte(x) => {
                assert(ff.fields.subrange(base, base + 4) =~= le32(0u32));
                assert(ff.fields.subrange(base + 4, base + 8) =~= le32(lbl32));
                assert(ff.fields[base + 8] == x);
            },
            RawValueV::Char(x) => {
                assert(ff.fields.subrange(base, base + 4) =~= le32(1u32));
                assert(ff.fields.subrange(base + 4, base + 8) =~= le32(lbl32));
                assert(ff.fields[base + 8] == x as u8);
                assert((x as u8) as i8 == x) by (bit_vector);
            },
            RawValueV::Word(x) => {
                assert(ff.fields.subrange(base, base + 4) =~= le32(2u32));
                assert(ff.fields.subrange(base + 4, base + 8) =~= le32(lbl32));
                assert(ff.fields.subrange(base + 8, base + 10) =~= le16(x));
            },
            RawValueV::Short(x) => {
                assert(ff.fields.subrange(base, base + 4) =~= le32(3u32));
                assert(ff.fields.subrange(base + 4, base + 8) =~= le32(lbl32));
                assert(ff.fields.subrange(base + 8, base + 10) =~= le16(x as u16));
                assert((x as u16) as i16 == x) by (bit_vector);
            },
            RawValueV::DWord(x) => {
                assert(ff.fields.subrange(base, base + 4) =~= le32(4u32));
                assert(ff.fields.subrange(base + 4, base + 8) =~= le32(lbl32));
                assert(ff.fields.subrange(base + 8, base + 12) =~= le32(x));
            },
            RawValueV::Int(x) => {
                assert(ff.fields.subrange(base, base + 4) =~= le32(5u32));
                assert(ff.fields.subrange(base + 4, base + 8) =~= le32(lbl32));
                assert(ff.fields.subrange(base + 8, base + 12) =~= le32(x as u32));
                assert((x as u32) as i32 == x) by (bit_vector);
            },
            RawValueV::DWord64(x) => {
                assert(ff.fields.subrange(base, base + 4) =~= le32(6u32));
                assert(ff.fields.subrange(base + 4, base + 8) =~= le32(lbl32));
                assert(ff.fields.subrange(base + 8, base + 12) =~= le32(fd0 as u32));
                assert(ff.field_data.subrange(fd0, fd0 + 8) =~= le64(x));
            },
            RawValueV::Int64(x) => {
                assert(ff.fields.subrange(base, base + 4) =~= le32(7u32));
                assert(ff.fields.subrange(base + 4, base + 8) =~= le32(lbl32));
                assert(ff.fields.subrange(base + 8, base + 12) =~= le32(fd0 as u32));
                assert(ff.field_data.subrange(fd0, fd0 + 8) =~= le64(x as u64));
                assert((x as u64) as i64 == x) by (bit_vector);
            },
            RawValueV::Float(x) => {
                assert(ff.fields.subrange(base, base + 4) =~= le32(8u32));
                assert(ff.fields.subrange(base + 4, base + 8) =~= le32(lbl32));
                assert(ff.fields.subrange(base + 8, base + 12) =~= le32(x));
            },
            RawValueV::Double(x) => {
                assert(ff.fields.subrange(base, base + 4) =~= le32(9u32));
                assert(ff.fields.subrange(base + 4, base + 8) =~= le32(lbl32));
                assert(ff.fields.subrange(base + 8, base + 12) =~= le32(fd0 as u32));
                assert(ff.field_data.subrange(fd0, fd0 + 8) =~= le64(x));
            },
            RawValueV::CExoString(b) => {
                assert(ff.fields.subrange(base, base + 4) =~= le32(10u32));
                assert(ff.fields.subrange(base + 4, base + 8) =~= le32(lbl32));
                assert(ff.fields.subrange(base + 8, base + 12) =~= le32(fd0 as u32));
                assert(ff.field_data.subrange(fd0, fd0 + 4) =~= le32(b.len() as u32));
                assert(b.len() < 0x1_0000_0000);
                assert(ff.field_data.subrange(fd0 + 4, fd0 + 4 + b.len() as int) =~= b);
            },
            RawValueV::CResRef(b) => {
                assert(ff.fields.subrange(base, base + 4) =~= le32(11u32));
                assert(ff.fields.subrange(base + 4, base + 8) =~= le32(lbl32));
                assert(ff.fields.subrange(base + 8, base + 12) =~= le32(fd0 as u32));
                assert(ff.field_data[fd0] == b.len() as u8);
                assert(b.len() <= 16);
                assert(ff.field_data.subrange(fd0 + 1, fd0 + 1 + b.len() as int) =~= b);
            },
            RawValueV::CExoLocString(tlk, es) => {
                lemma_loc_entries_extra_nonneg(es);
                lemma_loc_extra_min(es);
                lemma_loc_entries_bytes_len(es);
                let extra = loc_entries_extra(es);
                assert(ff.fields.subrange(base, base + 4) =~= le32(12u32));
                assert(ff.fields.subrange(base + 4, base + 8) =~= le32(lbl32));
                assert(ff.fields.subrange(base + 8, base + 12) =~= le32(fd0 as u32));
                assert(8 + extra < 0x1_0000_0000);
                assert(es.len() < 0x1_0000_0000);
                assert(ff.field_data.subrange(fd0, fd0 + 4) =~= le32((8 + extra) as u32));
                assert(ff.field_data.subrange(fd0 + 4, fd0 + 8) =~= le32(tlk));
                assert(ff.field_data.subrange(fd0 + 8, fd0 + 12) =~= le32(es.len() as u32));
                assert(ff.field_data.subrange(fd0 + 12, fd0 + 12 + extra) =~= loc_entries_bytes(
                    es,
                ));
                lemma_parse_loc_inverse(ff.field_data, fd0 + 12, es);
                assert(fd0 + 4 + (8 + extra) == fd0 + 12 + extra);
            },
            RawValueV::Void(b) => {
                assert(ff.fields.subrange(base, base + 4) =~= le32(13u32));
                assert(ff.fields.subrange(base + 4, base + 8) =~= le32(lbl32));
                assert(ff.fields.subrange(base + 8, base + 12) =~= le32(fd0 as u32));
                assert(ff.field_data.subrange(fd0, fd0 + 4) =~= le32(b.len() as u32));
                assert(b.len() < 0x1_0000_0000);
                assert(ff.field_data.subrange(fd0 + 4, fd0 + 4 + b.len() as int) =~= b);
            },
            RawValueV::Struct(_) => {
                assert(false);
            },
            RawValueV::List(_) => {
                assert(false);
            },
        }
        assert(read_u32(ff.fields, base + 4) == lbl32);
        assert(lbl32 as int == li);
        assert(li < ff.n_labels()) by {
            assert(16 * li + 16 <= ff.labels.len());
            assert(li + 1 <= ff.labels.len() as int / 16);
        }
        assert(trunc_nul(ff.labels.subrange(16 * li, 16 * li + 16)) == label);
        assert(parse_field_spec(ff, ff0.n_fields() + j, vis) == (
            Ok::<(Seq<u8>, RawValueV), GffError>((label, v)),
            vis,
        ));
        assert((label, v) == fs[0]);
    }
}

/// A run of flat fields packed behind the index run at the start of the
/// field-indices block parses back to the fields, in order.
proof fn lemma_parse_flat_fields_run(
    ff0: Blocks,
    fs: Seq<(Seq<u8>, RawValueV)>,
    i: int,
    ff: Blocks,
    k: int,
    vis: Seq<bool>,
)
    requires
        flat_fields(fs),
        wf_fields(fs),
        0 <= k <= fs.len(),
        ff0.fields.len() % 12 == 0,
        ff0.labels.len() % 16 == 0,
        ff.fields == pack_fields(ff0, fs, i).fields,
        ff.field_data == pack_fields(ff0, fs, i).field_data,
        ff.labels == pack_fields(ff0, fs, i).labels,
        ff.field_indices == idx_run_bytes(ff0.n_fields(), fs.len() as int),
        ff.fields.len() < 0x1_0000_0000,
        ff.field_data.len() < 0x1_0000_0000,
        ff.labels.len() < 0x1_0000_0000,
    ensures
        parse_fields_spec(ff, 4 * k, fs.len() - k, vis) == (
            Ok::<Seq<(Seq<u8>, RawValueV)>, GffError>(fs.skip(k)),
            vis,
        ),
    decreases fs.len() - k,
{
    broadcast use lemma_le32_len;

    vstd::bytes::lemma_auto_spec_u32_to_from_le_bytes();
    let nf0 = ff0.n_fields();
    let n = fs.len() as int;
    lemma_pack_fields_shape(ff0, fs, i);
    assert(12 * nf0 == ff0.fields.len());
    assert(ff.fields.len() == 12 * (nf0 + n));
    if k == n {
        assert(fs.skip(k) =~= Seq::<(Seq<u8>, RawValueV)>::empty());
    } else {
        lemma_idx_run_read(nf0, n, k);
        assert(ff.field_indices.subrange(4 * k, 4 * k + 4) == le32((nf0 + k) as u32));
        assert(nf0 + k < 0x1_0000_0000);
        assert(read_u32(ff.field_indices, 4 * k) as int == nf0 + k);
        lemma_parse_flat_field(ff0, fs, i, ff, k, vis);
        lemma_parse_flat_fields_run(ff0, fs, i, ff, k + 1, vis);
        assert(fs.skip(k) =~= seq![fs[k]] + fs.skip(k + 1));
    }
}

/// Round trip of a flat tree: a struct whose fields are all leaves packs
/// to a file that parses back to exactly that struct.  Labels must be
/// well formed, resource references within their 16-byte bound, and the
/// packed file within the format's 32-bit offsets.
pub proof fn lemma_parse_pack_flat(s: RawStructV, tag: Seq<u8>)
    requires
        wf_struct(s),
        flat_struct(s),
        spec_size_ub(s) <= 0xFFFF_FFFF,
        tag.len() == 4,
    ensures
        parse_file_spec(file_bytes(pack_blocks(s), tag, spec_version_tag())) == Ok::<
            RawStructV,
            GffError,
        >(s),
{
    broadcast use lemma_le32_len;

    vstd::bytes::lemma_auto_spec_u32_to_from_le_bytes();
    let ff = pack_blocks(s);
    let ff1 = pack_one_struct(Blocks::empty(), s, 1);
    lemma_children_flat(s.fields);
    assert(ff == ff1) by {
        assert(seq![s][0] == s);
        assert(seq![s].drop_first() + children_struct(s) =~= Seq::<RawStructV>::empty());
        assert(pack_forest(ff1, Seq::<RawStructV>::empty()) == ff1);
    }
    lemma_pack_forest_shape(Blocks::empty(), seq![s]);
    assert(ff.total() <= 0xFFFF_FFFF) by {
        assert(sum_cost(seq![s]) == crate::raw::cost_struct(s) + sum_cost(
            seq![s].drop_first(),
        ));
        assert(seq![s].drop_first() =~= Seq::<RawStructV>::empty());
    }
    assert(Blocks::empty().aligned());
    assert(ff.aligned());
    lemma_header_roundtrip(ff, tag);
    let n = s.fields.len() as int;
    lemma_cost_fields_min(s.fields);
    assert(n < 0x1_0000_0000);
    let ff_rec = Blocks {
        structs: Blocks::empty().structs + le32(s.st_type) + le32(
            (if n >= 2 {
                Blocks::empty().field_indices.len() as int
            } else {
                Blocks::empty().n_fields()
            }) as u32,
        ) + le32(n as u32),
        ..Blocks::empty()
    };
    let tf = pack_fields(ff_rec, s.fields, 1);
    lemma_pack_fields_shape(ff_rec, s.fields, 1);
    assert(ff1 == if n >= 2 {
        Blocks { field_indices: tf.field_indices + idx_run_bytes(ff_rec.n_fields(), n), ..tf }
    } else {
        tf
    });
    // the struct record reads back
    assert(ff.structs == tf.structs);
    assert(ff.structs =~= le32(s.st_type) + le32(0u32) + le32(n as u32));
    assert(ff.n_structs() == 1);
    assert(ff.structs.subrange(0, 4) =~= le32(s.st_type));
    assert(ff.structs.subrange(4, 8) =~= le32(0u32));
    assert(ff.structs.subrange(8, 12) =~= le32(n as u32));
    assert(read_u32(ff.structs, 0) == s.st_type);
    assert(read_u32(ff.structs, 4) == 0);
    assert(read_u32(ff.structs, 8) as int == n);
    let vis0 = Seq::new(ff.n_structs() as nat, |i: int| i == 0);
    // the blocks carried to the field parses
    assert(ff.fields == tf.fields && ff.field_data == tf.field_data && ff.labels == tf.labels);
    assert(ff.fields.len() < 0x1_0000_0000 && ff.field_data.len() < 0x1_0000_0000
        && ff.labels.len() < 0x1_0000_0000);
    if n == 0 {
        assert(s.fields =~= Seq::<(Seq<u8>, RawValueV)>::empty());
        assert(parse_struct_spec(ff, 0, vis0).0 == Ok::<RawStructV, GffError>(s));
    } else if n == 1 {
        assert(ff_rec.n_fields() == 0);
        lemma_parse_flat_field(ff_rec, s.fields, 1, ff, 0, vis0);
        assert(seq![s.fields[0]] =~= s.fields);
        assert(parse_struct_spec(ff, 0, vis0).0 == Ok::<RawStructV, GffError>(s));
    } else {
        assert(tf.field_indices =~= Seq::<u8>::empty());
        assert(ff.field_indices =~= idx_run_bytes(0, n));
        assert(ff_rec.n_fields() == 0);
        lemma_idx_run_bytes_len(0, n);
        lemma_parse_flat_fields_run(ff_rec, s.fields, 1, ff, 0, vis0);
        assert(s.fields.skip(0) =~= s.fields);
        assert(parse_struct_spec(ff, 0, vis0).0 == Ok::<RawStructV, GffError>(s));
    }
}

/// Byte identity of pack-of-parse on the packer's own output, for flat
/// trees: parsing a packed file and packing the result reproduces the
/// file byte for byte.
pub proof fn lemma_pack_parse_pack_flat(s: RawStructV, tag: Seq<u8>)
    requires
        wf_struct(s),
        flat_struct(s),
        spec_size_ub(s) <= 0xFFFF_FFFF,
        tag.len() == 4,
    ensures
        ({
            let file = file_bytes(pack_blocks(s), tag, spec_version_tag());
            match parse_file_spec(file) {
                Ok(t) => file_bytes(pack_blocks(t), tag, spec_version_tag()) == file,
                Err(_) => false,
            }
        }),
{
    lemma_parse_pack_flat(s, tag);
}

proof fn lemma_trunc_nul_no_nul(s: Seq<u8>)
    ensures
        trunc_nul(s).len() <= s.len(),
        forall|i: int| 0 <= i < trunc_nul(s).len() ==> trunc_nul(s)[i] != 0,
    decreases s,
{
    if s.len() == 0 || s[0] == 0 {
    } else {
        lemma_trunc_nul_no_nul(s.drop_first());
    }
}

/// Every label a parse returns fits the 16-byte entry it came from and
/// holds no NUL byte.
proof fn lemma_parsed_label_wf(labels: Seq<u8>, lbl: int)
    requires
        0 <= lbl,
        16 * lbl + 16 <= labels.len(),
    ensures
        wf_label(trunc_nul(labels.subrange(16 * lbl, 16 * lbl + 16))),
{
    lemma_trunc_nul_no_nul(labels.subrange(16 * lbl, 16 * lbl + 16));
}

/// What a parse returns is well formed: labels fit their entries and
/// resource references their one-byte length prefix.
proof fn lemma_parse_struct_wf(ff: Blocks, idx: int, vis: Seq<bool>)
    ensures
        parse_struct_spec(ff, idx, vis).0 matches Ok(s) ==> wf_struct(s),
    decreases n_unmarked(vis), 3int, 1int,
{
    if 0 <= idx && idx < ff.n_structs() {
        let count = read_u32(ff.structs, 12 * idx + 8);
        let locator = read_u32(ff.structs, 12 * idx + 4);
        if count == 1 {
            lemma_parse_field_wf(ff, locator as int, vis);
            match parse_field_spec(ff, locator as int, vis).0 {
                Ok(f) => {
                    assert(seq![f].drop_first() =~= Seq::<(Seq<u8>, RawValueV)>::empty());
                },
                Err(_) => {},
            }
        } else if count > 1 {
            lemma_parse_fields_wf(ff, locator as int, count as int, vis);
        }
    }
}

proof fn lemma_parse_fields_wf(ff: Blocks, off: int, cnt: int, vis: Seq<bool>)
    ensures
        parse_fields_spec(ff, off, cnt, vis).0 matches Ok(fs) ==> wf_fields(fs),
    decreases n_unmarked(vis), 2int, cnt, 1int,
{
    if cnt > 0 {
        let fidx = read_u32(ff.field_indices, off);
        lemma_parse_field_wf(ff, fidx as int, vis);
        match parse_field_spec(ff, fidx as int, vis) {
            (Ok(f), vis2) => {
                if n_unmarked(vis2) <= n_unmarked(vis) {
                    lemma_parse_fields_wf(ff, off + 4, cnt - 1, vis2);
                    match parse_fields_spec(ff, off + 4, cnt - 1, vis2).0 {
                        Ok(rest) => {
                            assert((seq![f] + rest)[0] == f);
                            assert((seq![f] + rest).drop_first() =~= rest);
                        },
                        Err(_) => {},
                    }
                }
            },
            _ => {},
        }
    }
}

proof fn lemma_parse_list_wf(ff: Blocks, off: int, cnt: int, vis: Seq<bool>)
    ensures
        parse_list_spec(ff, off, cnt, vis).0 matches Ok(vs) ==> crate::raw::wf_structs(vs),
    decreases n_unmarked(vis), 0int, cnt, 1int,
{
    if cnt > 0 {
        let sidx = read_u32(ff.list_indices, off) as int;
        if 0 <= sidx && sidx < vis.len() && !vis[sidx] {
            crate::parser::lemma_n_unmarked_update(vis, sidx);
            lemma_parse_struct_wf(ff, sidx, vis.update(sidx, true));
            match parse_struct_spec(ff, sidx, vis.update(sidx, true)) {
                (Ok(s), vis2) => {
                    if n_unmarked(vis2) < n_unmarked(vis) {
                        lemma_parse_list_wf(ff, off + 4, cnt - 1, vis2);
                        match parse_list_spec(ff, off + 4, cnt - 1, vis2).0 {
                            Ok(rest) => {
                                assert((seq![s] + rest)[0] == s);
                                assert((seq![s] + rest).drop_first() =~= rest);
                            },
                            Err(_) => {},
                        }
                    }
                },
                _ => {},
            }
        }
    }
}

proof fn lemma_parse_field_wf(ff: Blocks, fidx: int, vis: Seq<bool>)
    ensures
        parse_field_spec(ff, fidx, vis).0 matches Ok(f) ==> wf_label(f.0) && wf_value(f.1),
    decreases n_unmarked(vis), 1int, 1int,
{
    if 0 <= fidx && fidx < ff.n_fields() {
        let code = read_u32(ff.fields, 12 * fidx);
        let lbl = read_u32(ff.fields, 12 * fidx + 4) as int;
        let slot = read_u32(ff.fields, 12 * fidx + 8);
        if lbl < ff.n_labels() {
            lemma_parsed_label_wf(ff.labels, lbl);
        }
        if code == 14 {
            let sidx = slot as int;
            if 0 <= sidx && sidx < vis.len() && !vis[sidx] {
                crate::parser::lemma_n_unmarked_update(vis, sidx);
                lemma_parse_struct_wf(ff, sidx, vis.update(sidx, true));
            }
        } else if code == 15 {
            let off = slot as int;
            if off % 4 == 0 && off + 4 <= ff.list_indices.len() {
                let size = read_u32(ff.list_indices, off) as int;
                if off + 4 + 4 * size <= ff.list_indices.len() {
                    lemma_parse_list_wf(ff, off + 4, size, vis);
                }
            }
        }
    }
}

/// Semantic idempotence on flat trees: a file from the wild that parses
/// to a flat tree, once repacked, parses to the same tree, provided the
/// repacked form fits the format's 32-bit offsets.
pub proof fn lemma_parse_pack_parse_flat(bytes: Seq<u8>, tag: Seq<u8>)
    requires
        parse_file_spec(bytes) matches Ok(t) && flat_struct(t) && spec_size_ub(t)
            <= 0xFFFF_FFFF,
        tag.len() == 4,
    ensures
        ({
            match parse_file_spec(bytes) {
                Ok(t) => parse_file_spec(file_bytes(pack_blocks(t), tag, spec_version_tag()))
                    == parse_file_spec(bytes),
                Err(_) => false,
            }
        }),
{
    match parse_header_spec(bytes) {
        Ok(ff) => {
            let vis0 = Seq::new(ff.n_structs() as nat, |i: int| i == 0);
            lemma_parse_struct_wf(ff, 0, vis0);
            match parse_file_spec(bytes) {
                Ok(t) => {
                    lemma_parse_pack_flat(t, tag);
                },
                Err(_) => {},
            }
        },
        Err(_) => {},
    }
}

} // verus!
