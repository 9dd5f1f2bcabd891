//! The parser: validates the header, slices the six blocks, and
//! materializes struct 0 as the root of a raw tree, resolving field,
//! label, struct and list indices and rejecting any index visited twice.
//!
//! The whole parse is written twice: once as pure functions on byte
//! sequences, and once as executable code proved to return exactly what
//! the pure functions say.

use vstd::prelude::*;
use vstd::bytes::{spec_u16_from_le_bytes, spec_u32_from_le_bytes, spec_u64_from_le_bytes};
use crate::common::GffError;
use crate::model::Blocks;
use crate::raw::{LocEntry, LocEntryV, RawStruct, RawStructV, RawValue, RawValueV};

verus! {

/// The 32-bit little-endian value at byte offset `off` of `b`.
pub open spec fn read_u32(b: Seq<u8>, off: int) -> u32
    recommends
        0 <= off,
        off + 4 <= b.len(),
{
    spec_u32_from_le_bytes(b.subrange(off, off + 4))
}

/// Checks the 56-byte header and slices the six blocks.  Each offset must
/// equal the running sum of the sizes of the blocks before it; the two
/// index blocks must hold whole 32-bit entries; nothing may follow the
/// last block.  A failure carries the file offset of the offending header
/// word, or 0 when the input is too short or has trailing bytes.
pub open spec fn parse_header_spec(bytes: Seq<u8>) -> Result<Blocks, GffError> {
    if bytes.len() < 56 {
        Err(GffError::MalformedHeader(0))
    } else if bytes.subrange(4, 8) != crate::common::spec_version_tag() {
        Err(GffError::MalformedHeader(4))
    } else {
        let c_structs = 12 * read_u32(bytes, 12) as int;
        let c_fields = 12 * read_u32(bytes, 20) as int;
        let c_labels = 16 * read_u32(bytes, 28) as int;
        let c_field_data = read_u32(bytes, 36) as int;
        let c_field_indices = read_u32(bytes, 44) as int;
        let c_list_indices = read_u32(bytes, 52) as int;
        let o_structs: int = 56;
        let o_fields = o_structs + c_structs;
        let o_labels = o_fields + c_fields;
        let o_field_data = o_labels + c_labels;
        let o_field_indices = o_field_data + c_field_data;
        let o_list_indices = o_field_indices + c_field_indices;
        let end = o_list_indices + c_list_indices;
        if read_u32(bytes, 8) != o_structs {
            Err(GffError::MalformedHeader(8))
        } else if read_u32(bytes, 16) as int != o_fields || o_fields > bytes.len() {
            Err(GffError::MalformedHeader(16))
        } else if read_u32(bytes, 24) as int != o_labels || o_labels > bytes.len() {
            Err(GffError::MalformedHeader(24))
        } else if read_u32(bytes, 32) as int != o_field_data || o_field_data > bytes.len() {
            Err(GffError::MalformedHeader(32))
        } else if read_u32(bytes, 40) as int != o_field_indices || o_field_indices > bytes.len() {
            Err(GffError::MalformedHeader(40))
        } else if c_field_indices % 4 != 0 {
            Err(GffError::MalformedHeader(44))
        } else if read_u32(bytes, 48) as int != o_list_indices || o_list_indices > bytes.len() {
            Err(GffError::MalformedHeader(48))
        } else if c_list_indices % 4 != 0 {
            Err(GffError::MalformedHeader(52))
        } else if end != bytes.len() {
            Err(GffError::MalformedHeader(0))
        } else {
            Ok(
                Blocks {
                    structs: bytes.subrange(o_structs, o_fields),
                    fields: bytes.subrange(o_fields, o_labels),
                    labels: bytes.subrange(o_labels, o_field_data),
                    field_data: bytes.subrange(o_field_data, o_field_indices),
                    field_indices: bytes.subrange(o_field_indices, o_list_indices),
                    list_indices: bytes.subrange(o_list_indices, end),
                },
            )
        }
    }
}

/// How many struct indices the walk has not visited yet: the measure that
/// bounds its recursion.
pub open spec fn n_unmarked(v: Seq<bool>) -> nat
    decreases v,
{
    if v.len() == 0 {
        0nat
    } else {
        (if v[0] {
            0nat
        } else {
            1nat
        }) + n_unmarked(v.drop_first())
    }
}

pub proof fn lemma_n_unmarked_update(v: Seq<bool>, i: int)
    requires
        0 <= i < v.len(),
        !v[i],
    ensures
        n_unmarked(v.update(i, true)) + 1 == n_unmarked(v),
    decreases v,
{
    if i == 0 {
        assert(v.update(0, true).drop_first() =~= v.drop_first());
    } else {
        assert(v.update(i, true).drop_first() =~= v.drop_first().update(i - 1, true));
        lemma_n_unmarked_update(v.drop_first(), i - 1);
    }
}

/// A 16-byte label entry truncated at its first NUL byte.
pub open spec fn trunc_nul(s: Seq<u8>) -> Seq<u8>
    decreases s,
{
    if s.len() == 0 {
        Seq::empty()
    } else if s[0] == 0 {
        Seq::empty()
    } else {
        seq![s[0]] + trunc_nul(s.drop_first())
    }
}

/// The substrings of a localized string: `cnt` records of key, length and
/// bytes, read from `off` on and bounded by `end`.  A length that runs
/// past the bound fails with the offset at which it was read.
pub open spec fn parse_loc_entries_spec(fd: Seq<u8>, off: int, end: int, cnt: int) -> Result<
    Seq<LocEntryV>,
    GffError,
>
    decreases cnt,
{
    if cnt <= 0 {
        Ok(Seq::empty())
    } else if off + 8 > end {
        Err(GffError::StringLengthOverflow(off as u32))
    } else {
        let key = read_u32(fd, off);
        let len = read_u32(fd, off + 4) as int;
        if off + 8 + len > end {
            Err(GffError::StringLengthOverflow(off as u32))
        } else {
            match parse_loc_entries_spec(fd, off + 8 + len, end, cnt - 1) {
                Ok(rest) => Ok(
                    seq![LocEntryV { key, data: fd.subrange(off + 8, off + 8 + len) }] + rest,
                ),
                Err(e) => Err(e),
            }
        }
    }
}

/// One struct of the raw tree, parsed from its 12-byte record.  `vis`
/// marks the struct indices already visited on the walk from the root;
/// the caller marks `idx` itself before the call.
pub open spec fn parse_struct_spec(ff: Blocks, idx: int, vis: Seq<bool>) -> (
    Result<RawStructV, GffError>,
    Seq<bool>,
)
    decreases n_unmarked(vis), 3int, 0int,
{
    if !(0 <= idx && idx < ff.n_structs()) {
        (Err(GffError::IndexOutOfRange(idx as u32)), vis)
    } else {
        let st_type = read_u32(ff.structs, 12 * idx);
        let locator = read_u32(ff.structs, 12 * idx + 4);
        let count = read_u32(ff.structs, 12 * idx + 8);
        if count == 0 {
            (Ok(RawStructV { st_type, fields: Seq::empty() }), vis)
        } else if count == 1 {
            match parse_field_spec(ff, locator as int, vis) {
                (Ok(f), vis2) => (Ok(RawStructV { st_type, fields: seq![f] }), vis2),
                (Err(e), vis2) => (Err(e), vis2),
            }
        } else {
            if locator % 4 != 0 {
                (Err(GffError::UnalignedOffset(locator)), vis)
            } else if locator + 4 * count > ff.field_indices.len() {
                (Err(GffError::IndexOutOfRange(locator)), vis)
            } else {
                match parse_fields_spec(ff, locator as int, count as int, vis) {
                    (Ok(fs), vis2) => (Ok(RawStructV { st_type, fields: fs }), vis2),
                    (Err(e), vis2) => (Err(e), vis2),
                }
            }
        }
    }
}

/// `cnt` fields named by consecutive entries of the field-indices block,
/// starting at byte offset `off`.  The guard on the visited marks never
/// fires — a parsed field can only add marks — and only keeps the
/// recursion well-founded.
pub open spec fn parse_fields_spec(ff: Blocks, off: int, cnt: int, vis: Seq<bool>) -> (
    Result<Seq<(Seq<u8>, RawValueV)>, GffError>,
    Seq<bool>,
)
    decreases n_unmarked(vis), 2int, cnt,
{
    if cnt <= 0 {
        (Ok(Seq::empty()), vis)
    } else {
        let fidx = read_u32(ff.field_indices, off);
        match parse_field_spec(ff, fidx as int, vis) {
            (Ok(f), vis2) => {
                if n_unmarked(vis2) <= n_unmarked(vis) {
                    match parse_fields_spec(ff, off + 4, cnt - 1, vis2) {
                        (Ok(rest), vis3) => (Ok(seq![f] + rest), vis3),
                        (Err(e), vis3) => (Err(e), vis3),
                    }
                } else {
                    (Err(GffError::IndexOutOfRange(fidx)), vis2)
                }
            },
            (Err(e), vis2) => (Err(e), vis2),
        }
    }
}

/// `cnt` structs named by consecutive entries of the list-indices block,
/// starting at byte offset `off`: the members of one list.  Each index is
/// checked against the visited marks and marked before its struct is
/// parsed.  The guard on the marks never fires.
pub open spec fn parse_list_spec(ff: Blocks, off: int, cnt: int, vis: Seq<bool>) -> (
    Result<Seq<RawStructV>, GffError>,
    Seq<bool>,
)
    decreases n_unmarked(vis), 0int, cnt,
        via parse_list_spec_decreases
{
    if cnt <= 0 {
        (Ok(Seq::empty()), vis)
    } else {
        let sidx = read_u32(ff.list_indices, off) as int;
        if !(0 <= sidx && sidx < vis.len()) {
            (Err(GffError::IndexOutOfRange(sidx as u32)), vis)
        } else if vis[sidx] {
            (Err(GffError::CycleDetected(sidx as u32)), vis)
        } else {
            match parse_struct_spec(ff, sidx, vis.update(sidx, true)) {
                (Ok(s), vis2) => {
                    if n_unmarked(vis2) < n_unmarked(vis) {
                        match parse_list_spec(ff, off + 4, cnt - 1, vis2) {
                            (Ok(rest), vis3) => (Ok(seq![s] + rest), vis3),
                            (Err(e), vis3) => (Err(e), vis3),
                        }
                    } else {
                        (Err(GffError::IndexOutOfRange(sidx as u32)), vis2)
                    }
                },
                (Err(e), vis2) => (Err(e), vis2),
            }
        }
    }
}

/// One field, parsed from its 12-byte record: the type code dispatches on
/// the data slot, inline for the narrow types and through an offset into
/// the field-data, structs or list-indices block otherwise; the label
/// index is resolved after the value, as its 16-byte entry truncated at
/// the first NUL.
pub open spec fn parse_field_spec(ff: Blocks, fidx: int, vis: Seq<bool>) -> (
    Result<(Seq<u8>, RawValueV), GffError>,
    Seq<bool>,
)
    decreases n_unmarked(vis), 1int, 0int,
        via parse_field_spec_decreases
{
    if !(0 <= fidx && fidx < ff.n_fields()) {
        (Err(GffError::IndexOutOfRange(fidx as u32)), vis)
    } else {
        let code = read_u32(ff.fields, 12 * fidx);
        let lbl = read_u32(ff.fields, 12 * fidx + 4) as int;
        let slot = read_u32(ff.fields, 12 * fidx + 8);
        let off = slot as int;
        let fd = ff.field_data;
        let (value, vis2): (Result<RawValueV, GffError>, Seq<bool>) = if code == 0 {
            (Ok(RawValueV::Byte(ff.fields[12 * fidx + 8])), vis)
        } else if code == 1 {
            (Ok(RawValueV::Char(ff.fields[12 * fidx + 8] as i8)), vis)
        } else if code == 2 {
            (
                Ok(
                    RawValueV::Word(
                        spec_u16_from_le_bytes(ff.fields.subrange(12 * fidx + 8, 12 * fidx + 10)),
                    ),
                ),
                vis,
            )
        } else if code == 3 {
            (
                Ok(
                    RawValueV::Short(
                        spec_u16_from_le_bytes(ff.fields.subrange(12 * fidx + 8, 12 * fidx + 10))
                            as i16,
                    ),
                ),
                vis,
            )
        } else if code == 4 {
            (Ok(RawValueV::DWord(slot)), vis)
        } else if code == 5 {
            (Ok(RawValueV::Int(slot as i32)), vis)
        } else if code == 8 {
            (Ok(RawValueV::Float(slot)), vis)
        } else if code == 6 || code == 7 || code == 9 {
            if off + 8 > fd.len() {
                (Err(GffError::IndexOutOfRange(slot)), vis)
            } else {
                let x = spec_u64_from_le_bytes(fd.subrange(off, off + 8));
                (
                    Ok(
                        if code == 6 {
                            RawValueV::DWord64(x)
                        } else if code == 7 {
                            RawValueV::Int64(x as i64)
                        } else {
                            RawValueV::Double(x)
                        },
                    ),
                    vis,
                )
            }
        } else if code == 10 || code == 13 {
            if off + 4 > fd.len() {
                (Err(GffError::IndexOutOfRange(slot)), vis)
            } else {
                let len = read_u32(fd, off) as int;
                if off + 4 + len > fd.len() {
                    (Err(GffError::StringLengthOverflow(slot)), vis)
                } else {
                    let b = fd.subrange(off + 4, off + 4 + len);
                    (
                        Ok(
                            if code == 10 {
                                RawValueV::CExoString(b)
                            } else {
                                RawValueV::Void(b)
                            },
                        ),
                        vis,
                    )
                }
            }
        } else if code == 11 {
            if off + 1 > fd.len() {
                (Err(GffError::IndexOutOfRange(slot)), vis)
            } else {
                let len = fd[off] as int;
                if len > 16 {
                    (Err(GffError::ResRefTooLong), vis)
                } else if off + 1 + len > fd.len() {
                    (Err(GffError::StringLengthOverflow(slot)), vis)
                } else {
                    (Ok(RawValueV::CResRef(fd.subrange(off + 1, off + 1 + len))), vis)
                }
            }
        } else if code == 12 {
            if off + 12 > fd.len() {
                (Err(GffError::IndexOutOfRange(slot)), vis)
            } else {
                let total = read_u32(fd, off) as int;
                let tlk = read_u32(fd, off + 4);
                let cnt = read_u32(fd, off + 8) as int;
                if total < 8 || off + 4 + total > fd.len() {
                    (Err(GffError::StringLengthOverflow(slot)), vis)
                } else {
                    match parse_loc_entries_spec(fd, off + 12, off + 4 + total, cnt) {
                        Ok(es) => (Ok(RawValueV::CExoLocString(tlk, es)), vis),
                        Err(e) => (Err(e), vis),
                    }
                }
            }
        } else if code == 14 {
            let sidx = off;
            if !(0 <= sidx && sidx < vis.len()) {
                (Err(GffError::IndexOutOfRange(slot)), vis)
            } else if vis[sidx] {
                (Err(GffError::CycleDetected(slot)), vis)
            } else {
                match parse_struct_spec(ff, sidx, vis.update(sidx, true)) {
                    (Ok(s), vis2) => (Ok(RawValueV::Struct(s)), vis2),
                    (Err(e), vis2) => (Err(e), vis2),
                }
            }
        } else if code == 15 {
            if off % 4 != 0 {
                (Err(GffError::UnalignedOffset(slot)), vis)
            } else if off + 4 > ff.list_indices.len() {
                (Err(GffError::IndexOutOfRange(slot)), vis)
            } else {
                let size = read_u32(ff.list_indices, off) as int;
                if off + 4 + 4 * size > ff.list_indices.len() {
                    (Err(GffError::IndexOutOfRange(slot)), vis)
                } else {
                    match parse_list_spec(ff, off + 4, size, vis) {
                        (Ok(vs), vis2) => (Ok(RawValueV::List(vs)), vis2),
                        (Err(e), vis2) => (Err(e), vis2),
                    }
                }
            }
        } else {
            (Err(GffError::BadFieldType(code)), vis)
        };
        match value {
            Ok(v) => {
                if lbl < ff.n_labels() {
                    (Ok((trunc_nul(ff.labels.subrange(16 * lbl, 16 * lbl + 16)), v)), vis2)
                } else {
                    (Err(GffError::IndexOutOfRange(lbl as u32)), vis2)
                }
            },
            Err(e) => (Err(e), vis2),
        }
    }
}

#[via_fn]
proof fn parse_list_spec_decreases(ff: Blocks, off: int, cnt: int, vis: Seq<bool>) {
    if cnt > 0 {
        let sidx = read_u32(ff.list_indices, off) as int;
        if 0 <= sidx && sidx < vis.len() && !vis[sidx] {
            lemma_n_unmarked_update(vis, sidx);
        }
    }
}

#[via_fn]
proof fn parse_field_spec_decreases(ff: Blocks, fidx: int, vis: Seq<bool>) {
    if 0 <= fidx && fidx < ff.n_fields() {
        let slot = read_u32(ff.fields, 12 * fidx + 8);
        let sidx = slot as int;
        if 0 <= sidx && sidx < vis.len() && !vis[sidx] {
            lemma_n_unmarked_update(vis, sidx);
        }
    }
}

/// A whole file parsed to its root struct: the header checked, the blocks
/// sliced, struct 0 marked visited and materialized.
pub open spec fn parse_file_spec(bytes: Seq<u8>) -> Result<RawStructV, GffError> {
    match parse_header_spec(bytes) {
        Err(e) => Err(e),
        Ok(ff) => {
            let vis0 = Seq::new(ff.n_structs() as nat, |i: int| i == 0);
            parse_struct_spec(ff, 0, vis0).0
        },
    }
}

/// If a label entry's first `j` bytes are its non-NUL prefix, truncation
/// keeps exactly those bytes.
pub proof fn lemma_trunc_nul_prefix(s: Seq<u8>, j: int)
    requires
        0 <= j <= s.len(),
        forall|i: int| 0 <= i < j ==> s[i] != 0,
        j == s.len() || s[j] == 0,
    ensures
        trunc_nul(s) == s.subrange(0, j),
    decreases s,
{
    if s.len() == 0 {
        assert(trunc_nul(s) =~= s.subrange(0, j));
    } else if j == 0 {
        assert(trunc_nul(s) =~= s.subrange(0, 0));
    } else {
        lemma_trunc_nul_prefix(s.drop_first(), j - 1);
        assert(s.drop_first().subrange(0, j - 1) =~= s.subrange(1, j));
        assert(trunc_nul(s) =~= s.subrange(0, j));
    }
}

/// Header and data blocks of a file under parse, each block copied out as
/// its own buffer.
struct Data {
    structs: Vec<u8>,
    fields: Vec<u8>,
    labels: Vec<u8>,
    field_data: Vec<u8>,
    field_indices: Vec<u8>,
    list_indices: Vec<u8>,
}

impl Data {
    spec fn blocks(self) -> Blocks {
        Blocks {
            structs: self.structs@,
            fields: self.fields@,
            labels: self.labels@,
            field_data: self.field_data@,
            field_indices: self.field_indices@,
            list_indices: self.list_indices@,
        }
    }
}

/// The 32-bit little-endian value at byte offset `off`.
fn get_u32(b: &Vec<u8>, off: usize) -> (r: u32)
    requires
        off + 4 <= b@.len(),
    ensures
        r == read_u32(b@, off as int),
{
    let n = b.len();
    vstd::bytes::u32_from_le_bytes(vstd::slice::slice_subrange(b.as_slice(), off, off + 4))
}

/// The bytes of one sliced block, copied out.
fn copy_block(data: &Vec<u8>, start: usize, end: usize) -> (r: Vec<u8>)
    requires
        start <= end <= data@.len(),
    ensures
        r@ == data@.subrange(start as int, end as int),
{
    vstd::slice::slice_to_vec(vstd::slice::slice_subrange(data.as_slice(), start, end))
}

/// The parser's working state: the visited marks of the cycle detector
/// and the encoding profile used by the string layer.
pub struct GffParser {
    visited: Vec<bool>,
    encodings: crate::common::Encodings,
}

impl GffParser {
    /// Checks the header and slices the six blocks.
    fn parse_header(data: &Vec<u8>) -> (r: Result<Data, GffError>)
        ensures
            match r {
                Ok(d) => parse_header_spec(data@) == Ok::<Blocks, GffError>(d.blocks()),
                Err(e) => parse_header_spec(data@) == Err::<Blocks, GffError>(e),
            },
    {
        if data.len() < 56 {
            return Err(GffError::MalformedHeader(0));
        }
        if !(data[4] == 0x56 && data[5] == 0x33 && data[6] == 0x2E && data[7] == 0x32) {
            proof {
                assert(data@.subrange(4, 8)[0] == data@[4]);
                assert(data@.subrange(4, 8)[1] == data@[5]);
                assert(data@.subrange(4, 8)[2] == data@[6]);
                assert(data@.subrange(4, 8)[3] == data@[7]);
                assert(data@.subrange(4, 8) != crate::common::spec_version_tag());
            }
            return Err(GffError::MalformedHeader(4));
        }
        proof {
            assert(data@.subrange(4, 8) =~= crate::common::spec_version_tag());
        }
        let c_structs: u64 = 12 * get_u32(data, 12) as u64;
        let c_fields: u64 = 12 * get_u32(data, 20) as u64;
        let c_labels: u64 = 16 * get_u32(data, 28) as u64;
        let c_field_data: u64 = get_u32(data, 36) as u64;
        let c_field_indices: u64 = get_u32(data, 44) as u64;
        let c_list_indices: u64 = get_u32(data, 52) as u64;
        let o_structs: u64 = 56;
        let o_fields: u64 = o_structs + c_structs;
        let o_labels: u64 = o_fields + c_fields;
        let o_field_data: u64 = o_labels + c_labels;
        let o_field_indices: u64 = o_field_data + c_field_data;
        let o_list_indices: u64 = o_field_indices + c_field_indices;
        let end: u64 = o_list_indices + c_list_indices;
        let len: u64 = data.len() as u64;
        if get_u32(data, 8) as u64 != o_structs {
            return Err(GffError::MalformedHeader(8));
        }
        if get_u32(data, 16) as u64 != o_fields || o_fields > len {
            return Err(GffError::MalformedHeader(16));
        }
        if get_u32(data, 24) as u64 != o_labels || o_labels > len {
            return Err(GffError::MalformedHeader(24));
        }
        if get_u32(data, 32) as u64 != o_field_data || o_field_data > len {
            return Err(GffError::MalformedHeader(32));
        }
        if get_u32(data, 40) as u64 != o_field_indices || o_field_indices > len {
            return Err(GffError::MalformedHeader(40));
        }
        if c_field_indices % 4 != 0 {
            return Err(GffError::MalformedHeader(44));
        }
        if get_u32(data, 48) as u64 != o_list_indices || o_list_indices > len {
            return Err(GffError::MalformedHeader(48));
        }
        if c_list_indices % 4 != 0 {
            return Err(GffError::MalformedHeader(52));
        }
        if end != len {
            return Err(GffError::MalformedHeader(0));
        }
        let d = Data {
            structs: copy_block(data, o_structs as usize, o_fields as usize),
            fields: copy_block(data, o_fields as usize, o_labels as usize),
            labels: copy_block(data, o_labels as usize, o_field_data as usize),
            field_data: copy_block(data, o_field_data as usize, o_field_indices as usize),
            field_indices: copy_block(data, o_field_indices as usize, o_list_indices as usize),
            list_indices: copy_block(data, o_list_indices as usize, end as usize),
        };
        proof {
            assert(parse_header_spec(data@) == Ok::<Blocks, GffError>(d.blocks()));
        }
        Ok(d)
    }

    /// One 16-byte label entry, truncated at its first NUL byte.
    fn parse_label(data: &Data, lbl: usize) -> (r: Vec<u8>)
        requires
            16 * lbl + 16 <= data.blocks().labels.len(),
        ensures
            r@ == trunc_nul(data.blocks().labels.subrange(16 * lbl as int, 16 * lbl as int + 16)),
    {
        let n = data.labels.len();
        let base: usize = 16 * lbl;
        let ghost chunk = data.blocks().labels.subrange(16 * lbl as int, 16 * lbl as int + 16);
        let mut out: Vec<u8> = Vec::new();
        let mut j: usize = 0;
        while j < 16
            invariant
                0 <= j <= 16,
                base == 16 * lbl,
                16 * lbl + 16 <= data.blocks().labels.len(),
                chunk == data.blocks().labels.subrange(16 * lbl as int, 16 * lbl as int + 16),
                out@ == chunk.subrange(0, j as int),
                forall|i: int| 0 <= i < j ==> chunk[i] != 0,
            decreases 16 - j,
        {
            let b = data.labels[base + j];
            proof {
                assert(chunk[j as int] == data.blocks().labels[16 * lbl + j]);
            }
            if b == 0 {
                proof {
                    lemma_trunc_nul_prefix(chunk, j as int);
                }
                return out;
            }
            out.push(b);
            j += 1;
            proof {
                assert(out@ =~= chunk.subrange(0, j as int));
            }
        }
        proof {
            lemma_trunc_nul_prefix(chunk, 16);
            assert(chunk.subrange(0, 16) =~= chunk);
        }
        out
    }

    /// One struct of the raw tree: its record read, its fields resolved
    /// directly (one field) or through the field-indices block.
    fn parse_struct(&mut self, data: &Data, idx: u32) -> (r: Result<RawStruct, GffError>)
        ensures
            ({
                let (sr, vis2) = parse_struct_spec(data.blocks(), idx as int, old(self).visited@);
                &&& final(self).visited@ == vis2
                &&& match r {
                    Ok(s) => sr == Ok::<RawStructV, GffError>(s@),
                    Err(e) => sr == Err::<RawStructV, GffError>(e),
                }
            }),
            n_unmarked(final(self).visited@) <= n_unmarked(old(self).visited@),
            final(self).visited@.len() == old(self).visited@.len(),
            final(self).encodings == old(self).encodings,
        decreases n_unmarked(self.visited@), 3int, 0int,
    {
        let ns = data.structs.len() / 12;
        if idx as usize >= ns {
            return Err(GffError::IndexOutOfRange(idx));
        }
        let base: usize = 12 * (idx as usize);
        proof {
            assert(12 * (idx as int) + 12 <= data.blocks().structs.len()) by {
                assert(idx as int + 1 <= data.blocks().structs.len() as int / 12);
            }
        }
        let st_type = get_u32(&data.structs, base);
        let locator = get_u32(&data.structs, base + 4);
        let count = get_u32(&data.structs, base + 8);
        if count == 0 {
            let s = RawStruct { st_type, fields: Vec::new() };
            proof {
                assert(crate::raw::raw_fields_view(s.fields@) =~= Seq::<(
                    Seq<u8>,
                    RawValueV,
                )>::empty());
            }
            return Ok(s);
        }
        if count == 1 {
            match self.parse_field(data, locator) {
                Ok((l, v)) => {
                    let mut fields: Vec<(Vec<u8>, RawValue)> = Vec::new();
                    fields.push((l, v));
                    let s = RawStruct { st_type, fields };
                    proof {
                        crate::raw::lemma_raw_fields_view_props(s.fields@);
                        assert(s@.fields =~= seq![(s.fields@[0].0@, s.fields@[0].1@)]);
                    }
                    return Ok(s);
                },
                Err(e) => {
                    return Err(e);
                },
            }
        }
        if locator % 4 != 0 {
            return Err(GffError::UnalignedOffset(locator));
        }
        if locator as u64 + 4 * (count as u64) > data.field_indices.len() as u64 {
            return Err(GffError::IndexOutOfRange(locator));
        }
        let ghost ff = data.blocks();
        let ghost vis0 = self.visited@;
        let ghost target = parse_fields_spec(ff, locator as int, count as int, vis0);
        let fi_n = data.field_indices.len();
        let mut acc: Vec<(Vec<u8>, RawValue)> = Vec::new();
        let mut k: u32 = 0;
        while k < count
            invariant
                0 <= k <= count,
                ff == data.blocks(),
                vis0 == old(self).visited@,
                target == parse_fields_spec(ff, locator as int, count as int, vis0),
                parse_struct_spec(ff, idx as int, vis0) == (match target.0 {
                    Ok(fs) => (
                        Ok::<RawStructV, GffError>(RawStructV { st_type, fields: fs }),
                        target.1,
                    ),
                    Err(e) => (Err::<RawStructV, GffError>(e), target.1),
                }),
                ({
                    let rest = parse_fields_spec(
                        ff,
                        locator as int + 4 * k as int,
                        count as int - k as int,
                        self.visited@,
                    );
                    &&& (rest.0 matches Ok(restf) ==> target == (
                        Ok::<Seq<(Seq<u8>, RawValueV)>, GffError>(
                            crate::raw::raw_fields_view(acc@) + restf,
                        ),
                        rest.1,
                    ))
                    &&& (rest.0 matches Err(e) ==> target == (
                        Err::<Seq<(Seq<u8>, RawValueV)>, GffError>(e),
                        rest.1,
                    ))
                }),
                n_unmarked(self.visited@) <= n_unmarked(vis0),
                self.visited@.len() == vis0.len(),
                self.encodings == old(self).encodings,
                locator as int + 4 * count as int <= ff.field_indices.len(),
                fi_n == ff.field_indices.len(),
            decreases count - k,
        {
            let off: usize = locator as usize + 4 * (k as usize);
            let fidx = get_u32(&data.field_indices, off);
            let ghost vis_k = self.visited@;
            let ghost acc_v = crate::raw::raw_fields_view(acc@);
            match self.parse_field(data, fidx) {
                Ok((l, v)) => {
                    proof {
                        crate::raw::lemma_raw_fields_view_props(acc@);
                        crate::raw::lemma_raw_fields_view_props(acc@.push((l, v)));
                        assert(crate::raw::raw_fields_view(acc@.push((l, v))) =~= acc_v + seq![
                            (l@, v@),
                        ]);
                    }
                    acc.push((l, v));
                    proof {
                        let rest2 = parse_fields_spec(
                            ff,
                            locator as int + 4 * (k as int + 1),
                            count as int - (k as int + 1),
                            self.visited@,
                        );
                        assert(crate::raw::raw_fields_view(acc@) + (match rest2.0 {
                            Ok(restf) => restf,
                            Err(_) => Seq::empty(),
                        }) =~= acc_v + (seq![(l@, v@)] + (match rest2.0 {
                            Ok(restf) => restf,
                            Err(_) => Seq::empty(),
                        })));
                    }
                },
                Err(e) => {
                    return Err(e);
                },
            }
            k += 1;
        }
        proof {
            assert(count as int - count as int <= 0);
            assert(parse_fields_spec(ff, locator as int + 4 * count as int, 0, self.visited@).0
                == Ok::<Seq<(Seq<u8>, RawValueV)>, GffError>(Seq::empty()));
            assert(crate::raw::raw_fields_view(acc@) + Seq::<(Seq<u8>, RawValueV)>::empty()
                =~= crate::raw::raw_fields_view(acc@));
        }
        let s = RawStruct { st_type, fields: acc };
        Ok(s)
    }

    /// One field of the raw tree: the type code dispatches on the data
    /// slot, inline for the narrow types, through the field-data block for
    /// the wide and variable ones, and into sub-structs for struct and
    /// list fields; the label is resolved after the value.
    fn parse_field(&mut self, data: &Data, fidx: u32) -> (r: Result<(Vec<u8>, RawValue), GffError>)
        ensures
            ({
                let (sr, vis2) = parse_field_spec(data.blocks(), fidx as int, old(self).visited@);
                &&& final(self).visited@ == vis2
                &&& match r {
                    Ok(f) => sr == Ok::<(Seq<u8>, RawValueV), GffError>((f.0@, f.1@)),
                    Err(e) => sr == Err::<(Seq<u8>, RawValueV), GffError>(e),
                }
            }),
            n_unmarked(final(self).visited@) <= n_unmarked(old(self).visited@),
            final(self).visited@.len() == old(self).visited@.len(),
            final(self).encodings == old(self).encodings,
        decreases n_unmarked(self.visited@), 1int, 0int,
    {
        let nf = data.fields.len() / 12;
        if fidx as usize >= nf {
            return Err(GffError::IndexOutOfRange(fidx));
        }
        let base: usize = 12 * (fidx as usize);
        proof {
            assert(12 * (fidx as int) + 12 <= data.blocks().fields.len()) by {
                assert(fidx as int + 1 <= data.blocks().fields.len() as int / 12);
            }
        }
        let code = get_u32(&data.fields, base);
        let lbl = get_u32(&data.fields, base + 4);
        let slot = get_u32(&data.fields, base + 8);
        let off: usize = slot as usize;
        let fd_len: u64 = data.field_data.len() as u64;
        let value: RawValue = if code == 0 {
            RawValue::Byte(data.fields[base + 8])
        } else if code == 1 {
            RawValue::Char(data.fields[base + 8] as i8)
        } else if code == 2 {
            RawValue::Word(
                vstd::bytes::u16_from_le_bytes(
                    vstd::slice::slice_subrange(data.fields.as_slice(), base + 8, base + 10),
                ),
            )
        } else if code == 3 {
            RawValue::Short(
                vstd::bytes::u16_from_le_bytes(
                    vstd::slice::slice_subrange(data.fields.as_slice(), base + 8, base + 10),
                ) as i16,
            )
        } else if code == 4 {
            RawValue::DWord(slot)
        } else if code == 5 {
            RawValue::Int(slot as i32)
        } else if code == 8 {
            RawValue::Float(slot)
        } else if code == 6 || code == 7 || code == 9 {
            if slot as u64 + 8 > fd_len {
                return Err(GffError::IndexOutOfRange(slot));
            }
            let x = vstd::bytes::u64_from_le_bytes(
                vstd::slice::slice_subrange(data.field_data.as_slice(), off, off + 8),
            );
            if code == 6 {
                RawValue::DWord64(x)
            } else if code == 7 {
                RawValue::Int64(x as i64)
            } else {
                RawValue::Double(x)
            }
        } else if code == 10 || code == 13 {
            if slot as u64 + 4 > fd_len {
                return Err(GffError::IndexOutOfRange(slot));
            }
            let len = get_u32(&data.field_data, off);
            if slot as u64 + 4 + len as u64 > fd_len {
                return Err(GffError::StringLengthOverflow(slot));
            }
            let b = copy_block(&data.field_data, off + 4, off + 4 + len as usize);
            if code == 10 {
                RawValue::CExoString(b)
            } else {
                RawValue::Void(b)
            }
        } else if code == 11 {
            if slot as u64 + 1 > fd_len {
                return Err(GffError::IndexOutOfRange(slot));
            }
            let len = data.field_data[off];
            if len > 16 {
                return Err(GffError::ResRefTooLong);
            }
            if slot as u64 + 1 + len as u64 > fd_len {
                return Err(GffError::StringLengthOverflow(slot));
            }
            RawValue::CResRef(copy_block(&data.field_data, off + 1, off + 1 + len as usize))
        } else if code == 12 {
            if slot as u64 + 12 > fd_len {
                return Err(GffError::IndexOutOfRange(slot));
            }
            let total = get_u32(&data.field_data, off);
            let tlk = get_u32(&data.field_data, off + 4);
            let cnt = get_u32(&data.field_data, off + 8);
            if total < 8 || slot as u64 + 4 + total as u64 > fd_len {
                return Err(GffError::StringLengthOverflow(slot));
            }
            let end: u64 = slot as u64 + 4 + total as u64;
            let ghost fd = data.blocks().field_data;
            let ghost tloc = parse_loc_entries_spec(
                fd,
                off as int + 12,
                end as int,
                cnt as int,
            );
            let fd_n = data.field_data.len();
            let mut cur: u64 = slot as u64 + 12;
            let mut acc: Vec<LocEntry> = Vec::new();
            let mut k: u32 = 0;
            while k < cnt
                invariant
                    0 <= k <= cnt,
                    fd == data.blocks().field_data,
                    cur <= end <= fd.len(),
                    fd_n == fd.len(),
                    self.visited@ == old(self).visited@,
                    self.encodings == old(self).encodings,
                    tloc == parse_loc_entries_spec(fd, off as int + 12, end as int, cnt as int),
                    tloc matches Err(e) ==> parse_field_spec(
                        data.blocks(),
                        fidx as int,
                        old(self).visited@,
                    ) == (Err::<(Seq<u8>, RawValueV), GffError>(e), old(self).visited@),
                    ({
                        let rest = parse_loc_entries_spec(
                            fd,
                            cur as int,
                            end as int,
                            cnt as int - k as int,
                        );
                        &&& (rest matches Ok(restes) ==> tloc == Ok::<Seq<LocEntryV>, GffError>(
                            crate::raw::loc_entries_view(acc@) + restes,
                        ))
                        &&& (rest matches Err(e) ==> tloc == Err::<Seq<LocEntryV>, GffError>(e))
                    }),
                decreases cnt - k,
            {
                if end - cur < 8 {
                    return Err(GffError::StringLengthOverflow(cur as u32));
                }
                let key = get_u32(&data.field_data, cur as usize);
                let len2 = get_u32(&data.field_data, cur as usize + 4);
                if len2 as u64 > end - cur - 8 {
                    return Err(GffError::StringLengthOverflow(cur as u32));
                }
                let b = copy_block(
                    &data.field_data,
                    cur as usize + 8,
                    cur as usize + 8 + len2 as usize,
                );
                let ghost acc_v = crate::raw::loc_entries_view(acc@);
                proof {
                    crate::raw::lemma_loc_entries_view_props(acc@);
                    crate::raw::lemma_loc_entries_view_props(
                        acc@.push(LocEntry { key, data: b }),
                    );
                }
                let e = LocEntry { key, data: b };
                let ghost ev = e@;
                acc.push(e);
                proof {
                    assert(crate::raw::loc_entries_view(acc@) =~= acc_v + seq![ev]);
                    let rest2 = parse_loc_entries_spec(
                        fd,
                        cur as int + 8 + len2 as int,
                        end as int,
                        cnt as int - (k as int + 1),
                    );
                    assert((crate::raw::loc_entries_view(acc@) + (match rest2 {
                        Ok(restes) => restes,
                        Err(_) => Seq::empty(),
                    })) =~= acc_v + (seq![ev] + (match rest2 {
                        Ok(restes) => restes,
                        Err(_) => Seq::empty(),
                    })));
                }
                cur = cur + 8 + len2 as u64;
                k += 1;
            }
            proof {
                assert(parse_loc_entries_spec(fd, cur as int, end as int, 0) == Ok::<
                    Seq<LocEntryV>,
                    GffError,
                >(Seq::empty()));
                assert(crate::raw::loc_entries_view(acc@) + Seq::<LocEntryV>::empty()
                    =~= crate::raw::loc_entries_view(acc@));
            }
            RawValue::CExoLocString(tlk, acc)
        } else if code == 14 {
            let sidx: usize = slot as usize;
            if sidx >= self.visited.len() {
                return Err(GffError::IndexOutOfRange(slot));
            }
            if self.visited[sidx] {
                return Err(GffError::CycleDetected(slot));
            }
            proof {
                lemma_n_unmarked_update(self.visited@, sidx as int);
            }
            self.visited.set(sidx, true);
            match self.parse_struct(data, slot) {
                Ok(s) => RawValue::Struct(s),
                Err(e) => {
                    return Err(e);
                },
            }
        } else if code == 15 {
            if slot % 4 != 0 {
                return Err(GffError::UnalignedOffset(slot));
            }
            let li_len: u64 = data.list_indices.len() as u64;
            if slot as u64 + 4 > li_len {
                return Err(GffError::IndexOutOfRange(slot));
            }
            let size = get_u32(&data.list_indices, off);
            if slot as u64 + 4 + 4 * (size as u64) > li_len {
                return Err(GffError::IndexOutOfRange(slot));
            }
            let ghost ff = data.blocks();
            let ghost vis0 = self.visited@;
            let ghost tlist = parse_list_spec(ff, off as int + 4, size as int, vis0);
            let li_n = data.list_indices.len();
            let mut acc: Vec<RawStruct> = Vec::new();
            let mut k: u32 = 0;
            while k < size
                invariant
                    0 <= k <= size,
                    ff == data.blocks(),
                    slot as int + 4 + 4 * size as int <= ff.list_indices.len(),
                    li_n == ff.list_indices.len(),
                    off == slot as usize,
                    vis0 == old(self).visited@,
                    tlist == parse_list_spec(ff, off as int + 4, size as int, vis0),
                    tlist.0 matches Err(e) ==> parse_field_spec(
                        data.blocks(),
                        fidx as int,
                        old(self).visited@,
                    ) == (Err::<(Seq<u8>, RawValueV), GffError>(e), tlist.1),
                    ({
                        let rest = parse_list_spec(
                            ff,
                            off as int + 4 + 4 * k as int,
                            size as int - k as int,
                            self.visited@,
                        );
                        &&& (rest.0 matches Ok(restvs) ==> tlist == (
                            Ok::<Seq<RawStructV>, GffError>(
                                crate::raw::raw_structs_view(acc@) + restvs,
                            ),
                            rest.1,
                        ))
                        &&& (rest.0 matches Err(e) ==> tlist == (
                            Err::<Seq<RawStructV>, GffError>(e),
                            rest.1,
                        ))
                    }),
                    n_unmarked(self.visited@) <= n_unmarked(vis0),
                    self.visited@.len() == vis0.len(),
                    self.encodings == old(self).encodings,
                decreases size - k,
            {
                let soff: usize = off + 4 + 4 * (k as usize);
                let sidx32 = get_u32(&data.list_indices, soff);
                let sidx: usize = sidx32 as usize;
                if sidx >= self.visited.len() {
                    return Err(GffError::IndexOutOfRange(sidx32));
                }
                if self.visited[sidx] {
                    return Err(GffError::CycleDetected(sidx32));
                }
                proof {
                    lemma_n_unmarked_update(self.visited@, sidx as int);
                }
                self.visited.set(sidx, true);
                let ghost acc_v = crate::raw::raw_structs_view(acc@);
                match self.parse_struct(data, sidx32) {
                    Ok(st) => {
                        proof {
                            crate::raw::lemma_raw_structs_view_props(acc@);
                            crate::raw::lemma_raw_structs_view_props(acc@.push(st));
                            assert(crate::raw::raw_structs_view(acc@.push(st)) =~= acc_v + seq![
                                st@,
                            ]);
                        }
                        acc.push(st);
                        proof {
                            let rest2 = parse_list_spec(
                                ff,
                                off as int + 4 + 4 * (k as int + 1),
                                size as int - (k as int + 1),
                                self.visited@,
                            );
                            assert((crate::raw::raw_structs_view(acc@) + (match rest2.0 {
                                Ok(restvs) => restvs,
                                Err(_) => Seq::empty(),
                            })) =~= acc_v + (seq![acc@[acc@.len() - 1]@] + (match rest2.0 {
                                Ok(restvs) => restvs,
                                Err(_) => Seq::empty(),
                            })));
                        }
                    },
                    Err(e) => {
                        return Err(e);
                    },
                }
                k += 1;
            }
            proof {
                assert(parse_list_spec(ff, off as int + 4 + 4 * size as int, 0, self.visited@).0
                    == Ok::<Seq<RawStructV>, GffError>(Seq::empty()));
                assert(crate::raw::raw_structs_view(acc@) + Seq::<RawStructV>::empty()
                    =~= crate::raw::raw_structs_view(acc@));
            }
            RawValue::List(acc)
        } else {
            return Err(GffError::BadFieldType(code));
        };
        let nl = data.labels.len() / 16;
        if (lbl as usize) < nl {
            proof {
                assert(16 * (lbl as int) + 16 <= data.blocks().labels.len()) by {
                    assert(lbl as int + 1 <= data.blocks().labels.len() as int / 16);
                }
            }
            let label = Self::parse_label(data, lbl as usize);
            Ok((label, value))
        } else {
            Err(GffError::IndexOutOfRange(lbl))
        }
    }

    /// Parses a packed file to the root of its raw tree: the header
    /// checked, the blocks sliced, struct 0 materialized with the cycle
    /// detector primed on index 0.
    pub fn parse_raw(data: &Vec<u8>, encodings: crate::common::Encodings) -> (r: Result<
        RawStruct,
        GffError,
    >)
        ensures
            match r {
                Ok(s) => parse_file_spec(data@) == Ok::<RawStructV, GffError>(s@),
                Err(e) => parse_file_spec(data@) == Err::<RawStructV, GffError>(e),
            },
    {
        let d = match Self::parse_header(data) {
            Ok(d) => d,
            Err(e) => {
                return Err(e);
            },
        };
        let ns = d.structs.len() / 12;
        let mut visited: Vec<bool> = Vec::new();
        let mut i: usize = 0;
        while i < ns
            invariant
                0 <= i <= ns,
                visited@.len() == i,
                forall|t: int| 0 <= t < i ==> visited@[t] == (t == 0),
            decreases ns - i,
        {
            visited.push(i == 0);
            i += 1;
        }
        proof {
            assert(visited@ =~= Seq::new(d.blocks().n_structs() as nat, |t: int| t == 0));
        }
        let mut parser = GffParser { visited, encodings };
        match parser.parse_struct(&d, 0) {
            Ok(s) => Ok(s),
            Err(e) => Err(e),
        }
    }

    /// Parses a packed file to its root struct, strings decoded with the
    /// codepages of the given profile.
    pub fn parse(data: Vec<u8>, encodings: crate::common::Encodings) -> (r: Result<
        crate::value::GffStruct,
        GffError,
    >)
        ensures
            ({
                match parse_file_spec(data@) {
                    Err(e) => r == Err::<crate::value::GffStruct, GffError>(e),
                    Ok(rv) => match crate::convert::dec_struct(rv, encodings) {
                        Ok(sv) => r matches Ok(s) && s@ == sv,
                        Err(e) => r == Err::<crate::value::GffStruct, GffError>(e),
                    },
                }
            }),
    {
        let raw = match Self::parse_raw(&data, encodings) {
            Ok(s) => s,
            Err(e) => {
                return Err(e);
            },
        };
        crate::convert::decode_tree(&raw, encodings)
    }
}

} // verus!