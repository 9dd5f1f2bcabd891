//! The raw tree: the field tree with every string already in its on-wire
//! byte encoding.  The byte-level codec converts between this tree and
//! the packed file; the encoding layer converts between this tree and
//! the character-string tree of [`crate::value`].

use vstd::prelude::*;

verus! {

/// One substring of a localized string as stored on the wire: the
/// combined language-gender key and the encoded bytes.
#[derive(Debug, PartialEq)]
pub struct LocEntry {
    pub key: u32,
    pub data: Vec<u8>,
}

/// Mathematical view of [`LocEntry`].
pub struct LocEntryV {
    pub key: u32,
    pub data: Seq<u8>,
}

/// A field value whose payload is already encoded, ready for the packer
/// or fresh from the parser.
#[derive(Debug, PartialEq)]
pub enum RawValue {
    Byte(u8),
    Char(i8),
    Word(u16),
    Short(i16),
    DWord(u32),
    Int(i32),
    DWord64(u64),
    Int64(i64),
    /// The bits of an IEEE-754 32-bit value
    Float(u32),
    /// The bits of an IEEE-754 64-bit value
    Double(u64),
    CExoString(Vec<u8>),
    CResRef(Vec<u8>),
    CExoLocString(u32, Vec<LocEntry>),
    Void(Vec<u8>),
    Struct(RawStruct),
    List(Vec<RawStruct>),
}

/// A struct of the raw tree: type tag and (label bytes, value) pairs in
/// insertion order.
#[derive(Debug, PartialEq)]
pub struct RawStruct {
    pub st_type: u32,
    pub fields: Vec<(Vec<u8>, RawValue)>,
}

/// Mathematical view of [`RawValue`].
pub enum RawValueV {
    Byte(u8),
    Char(i8),
    Word(u16),
    Short(i16),
    DWord(u32),
    Int(i32),
    DWord64(u64),
    Int64(i64),
    Float(u32),
    Double(u64),
    CExoString(Seq<u8>),
    CResRef(Seq<u8>),
    CExoLocString(u32, Seq<LocEntryV>),
    Void(Seq<u8>),
    Struct(RawStructV),
    List(Seq<RawStructV>),
}

/// Mathematical view of [`RawStruct`].
pub struct RawStructV {
    pub st_type: u32,
    pub fields: Seq<(Seq<u8>, RawValueV)>,
}

pub open spec fn loc_entries_view(es: Seq<LocEntry>) -> Seq<LocEntryV>
    decreases es,
{
    if es.len() == 0 {
        Seq::empty()
    } else {
        seq![LocEntryV { key: es[0].key, data: es[0].data@ }] + loc_entries_view(es.drop_first())
    }
}

pub open spec fn raw_structs_view(vs: Seq<RawStruct>) -> Seq<RawStructV>
    decreases vs,
{
    if vs.len() == 0 {
        Seq::empty()
    } else {
        seq![raw_struct_view(vs[0])] + raw_structs_view(vs.drop_first())
    }
}

pub open spec fn raw_value_view(v: RawValue) -> RawValueV
    decreases v,
{
    match v {
        RawValue::Byte(x) => RawValueV::Byte(x),
        RawValue::Char(x) => RawValueV::Char(x),
        RawValue::Word(x) => RawValueV::Word(x),
        RawValue::Short(x) => RawValueV::Short(x),
        RawValue::DWord(x) => RawValueV::DWord(x),
        RawValue::Int(x) => RawValueV::Int(x),
        RawValue::DWord64(x) => RawValueV::DWord64(x),
        RawValue::Int64(x) => RawValueV::Int64(x),
        RawValue::Float(x) => RawValueV::Float(x),
        RawValue::Double(x) => RawValueV::Double(x),
        RawValue::CExoString(b) => RawValueV::CExoString(b@),
        RawValue::CResRef(b) => RawValueV::CResRef(b@),
        RawValue::CExoLocString(tlk, es) => RawValueV::CExoLocString(tlk, loc_entries_view(es@)),
        RawValue::Void(b) => RawValueV::Void(b@),
        RawValue::Struct(s) => RawValueV::Struct(raw_struct_view(s)),
        RawValue::List(vs) => RawValueV::List(raw_structs_view(vs@)),
    }
}

pub open spec fn raw_fields_view(fs: Seq<(Vec<u8>, RawValue)>) -> Seq<(Seq<u8>, RawValueV)>
    decreases fs,
{
    if fs.len() == 0 {
        Seq::empty()
    } else {
        seq![(fs[0].0@, raw_value_view(fs[0].1))] + raw_fields_view(fs.drop_first())
    }
}

pub open spec fn raw_struct_view(s: RawStruct) -> RawStructV
    decreases s,
{
    RawStructV { st_type: s.st_type, fields: raw_fields_view(s.fields@) }
}

impl View for LocEntry {
    type V = LocEntryV;

    open spec fn view(&self) -> LocEntryV {
        LocEntryV { key: self.key, data: self.data@ }
    }
}

impl View for RawValue {
    type V = RawValueV;

    open spec fn view(&self) -> RawValueV {
        raw_value_view(*self)
    }
}

impl View for RawStruct {
    type V = RawStructV;

    open spec fn view(&self) -> RawStructV {
        raw_struct_view(*self)
    }
}

pub proof fn lemma_loc_entries_view_props(es: Seq<LocEntry>)
    ensures
        loc_entries_view(es).len() == es.len(),
        forall|i: int|
            0 <= i < es.len() ==> loc_entries_view(es)[i] == (LocEntryV {
                key: es[i].key,
                data: es[i].data@,
            }),
    decreases es,
{
    if es.len() > 0 {
        lemma_loc_entries_view_props(es.drop_first());
    }
}

pub proof fn lemma_raw_structs_view_props(vs: Seq<RawStruct>)
    ensures
        raw_structs_view(vs).len() == vs.len(),
        forall|i: int| 0 <= i < vs.len() ==> raw_structs_view(vs)[i] == raw_struct_view(vs[i]),
    decreases vs,
{
    if vs.len() > 0 {
        lemma_raw_structs_view_props(vs.drop_first());
    }
}

pub proof fn lemma_raw_fields_view_props(fs: Seq<(Vec<u8>, RawValue)>)
    ensures
        raw_fields_view(fs).len() == fs.len(),
        forall|i: int|
            0 <= i < fs.len() ==> raw_fields_view(fs)[i] == (fs[i].0@, raw_value_view(fs[i].1)),
    decreases fs,
{
    if fs.len() > 0 {
        lemma_raw_fields_view_props(fs.drop_first());
    }
}

/// A label that survives the 16-byte NUL-padded labels block: at most 16
/// bytes and free of NUL bytes.
pub open spec fn wf_label(l: Seq<u8>) -> bool {
    &&& l.len() <= 16
    &&& forall|i: int| 0 <= i < l.len() ==> l[i] != 0
}

pub open spec fn wf_structs(vs: Seq<RawStructV>) -> bool
    decreases vs,
{
    if vs.len() == 0 {
        true
    } else {
        wf_struct(vs[0]) && wf_structs(vs.drop_first())
    }
}

/// The constraints the wire format puts on a single value: only resource
/// references are bounded (a one-byte length prefix capped at 16 bytes).
pub open spec fn wf_value(v: RawValueV) -> bool
    decreases v,
{
    match v {
        RawValueV::CResRef(b) => b.len() <= 16,
        RawValueV::Struct(s) => wf_struct(s),
        RawValueV::List(vs) => wf_structs(vs),
        _ => true,
    }
}

pub open spec fn wf_fields(fs: Seq<(Seq<u8>, RawValueV)>) -> bool
    decreases fs,
{
    if fs.len() == 0 {
        true
    } else {
        wf_label(fs[0].0) && wf_value(fs[0].1) && wf_fields(fs.drop_first())
    }
}

/// Well-formedness of a raw tree: every label fits its block entry and
/// every resource reference fits its length prefix.
pub open spec fn wf_struct(s: RawStructV) -> bool
    decreases s,
{
    wf_fields(s.fields)
}

/// Bytes of the field-data block taken by the substrings of a localized
/// string, beyond its fixed 12-byte prelude: 8 bytes of key and length
/// plus the encoded bytes, per substring.
pub open spec fn loc_entries_extra(es: Seq<LocEntryV>) -> int
    decreases es,
{
    if es.len() == 0 {
        0
    } else {
        8 + es[0].data.len() as int + loc_entries_extra(es.drop_first())
    }
}

/// An upper bound on the bytes a value adds to the blocks beyond its
/// 12-byte field record, its label entry and its field-index entry.
pub open spec fn cost_value(v: RawValueV) -> int
    decreases v,
{
    match v {
        RawValueV::DWord64(_) => 8,
        RawValueV::Int64(_) => 8,
        RawValueV::Double(_) => 8,
        RawValueV::CExoString(b) => 4 + b.len() as int,
        RawValueV::CResRef(b) => 1 + b.len() as int,
        RawValueV::CExoLocString(_, es) => 12 + loc_entries_extra(es),
        RawValueV::Void(b) => 4 + b.len() as int,
        RawValueV::Struct(s) => cost_struct(s),
        RawValueV::List(vs) => 4 + cost_structs(vs),
        _ => 0,
    }
}

pub open spec fn cost_fields(fs: Seq<(Seq<u8>, RawValueV)>) -> int
    decreases fs,
{
    if fs.len() == 0 {
        0
    } else {
        32 + cost_value(fs[0].1) + cost_fields(fs.drop_first())
    }
}

/// An upper bound on the bytes a struct adds to the blocks: its 12-byte
/// record, then per field a 12-byte record, a 16-byte label entry, a
/// 4-byte field index and the value's own cost.
pub open spec fn cost_struct(s: RawStructV) -> int
    decreases s,
{
    12 + cost_fields(s.fields)
}

/// Cost of the members of a list: a 4-byte list index each, plus each
/// struct's own cost.
pub open spec fn cost_structs(vs: Seq<RawStructV>) -> int
    decreases vs,
{
    if vs.len() == 0 {
        0
    } else {
        4 + cost_struct(vs[0]) + cost_structs(vs.drop_first())
    }
}

/// An upper bound on the byte size of the packed file: the 56-byte header
/// plus the cost of the root struct.
pub open spec fn spec_size_ub(s: RawStructV) -> int {
    56 + cost_struct(s)
}

/// A nonnegative quantity clipped to the 64-bit range, as saturating
/// addition computes it.
pub open spec fn sat64(x: int) -> int {
    if x > u64::MAX {
        u64::MAX as int
    } else {
        x
    }
}

fn size_loc_extra(es: &Vec<LocEntry>, i: usize) -> (r: u64)
    requires
        i <= es@.len(),
    ensures
        r as int == sat64(loc_entries_extra(loc_entries_view(es@).skip(i as int))),
    decreases es@.len() - i,
{
    let ghost ev = loc_entries_view(es@);
    proof {
        lemma_loc_entries_view_props(es@);
    }
    if i == es.len() {
        proof {
            assert(ev.skip(i as int) =~= Seq::<LocEntryV>::empty());
        }
        return 0;
    }
    proof {
        assert(ev.skip(i as int)[0] == ev[i as int]);
        assert(ev.skip(i as int).drop_first() =~= ev.skip(i as int + 1));
        crate::model::lemma_loc_entries_extra_nonneg(ev.skip(i as int + 1));
    }
    let rest = size_loc_extra(es, i + 1);
    rest.saturating_add(8).saturating_add(es[i].data.len() as u64)
}

fn size_value(v: &RawValue) -> (r: u64)
    ensures
        r as int == sat64(cost_value(v@)),
    decreases v, 0int, 0int,
{
    match v {
        RawValue::DWord64(_) => 8,
        RawValue::Int64(_) => 8,
        RawValue::Double(_) => 8,
        RawValue::CExoString(b) => (b.len() as u64).saturating_add(4),
        RawValue::CResRef(b) => (b.len() as u64).saturating_add(1),
        RawValue::CExoLocString(_, es) => {
            proof {
                assert(loc_entries_view(es@).skip(0) =~= loc_entries_view(es@));
                crate::model::lemma_loc_entries_extra_nonneg(loc_entries_view(es@));
            }
            size_loc_extra(es, 0).saturating_add(12)
        },
        RawValue::Void(b) => (b.len() as u64).saturating_add(4),
        RawValue::Struct(s) => size_struct(s),
        RawValue::List(vs) => {
            proof {
                assert(raw_structs_view(vs@).skip(0) =~= raw_structs_view(vs@));
                crate::model::lemma_cost_structs_nonneg(raw_structs_view(vs@));
            }
            size_list(vs, 0).saturating_add(4)
        },
        _ => 0,
    }
}

fn size_list(vs: &Vec<RawStruct>, i: usize) -> (r: u64)
    requires
        i <= vs@.len(),
    ensures
        r as int == sat64(cost_structs(raw_structs_view(vs@).skip(i as int))),
    decreases vs, 3int, vs@.len() - i,
{
    let ghost sv = raw_structs_view(vs@);
    proof {
        lemma_raw_structs_view_props(vs@);
    }
    if i == vs.len() {
        proof {
            assert(sv.skip(i as int) =~= Seq::<RawStructV>::empty());
        }
        return 0;
    }
    proof {
        assert(sv.skip(i as int)[0] == sv[i as int]);
        assert(sv.skip(i as int).drop_first() =~= sv.skip(i as int + 1));
        crate::model::lemma_cost_struct_nonneg(sv[i as int]);
        crate::model::lemma_cost_structs_nonneg(sv.skip(i as int + 1));
    }
    let here = size_struct(&vs[i]);
    let rest = size_list(vs, i + 1);
    here.saturating_add(rest).saturating_add(4)
}

fn size_fields(fv: &Vec<(Vec<u8>, RawValue)>, i: usize) -> (r: u64)
    requires
        i <= fv@.len(),
    ensures
        r as int == sat64(cost_fields(raw_fields_view(fv@).skip(i as int))),
    decreases fv, 0int, fv@.len() - i,
{
    let ghost sv = raw_fields_view(fv@);
    proof {
        lemma_raw_fields_view_props(fv@);
    }
    if i == fv.len() {
        proof {
            assert(sv.skip(i as int) =~= Seq::<(Seq<u8>, RawValueV)>::empty());
        }
        return 0;
    }
    proof {
        assert(sv.skip(i as int)[0] == sv[i as int]);
        assert(sv.skip(i as int).drop_first() =~= sv.skip(i as int + 1));
        crate::model::lemma_cost_value_nonneg(sv[i as int].1);
        crate::model::lemma_cost_fields_nonneg(sv.skip(i as int + 1));
    }
    let here = size_value(&fv[i].1);
    let rest = size_fields(fv, i + 1);
    here.saturating_add(rest).saturating_add(32)
}

/// An upper bound on the byte size of the file this tree would pack to,
/// clipped to the 64-bit range.
pub fn size_ub(s: &RawStruct) -> (r: u64)
    ensures
        r as int == sat64(spec_size_ub(s@)),
    decreases s, 1int, 0int,
{
    proof {
        assert(raw_fields_view(s.fields@).skip(0) =~= raw_fields_view(s.fields@));
        crate::model::lemma_cost_fields_nonneg(raw_fields_view(s.fields@));
    }
    size_fields(&s.fields, 0).saturating_add(68)
}

fn size_struct(s: &RawStruct) -> (r: u64)
    ensures
        r as int == sat64(cost_struct(s@)),
    decreases s, 1int, 0int,
{
    proof {
        assert(raw_fields_view(s.fields@).skip(0) =~= raw_fields_view(s.fields@));
        crate::model::lemma_cost_fields_nonneg(raw_fields_view(s.fields@));
    }
    size_fields(&s.fields, 0).saturating_add(12)
}

} // verus!
