//! Conversion between the character-string tree and the raw tree: labels
//! and strings are encoded into their per-language codepages on the way
//! to the packer, and decoded again on the way out of the parser.

use vstd::prelude::*;
use crate::common::{Codepage, Encodings, GffError, spec_loc_key, spec_loc_key_decode, loc_key, loc_key_decode};
use vstd::string::StrSliceExecFns;
use crate::enc::{decode_bytes, decode_of, encode_bytes, encode_of, lower_of, lowercase};
use crate::raw::{LocEntry, LocEntryV, RawStruct, RawStructV, RawValue, RawValueV};
use crate::value::{GffFieldValue, GffStruct, StructV, ValueV, fields_view, structs_view, value_view, struct_view};

verus! {

/// A string small enough for the encoder's buffer arithmetic.
pub open spec fn str_fit(s: Seq<char>) -> bool {
    s.len() < 0x400_0000
}

pub open spec fn strings_fit_subs(subs: Seq<((crate::common::GffLang, crate::common::GffGender), Seq<char>)>) -> bool
    decreases subs,
{
    if subs.len() == 0 {
        true
    } else {
        str_fit(subs[0].1) && strings_fit_subs(subs.drop_first())
    }
}

pub open spec fn strings_fit_structs(vs: Seq<StructV>) -> bool
    decreases vs,
{
    if vs.len() == 0 {
        true
    } else {
        strings_fit(vs[0]) && strings_fit_structs(vs.drop_first())
    }
}

pub open spec fn strings_fit_value(v: ValueV) -> bool
    decreases v,
{
    match v {
        ValueV::CExoString(s) => str_fit(s),
        ValueV::CExoLocString(_, subs) => strings_fit_subs(subs),
        ValueV::Struct(s) => strings_fit(s),
        ValueV::List(vs) => strings_fit_structs(vs),
        _ => true,
    }
}

pub open spec fn strings_fit_fields(fs: Seq<(Seq<char>, ValueV)>) -> bool
    decreases fs,
{
    if fs.len() == 0 {
        true
    } else {
        str_fit(fs[0].0) && strings_fit_value(fs[0].1) && strings_fit_fields(fs.drop_first())
    }
}

/// Every label and every string of the tree is small enough to encode.
/// This bounds only what the encoder's own buffer arithmetic demands;
/// the 16-byte limits on labels and resource references are enforced by
/// the conversion itself.
pub open spec fn strings_fit(s: StructV) -> bool
    decreases s,
{
    strings_fit_fields(s.fields)
}

/// The substrings of a localized string, encoded: the key packs gender in
/// the low bit and the language id above it; the bytes come from the
/// language's codepage.
pub open spec fn enc_subs(
    subs: Seq<((crate::common::GffLang, crate::common::GffGender), Seq<char>)>,
    enc: Encodings,
) -> Result<Seq<LocEntryV>, GffError>
    decreases subs,
{
    if subs.len() == 0 {
        Ok(Seq::empty())
    } else {
        let ((lang, gender), s0) = subs[0];
        match enc.spec_encoding_for(Some(lang.spec_id())) {
            Err(e) => Err(e),
            Ok(cp) => match enc_subs(subs.drop_first(), enc) {
                Err(e) => Err(e),
                Ok(rest) => Ok(
                    seq![
                        LocEntryV {
                            key: spec_loc_key(lang, gender),
                            data: encode_of(cp.spec_id(), s0),
                        },
                    ] + rest,
                ),
            },
        }
    }
}

/// One value encoded for the wire.  A resource reference is lowercased
/// first and must encode to at most 16 bytes; a value marked invalid is
/// refused with the first type code the wire has no meaning for.
pub open spec fn enc_value(v: ValueV, enc: Encodings) -> Result<RawValueV, GffError>
    decreases v,
{
    match v {
        ValueV::Byte(x) => Ok(RawValueV::Byte(x)),
        ValueV::Char(x) => Ok(RawValueV::Char(x)),
        ValueV::Word(x) => Ok(RawValueV::Word(x)),
        ValueV::Short(x) => Ok(RawValueV::Short(x)),
        ValueV::DWord(x) => Ok(RawValueV::DWord(x)),
        ValueV::Int(x) => Ok(RawValueV::Int(x)),
        ValueV::DWord64(x) => Ok(RawValueV::DWord64(x)),
        ValueV::Int64(x) => Ok(RawValueV::Int64(x)),
        ValueV::Float(x) => Ok(RawValueV::Float(x)),
        ValueV::Double(x) => Ok(RawValueV::Double(x)),
        ValueV::CExoString(s) => Ok(RawValueV::CExoString(encode_of(1252, s))),
        ValueV::CResRef(s) => {
            let low = lower_of(s);
            if low.len() >= 0x400_0000 {
                Err(GffError::ResRefTooLong)
            } else {
                let b = encode_of(1252, low);
                if b.len() > 16 {
                    Err(GffError::ResRefTooLong)
                } else {
                    Ok(RawValueV::CResRef(b))
                }
            }
        },
        ValueV::CExoLocString(tlk, subs) => match enc_subs(subs, enc) {
            Ok(es) => Ok(RawValueV::CExoLocString(tlk, es)),
            Err(e) => Err(e),
        },
        ValueV::Void(b) => Ok(RawValueV::Void(b)),
        ValueV::Struct(s) => match enc_struct(s, enc) {
            Ok(rs) => Ok(RawValueV::Struct(rs)),
            Err(e) => Err(e),
        },
        ValueV::List(vs) => match enc_structs(vs, enc) {
            Ok(rvs) => Ok(RawValueV::List(rvs)),
            Err(e) => Err(e),
        },
        ValueV::Invalid => Err(GffError::BadFieldType(16)),
    }
}

/// The fields of one struct encoded in order: each label in the codepage
/// of non-localized strings and at most 16 bytes, then its value.
pub open spec fn enc_fields(fs: Seq<(Seq<char>, ValueV)>, enc: Encodings) -> Result<
    Seq<(Seq<u8>, RawValueV)>,
    GffError,
>
    decreases fs,
{
    if fs.len() == 0 {
        Ok(Seq::empty())
    } else {
        let lb = encode_of(1252, fs[0].0);
        if lb.len() > 16 {
            Err(GffError::LabelTooLong)
        } else {
            match enc_value(fs[0].1, enc) {
                Err(e) => Err(e),
                Ok(v) => match enc_fields(fs.drop_first(), enc) {
                    Err(e) => Err(e),
                    Ok(rest) => Ok(seq![(lb, v)] + rest),
                },
            }
        }
    }
}

pub open spec fn enc_structs(vs: Seq<StructV>, enc: Encodings) -> Result<Seq<RawStructV>, GffError>
    decreases vs,
{
    if vs.len() == 0 {
        Ok(Seq::empty())
    } else {
        match enc_struct(vs[0], enc) {
            Err(e) => Err(e),
            Ok(s) => match enc_structs(vs.drop_first(), enc) {
                Err(e) => Err(e),
                Ok(rest) => Ok(seq![s] + rest),
            },
        }
    }
}

/// A whole tree encoded for the packer.
pub open spec fn enc_struct(s: StructV, enc: Encodings) -> Result<RawStructV, GffError>
    decreases s,
{
    match enc_fields(s.fields, enc) {
        Ok(fs) => Ok(RawStructV { st_type: s.st_type, fields: fs }),
        Err(e) => Err(e),
    }
}

/// The substrings of a localized string, decoded: the language id must
/// belong to the closed set, and each substring is decoded with its
/// language's codepage.
pub open spec fn dec_subs(es: Seq<LocEntryV>, enc: Encodings) -> Result<
    Seq<((crate::common::GffLang, crate::common::GffGender), Seq<char>)>,
    GffError,
>
    decreases es,
{
    if es.len() == 0 {
        Ok(Seq::empty())
    } else {
        match spec_loc_key_decode(es[0].key) {
            None => Err(GffError::UnknownLanguage(es[0].key / 2)),
            Some((lang, gender)) => match enc.spec_encoding_for(Some(lang.spec_id())) {
                Err(e) => Err(e),
                Ok(cp) => if es[0].data.len() >= 0x1000_0000 {
                    Err(GffError::StringLengthOverflow(0))
                } else {
                    match dec_subs(es.drop_first(), enc) {
                        Err(e) => Err(e),
                        Ok(rest) => Ok(
                            seq![((lang, gender), decode_of(cp.spec_id(), es[0].data))] + rest,
                        ),
                    }
                },
            },
        }
    }
}

/// One value decoded from the wire.  A byte string too large for the
/// decoder's buffer arithmetic is refused as a length overflow.
pub open spec fn dec_value(v: RawValueV, enc: Encodings) -> Result<ValueV, GffError>
    decreases v,
{
    match v {
        RawValueV::Byte(x) => Ok(ValueV::Byte(x)),
        RawValueV::Char(x) => Ok(ValueV::Char(x)),
        RawValueV::Word(x) => Ok(ValueV::Word(x)),
        RawValueV::Short(x) => Ok(ValueV::Short(x)),
        RawValueV::DWord(x) => Ok(ValueV::DWord(x)),
        RawValueV::Int(x) => Ok(ValueV::Int(x)),
        RawValueV::DWord64(x) => Ok(ValueV::DWord64(x)),
        RawValueV::Int64(x) => Ok(ValueV::Int64(x)),
        RawValueV::Float(x) => Ok(ValueV::Float(x)),
        RawValueV::Double(x) => Ok(ValueV::Double(x)),
        RawValueV::CExoString(b) => if b.len() >= 0x1000_0000 {
            Err(GffError::StringLengthOverflow(0))
        } else {
            Ok(ValueV::CExoString(decode_of(1252, b)))
        },
        RawValueV::CResRef(b) => if b.len() >= 0x1000_0000 {
            Err(GffError::StringLengthOverflow(0))
        } else {
            Ok(ValueV::CResRef(decode_of(1252, b)))
        },
        RawValueV::CExoLocString(tlk, es) => match dec_subs(es, enc) {
            Ok(subs) => Ok(ValueV::CExoLocString(tlk, subs)),
            Err(e) => Err(e),
        },
        RawValueV::Void(b) => Ok(ValueV::Void(b)),
        RawValueV::Struct(s) => match dec_struct(s, enc) {
            Ok(ds) => Ok(ValueV::Struct(ds)),
            Err(e) => Err(e),
        },
        RawValueV::List(vs) => match dec_structs(vs, enc) {
            Ok(dvs) => Ok(ValueV::List(dvs)),
            Err(e) => Err(e),
        },
    }
}

/// The fields of one struct decoded in order, labels in the codepage of
/// non-localized strings.
pub open spec fn dec_fields(fs: Seq<(Seq<u8>, RawValueV)>, enc: Encodings) -> Result<
    Seq<(Seq<char>, ValueV)>,
    GffError,
>
    decreases fs,
{
    if fs.len() == 0 {
        Ok(Seq::empty())
    } else if fs[0].0.len() >= 0x1000_0000 {
        Err(GffError::StringLengthOverflow(0))
    } else {
        match dec_value(fs[0].1, enc) {
            Err(e) => Err(e),
            Ok(v) => match dec_fields(fs.drop_first(), enc) {
                Err(e) => Err(e),
                Ok(rest) => Ok(seq![(decode_of(1252, fs[0].0), v)] + rest),
            },
        }
    }
}

pub open spec fn dec_structs(vs: Seq<RawStructV>, enc: Encodings) -> Result<Seq<StructV>, GffError>
    decreases vs,
{
    if vs.len() == 0 {
        Ok(Seq::empty())
    } else {
        match dec_struct(vs[0], enc) {
            Err(e) => Err(e),
            Ok(s) => match dec_structs(vs.drop_first(), enc) {
                Err(e) => Err(e),
                Ok(rest) => Ok(seq![s] + rest),
            },
        }
    }
}

/// A whole raw tree decoded to the character-string tree.
pub open spec fn dec_struct(s: RawStructV, enc: Encodings) -> Result<StructV, GffError>
    decreases s,
{
    match dec_fields(s.fields, enc) {
        Ok(fs) => Ok(StructV { st_type: s.st_type, fields: fs }),
        Err(e) => Err(e),
    }
}

/// The view of a localized string's substring table.
pub open spec fn subs_view(
    subs: Seq<((crate::common::GffLang, crate::common::GffGender), String)>,
) -> Seq<((crate::common::GffLang, crate::common::GffGender), Seq<char>)> {
    Seq::new(subs.len(), |i: int| (subs[i].0, subs[i].1@))
}

fn enc_subs_from(
    subs: &Vec<((crate::common::GffLang, crate::common::GffGender), String)>,
    i: usize,
    enc: Encodings,
) -> (r: Result<Vec<LocEntry>, GffError>)
    requires
        i <= subs@.len(),
        strings_fit_subs(subs_view(subs@).skip(i as int)),
    ensures
        match r {
            Ok(out) => enc_subs(subs_view(subs@).skip(i as int), enc) == Ok::<
                Seq<LocEntryV>,
                GffError,
            >(crate::raw::loc_entries_view(out@)),
            Err(e) => enc_subs(subs_view(subs@).skip(i as int), enc) == Err::<
                Seq<LocEntryV>,
                GffError,
            >(e),
        },
    decreases subs@.len() - i,
{
    let ghost sv = subs_view(subs@);
    if i == subs.len() {
        let out: Vec<LocEntry> = Vec::new();
        proof {
            assert(sv.skip(i as int) =~= Seq::<
                ((crate::common::GffLang, crate::common::GffGender), Seq<char>),
            >::empty());
            assert(crate::raw::loc_entries_view(out@) =~= Seq::<LocEntryV>::empty());
        }
        return Ok(out);
    }
    proof {
        assert(sv.skip(i as int)[0] == sv[i as int]);
        assert(sv.skip(i as int).drop_first() =~= sv.skip(i as int + 1));
    }
    let lang = subs[i].0.0;
    let gender = subs[i].0.1;
    let cp = match enc.encoding_for(Some(lang.id())) {
        Ok(c) => c,
        Err(e) => {
            return Err(e);
        },
    };
    let b = encode_bytes(cp, subs[i].1.as_str());
    let key = loc_key(lang, gender);
    let mut rest = match enc_subs_from(subs, i + 1, enc) {
        Ok(r) => r,
        Err(e) => {
            return Err(e);
        },
    };
    let ghost rest_v = crate::raw::loc_entries_view(rest@);
    proof {
        crate::raw::lemma_loc_entries_view_props(rest@);
        crate::raw::lemma_loc_entries_view_props(rest@.insert(0, LocEntry { key, data: b }));
    }
    rest.insert(0, LocEntry { key, data: b });
    proof {
        assert(crate::raw::loc_entries_view(rest@) =~= seq![
            LocEntryV { key, data: b@ },
        ] + rest_v);
    }
    Ok(rest)
}

fn enc_list_from(vs: &Vec<GffStruct>, i: usize, enc: Encodings) -> (r: Result<
    Vec<RawStruct>,
    GffError,
>)
    requires
        i <= vs@.len(),
        strings_fit_structs(structs_view(vs@).skip(i as int)),
    ensures
        match r {
            Ok(out) => enc_structs(structs_view(vs@).skip(i as int), enc) == Ok::<
                Seq<RawStructV>,
                GffError,
            >(crate::raw::raw_structs_view(out@)),
            Err(e) => enc_structs(structs_view(vs@).skip(i as int), enc) == Err::<
                Seq<RawStructV>,
                GffError,
            >(e),
        },
    decreases vs, 3int, vs@.len() - i,
{
    let ghost sv = structs_view(vs@);
    proof {
        crate::value::lemma_structs_view_props(vs@);
    }
    if i == vs.len() {
        let out: Vec<RawStruct> = Vec::new();
        proof {
            assert(sv.skip(i as int) =~= Seq::<StructV>::empty());
            assert(crate::raw::raw_structs_view(out@) =~= Seq::<RawStructV>::empty());
        }
        return Ok(out);
    }
    proof {
        assert(sv.skip(i as int)[0] == sv[i as int]);
        assert(sv.skip(i as int).drop_first() =~= sv.skip(i as int + 1));
    }
    let s = match encode_tree(&vs[i], enc) {
        Ok(s) => s,
        Err(e) => {
            return Err(e);
        },
    };
    let mut rest = match enc_list_from(vs, i + 1, enc) {
        Ok(r) => r,
        Err(e) => {
            return Err(e);
        },
    };
    let ghost rest_v = crate::raw::raw_structs_view(rest@);
    let ghost s_v = s@;
    proof {
        crate::raw::lemma_raw_structs_view_props(rest@);
        crate::raw::lemma_raw_structs_view_props(rest@.insert(0, s));
    }
    rest.insert(0, s);
    proof {
        assert(crate::raw::raw_structs_view(rest@) =~= seq![s_v] + rest_v);
    }
    Ok(rest)
}

fn enc_value_x(v: &GffFieldValue, enc: Encodings) -> (r: Result<RawValue, GffError>)
    requires
        strings_fit_value(v@),
    ensures
        match r {
            Ok(rv) => enc_value(v@, enc) == Ok::<RawValueV, GffError>(rv@),
            Err(e) => enc_value(v@, enc) == Err::<RawValueV, GffError>(e),
        },
    decreases v, 0int, 0int,
{
    match v {
        GffFieldValue::Byte(x) => Ok(RawValue::Byte(*x)),
        GffFieldValue::Char(x) => Ok(RawValue::Char(*x)),
        GffFieldValue::Word(x) => Ok(RawValue::Word(*x)),
        GffFieldValue::Short(x) => Ok(RawValue::Short(*x)),
        GffFieldValue::DWord(x) => Ok(RawValue::DWord(*x)),
        GffFieldValue::Int(x) => Ok(RawValue::Int(*x)),
        GffFieldValue::DWord64(x) => Ok(RawValue::DWord64(*x)),
        GffFieldValue::Int64(x) => Ok(RawValue::Int64(*x)),
        GffFieldValue::Float(x) => Ok(RawValue::Float(*x)),
        GffFieldValue::Double(x) => Ok(RawValue::Double(*x)),
        GffFieldValue::CExoString(s) => Ok(
            RawValue::CExoString(encode_bytes(Codepage::Windows1252, s.as_str())),
        ),
        GffFieldValue::CResRef(s) => {
            let low = lowercase(s.as_str());
            if low.as_str().unicode_len() >= 0x400_0000 {
                return Err(GffError::ResRefTooLong);
            }
            let b = encode_bytes(Codepage::Windows1252, low.as_str());
            if b.len() > 16 {
                Err(GffError::ResRefTooLong)
            } else {
                Ok(RawValue::CResRef(b))
            }
        },
        GffFieldValue::CExoLocString(tlk, subs) => {
            proof {
                assert(subs_view(subs@).skip(0) =~= subs_view(subs@));
                assert(value_view(*v) == ValueV::CExoLocString(*tlk, subs_view(subs@)));
            }
            match enc_subs_from(subs, 0, enc) {
                Ok(es) => Ok(RawValue::CExoLocString(*tlk, es)),
                Err(e) => Err(e),
            }
        },
        GffFieldValue::Void(b) => Ok(RawValue::Void(vstd::slice::slice_to_vec(b.as_slice()))),
        GffFieldValue::Struct(sub) => match encode_tree(sub, enc) {
            Ok(rs) => Ok(RawValue::Struct(rs)),
            Err(e) => Err(e),
        },
        GffFieldValue::List(vs) => {
            proof {
                assert(structs_view(vs@).skip(0) =~= structs_view(vs@));
            }
            match enc_list_from(vs, 0, enc) {
                Ok(rvs) => Ok(RawValue::List(rvs)),
                Err(e) => Err(e),
            }
        },
        GffFieldValue::Invalid => Err(GffError::BadFieldType(16)),
    }
}

fn enc_fields_from(fv: &Vec<(String, GffFieldValue)>, i: usize, enc: Encodings) -> (r: Result<
    Vec<(Vec<u8>, RawValue)>,
    GffError,
>)
    requires
        i <= fv@.len(),
        strings_fit_fields(fields_view(fv@).skip(i as int)),
    ensures
        match r {
            Ok(out) => enc_fields(fields_view(fv@).skip(i as int), enc) == Ok::<
                Seq<(Seq<u8>, RawValueV)>,
                GffError,
            >(crate::raw::raw_fields_view(out@)),
            Err(e) => enc_fields(fields_view(fv@).skip(i as int), enc) == Err::<
                Seq<(Seq<u8>, RawValueV)>,
                GffError,
            >(e),
        },
    decreases fv, 0int, fv@.len() - i,
{
    let ghost sv = fields_view(fv@);
    proof {
        crate::value::lemma_fields_view_props(fv@);
    }
    if i == fv.len() {
        let out: Vec<(Vec<u8>, RawValue)> = Vec::new();
        proof {
            assert(sv.skip(i as int) =~= Seq::<(Seq<char>, ValueV)>::empty());
            assert(crate::raw::raw_fields_view(out@) =~= Seq::<(Seq<u8>, RawValueV)>::empty());
        }
        return Ok(out);
    }
    proof {
        assert(sv.skip(i as int)[0] == sv[i as int]);
        assert(sv.skip(i as int).drop_first() =~= sv.skip(i as int + 1));
    }
    let lb = encode_bytes(Codepage::Windows1252, fv[i].0.as_str());
    if lb.len() > 16 {
        return Err(GffError::LabelTooLong);
    }
    let val = match enc_value_x(&fv[i].1, enc) {
        Ok(v) => v,
        Err(e) => {
            return Err(e);
        },
    };
    let mut rest = match enc_fields_from(fv, i + 1, enc) {
        Ok(r) => r,
        Err(e) => {
            return Err(e);
        },
    };
    let ghost rest_v = crate::raw::raw_fields_view(rest@);
    let ghost lb_v = lb@;
    let ghost val_v = val@;
    proof {
        crate::raw::lemma_raw_fields_view_props(rest@);
    }
    rest.insert(0, (lb, val));
    proof {
        crate::raw::lemma_raw_fields_view_props(rest@);
        assert(crate::raw::raw_fields_view(rest@) =~= seq![(lb_v, val_v)] + rest_v);
    }
    Ok(rest)
}

/// Encodes a whole tree for the packer: labels and strings to their
/// codepages, resource references lowercased, every length checked.
pub fn encode_tree(s: &GffStruct, enc: Encodings) -> (r: Result<RawStruct, GffError>)
    requires
        strings_fit(s@),
    ensures
        match r {
            Ok(rs) => enc_struct(s@, enc) == Ok::<RawStructV, GffError>(rs@),
            Err(e) => enc_struct(s@, enc) == Err::<RawStructV, GffError>(e),
        },
    decreases s, 1int, 0int,
{
    proof {
        assert(fields_view(s.fields@).skip(0) =~= fields_view(s.fields@));
    }
    match enc_fields_from(&s.fields, 0, enc) {
        Ok(fs) => Ok(RawStruct { st_type: s.st_type, fields: fs }),
        Err(e) => Err(e),
    }
}

fn dec_subs_from(es: &Vec<LocEntry>, i: usize, enc: Encodings) -> (r: Result<
    Vec<((crate::common::GffLang, crate::common::GffGender), String)>,
    GffError,
>)
    requires
        i <= es@.len(),
    ensures
        match r {
            Ok(out) => dec_subs(crate::raw::loc_entries_view(es@).skip(i as int), enc) == Ok::<
                Seq<((crate::common::GffLang, crate::common::GffGender), Seq<char>)>,
                GffError,
            >(subs_view(out@)),
            Err(e) => dec_subs(crate::raw::loc_entries_view(es@).skip(i as int), enc) == Err::<
                Seq<((crate::common::GffLang, crate::common::GffGender), Seq<char>)>,
                GffError,
            >(e),
        },
    decreases es@.len() - i,
{
    let ghost ev = crate::raw::loc_entries_view(es@);
    proof {
        crate::raw::lemma_loc_entries_view_props(es@);
    }
    if i == es.len() {
        let out: Vec<((crate::common::GffLang, crate::common::GffGender), String)> = Vec::new();
        proof {
            assert(ev.skip(i as int) =~= Seq::<LocEntryV>::empty());
            assert(subs_view(out@) =~= Seq::<
                ((crate::common::GffLang, crate::common::GffGender), Seq<char>),
            >::empty());
        }
        return Ok(out);
    }
    proof {
        assert(ev.skip(i as int)[0] == ev[i as int]);
        assert(ev.skip(i as int).drop_first() =~= ev.skip(i as int + 1));
    }
    let (lang, gender) = match loc_key_decode(es[i].key) {
        Some(lg) => lg,
        None => {
            return Err(GffError::UnknownLanguage(es[i].key / 2));
        },
    };
    let cp = match enc.encoding_for(Some(lang.id())) {
        Ok(c) => c,
        Err(e) => {
            return Err(e);
        },
    };
    if es[i].data.len() >= 0x1000_0000 {
        return Err(GffError::StringLengthOverflow(0));
    }
    let s = decode_bytes(cp, es[i].data.as_slice());
    let mut rest = match dec_subs_from(es, i + 1, enc) {
        Ok(r) => r,
        Err(e) => {
            return Err(e);
        },
    };
    let ghost rest_v = subs_view(rest@);
    let ghost s_v = s@;
    rest.insert(0, ((lang, gender), s));
    proof {
        assert(subs_view(rest@) =~= seq![((lang, gender), s_v)] + rest_v);
    }
    Ok(rest)
}

fn dec_list_from(vs: &Vec<RawStruct>, i: usize, enc: Encodings) -> (r: Result<
    Vec<GffStruct>,
    GffError,
>)
    requires
        i <= vs@.len(),
    ensures
        match r {
            Ok(out) => dec_structs(crate::raw::raw_structs_view(vs@).skip(i as int), enc) == Ok::<
                Seq<StructV>,
                GffError,
            >(structs_view(out@)),
            Err(e) => dec_structs(crate::raw::raw_structs_view(vs@).skip(i as int), enc) == Err::<
                Seq<StructV>,
                GffError,
            >(e),
        },
    decreases vs, 3int, vs@.len() - i,
{
    let ghost sv = crate::raw::raw_structs_view(vs@);
    proof {
        crate::raw::lemma_raw_structs_view_props(vs@);
    }
    if i == vs.len() {
        let out: Vec<GffStruct> = Vec::new();
        proof {
            assert(sv.skip(i as int) =~= Seq::<RawStructV>::empty());
            assert(structs_view(out@) =~= Seq::<StructV>::empty());
        }
        return Ok(out);
    }
    proof {
        assert(sv.skip(i as int)[0] == sv[i as int]);
        assert(sv.skip(i as int).drop_first() =~= sv.skip(i as int + 1));
    }
    let s = match decode_tree(&vs[i], enc) {
        Ok(s) => s,
        Err(e) => {
            return Err(e);
        },
    };
    let mut rest = match dec_list_from(vs, i + 1, enc) {
        Ok(r) => r,
        Err(e) => {
            return Err(e);
        },
    };
    let ghost rest_v = structs_view(rest@);
    let ghost s_v = struct_view(s);
    proof {
        crate::value::lemma_structs_view_props(rest@);
    }
    rest.insert(0, s);
    proof {
        crate::value::lemma_structs_view_props(rest@);
        assert(structs_view(rest@) =~= seq![s_v] + rest_v);
    }
    Ok(rest)
}

fn dec_value_x(v: &RawValue, enc: Encodings) -> (r: Result<GffFieldValue, GffError>)
    ensures
        match r {
            Ok(dv) => dec_value(v@, enc) == Ok::<ValueV, GffError>(dv@),
            Err(e) => dec_value(v@, enc) == Err::<ValueV, GffError>(e),
        },
    decreases v, 0int, 0int,
{
    match v {
        RawValue::Byte(x) => Ok(GffFieldValue::Byte(*x)),
        RawValue::Char(x) => Ok(GffFieldValue::Char(*x)),
        RawValue::Word(x) => Ok(GffFieldValue::Word(*x)),
        RawValue::Short(x) => Ok(GffFieldValue::Short(*x)),
        RawValue::DWord(x) => Ok(GffFieldValue::DWord(*x)),
        RawValue::Int(x) => Ok(GffFieldValue::Int(*x)),
        RawValue::DWord64(x) => Ok(GffFieldValue::DWord64(*x)),
        RawValue::Int64(x) => Ok(GffFieldValue::Int64(*x)),
        RawValue::Float(x) => Ok(GffFieldValue::Float(*x)),
        RawValue::Double(x) => Ok(GffFieldValue::Double(*x)),
        RawValue::CExoString(b) => {
            if b.len() >= 0x1000_0000 {
                return Err(GffError::StringLengthOverflow(0));
            }
            Ok(GffFieldValue::CExoString(decode_bytes(Codepage::Windows1252, b.as_slice())))
        },
        RawValue::CResRef(b) => {
            if b.len() >= 0x1000_0000 {
                return Err(GffError::StringLengthOverflow(0));
            }
            Ok(GffFieldValue::CResRef(decode_bytes(Codepage::Windows1252, b.as_slice())))
        },
        RawValue::CExoLocString(tlk, es) => {
            proof {
                assert(crate::raw::loc_entries_view(es@).skip(0) =~= crate::raw::loc_entries_view(
                    es@,
                ));
            }
            match dec_subs_from(es, 0, enc) {
                Ok(subs) => Ok(GffFieldValue::CExoLocString(*tlk, subs)),
                Err(e) => Err(e),
            }
        },
        RawValue::Void(b) => Ok(GffFieldValue::Void(vstd::slice::slice_to_vec(b.as_slice()))),
        RawValue::Struct(sub) => match decode_tree(sub, enc) {
            Ok(ds) => Ok(GffFieldValue::Struct(ds)),
            Err(e) => Err(e),
        },
        RawValue::List(vs) => {
            proof {
                assert(crate::raw::raw_structs_view(vs@).skip(0) =~= crate::raw::raw_structs_view(
                    vs@,
                ));
            }
            match dec_list_from(vs, 0, enc) {
                Ok(dvs) => Ok(GffFieldValue::List(dvs)),
                Err(e) => Err(e),
            }
        },
    }
}

fn dec_fields_from(fv: &Vec<(Vec<u8>, RawValue)>, i: usize, enc: Encodings) -> (r: Result<
    Vec<(String, GffFieldValue)>,
    GffError,
>)
    requires
        i <= fv@.len(),
    ensures
        match r {
            Ok(out) => dec_fields(crate::raw::raw_fields_view(fv@).skip(i as int), enc) == Ok::<
                Seq<(Seq<char>, ValueV)>,
                GffError,
            >(fields_view(out@)),
            Err(e) => dec_fields(crate::raw::raw_fields_view(fv@).skip(i as int), enc) == Err::<
                Seq<(Seq<char>, ValueV)>,
                GffError,
            >(e),
        },
    decreases fv, 0int, fv@.len() - i,
{
    let ghost sv = crate::raw::raw_fields_view(fv@);
    proof {
        crate::raw::lemma_raw_fields_view_props(fv@);
    }
    if i == fv.len() {
        let out: Vec<(String, GffFieldValue)> = Vec::new();
        proof {
            assert(sv.skip(i as int) =~= Seq::<(Seq<u8>, RawValueV)>::empty());
            assert(fields_view(out@) =~= Seq::<(Seq<char>, ValueV)>::empty());
        }
        return Ok(out);
    }
    proof {
        assert(sv.skip(i as int)[0] == sv[i as int]);
        assert(sv.skip(i as int).drop_first() =~= sv.skip(i as int + 1));
    }
    if fv[i].0.len() >= 0x1000_0000 {
        return Err(GffError::StringLengthOverflow(0));
    }
    let label = decode_bytes(Codepage::Windows1252, fv[i].0.as_slice());
    let val = match dec_value_x(&fv[i].1, enc) {
        Ok(v) => v,
        Err(e) => {
            return Err(e);
        },
    };
    let mut rest = match dec_fields_from(fv, i + 1, enc) {
        Ok(r) => r,
        Err(e) => {
            return Err(e);
        },
    };
    let ghost rest_v = fields_view(rest@);
    let ghost lb_v = label@;
    let ghost val_v = value_view(val);
    proof {
        crate::value::lemma_fields_view_props(rest@);
    }
    rest.insert(0, (label, val));
    proof {
        crate::value::lemma_fields_view_props(rest@);
        assert(fields_view(rest@) =~= seq![(lb_v, val_v)] + rest_v);
    }
    Ok(rest)
}

/// Decodes a raw tree fresh from the parser into the character-string
/// tree: labels and strings decoded with their codepages, substring keys
/// resolved to language and gender.
pub fn decode_tree(s: &RawStruct, enc: Encodings) -> (r: Result<GffStruct, GffError>)
    ensures
        match r {
            Ok(ds) => dec_struct(s@, enc) == Ok::<StructV, GffError>(ds@),
            Err(e) => dec_struct(s@, enc) == Err::<StructV, GffError>(e),
        },
    decreases s, 1int, 0int,
{
    proof {
        assert(crate::raw::raw_fields_view(s.fields@).skip(0) =~= crate::raw::raw_fields_view(
            s.fields@,
        ));
    }
    match dec_fields_from(&s.fields, 0, enc) {
        Ok(fs) => Ok(GffStruct { st_type: s.st_type, fields: fs }),
        Err(e) => Err(e),
    }
}

} // verus!
