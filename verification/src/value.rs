//! The in-memory tree of typed field values: the canonical form that the
//! parser produces and the packer consumes.

use vstd::prelude::*;
use crate::common::{GffLang, GffGender};

verus! {

broadcast use vstd::std_specs::vec::axiom_vec_index_decreases;

/// Mathematical view of a field value: strings as character sequences,
/// byte payloads as byte sequences.
pub enum ValueV {
    Byte(u8),
    CExoLocString(u32, Seq<((GffLang, GffGender), Seq<char>)>),
    CExoString(Seq<char>),
    Char(i8),
    CResRef(Seq<char>),
    Double(u64),
    DWord(u32),
    DWord64(u64),
    Float(u32),
    Int(i32),
    Int64(i64),
    Short(i16),
    Void(Seq<u8>),
    Word(u16),
    Struct(StructV),
    List(Seq<StructV>),
    Invalid,
}

/// Mathematical view of a struct: its type tag and its fields as a
/// sequence of (label, value) pairs in insertion order.
pub struct StructV {
    pub st_type: u32,
    pub fields: Seq<(Seq<char>, ValueV)>,
}

/// A typed field value.
///
/// The wire type codes are: Byte 0, Char 1, Word 2, Short 3, DWord 4,
/// Int 5, DWord64 6, Int64 7, Float 8, Double 9, CExoString 10,
/// CResRef 11, CExoLocString 12, Void 13, Struct 14, List 15.
///
/// `Float` and `Double` carry the raw IEEE-754 bits exactly as stored on
/// the wire, in 32 and 64 bits respectively.
#[derive(Debug, PartialEq)]
pub enum GffFieldValue {
    /// A basic unsigned 8-bit value
    Byte(u8),
    /// A localized string: a talk-table reference and per-(language,
    /// gender) substrings in insertion order
    CExoLocString(u32, Vec<((GffLang, GffGender), String)>),
    /// A non-localized string
    CExoString(String),
    /// A basic signed 8-bit value
    Char(i8),
    /// A resource reference string, at most 16 bytes, lowercased on pack
    CResRef(String),
    /// The bits of an IEEE-754 64-bit value
    Double(u64),
    /// A basic unsigned 32-bit value
    DWord(u32),
    /// A basic unsigned 64-bit value
    DWord64(u64),
    /// The bits of an IEEE-754 32-bit value
    Float(u32),
    /// A basic signed 32-bit value
    Int(i32),
    /// A basic signed 64-bit value
    Int64(i64),
    /// A basic signed 16-bit value
    Short(i16),
    /// Raw data
    Void(Vec<u8>),
    /// A basic unsigned 16-bit value
    Word(u16),
    /// Another struct
    Struct(GffStruct),
    /// A list of structs
    ///
    /// Note: sequences of other types cannot be packed and must be
    /// wrapped into a struct.
    List(Vec<GffStruct>),
    /// A value the packer refuses
    Invalid,
}

/// A struct: an application-defined 32-bit type tag and labelled fields
/// in insertion order.  Labels are expected to be ASCII and at most 16
/// bytes; the packer checks the length.
#[derive(Debug, PartialEq)]
pub struct GffStruct {
    pub st_type: u32,
    pub fields: Vec<(String, GffFieldValue)>,
}

pub open spec fn structs_view(vs: Seq<GffStruct>) -> Seq<StructV>
    decreases vs,
{
    if vs.len() == 0 {
        Seq::empty()
    } else {
        seq![struct_view(vs[0])] + structs_view(vs.drop_first())
    }
}

pub open spec fn value_view(v: GffFieldValue) -> ValueV
    decreases v,
{
    match v {
        GffFieldValue::Byte(x) => ValueV::Byte(x),
        GffFieldValue::CExoLocString(tlk, subs) => ValueV::CExoLocString(
            tlk,
            Seq::new(subs@.len(), |i: int| (subs@[i].0, subs@[i].1@)),
        ),
        GffFieldValue::CExoString(s) => ValueV::CExoString(s@),
        GffFieldValue::Char(x) => ValueV::Char(x),
        GffFieldValue::CResRef(s) => ValueV::CResRef(s@),
        GffFieldValue::Double(x) => ValueV::Double(x),
        GffFieldValue::DWord(x) => ValueV::DWord(x),
        GffFieldValue::DWord64(x) => ValueV::DWord64(x),
        GffFieldValue::Float(x) => ValueV::Float(x),
        GffFieldValue::Int(x) => ValueV::Int(x),
        GffFieldValue::Int64(x) => ValueV::Int64(x),
        GffFieldValue::Short(x) => ValueV::Short(x),
        GffFieldValue::Void(b) => ValueV::Void(b@),
        GffFieldValue::Word(x) => ValueV::Word(x),
        GffFieldValue::Struct(s) => ValueV::Struct(struct_view(s)),
        GffFieldValue::List(vs) => ValueV::List(structs_view(vs@)),
        GffFieldValue::Invalid => ValueV::Invalid,
    }
}

pub open spec fn fields_view(fs: Seq<(String, GffFieldValue)>) -> Seq<(Seq<char>, ValueV)>
    decreases fs,
{
    if fs.len() == 0 {
        Seq::empty()
    } else {
        seq![(fs[0].0@, value_view(fs[0].1))] + fields_view(fs.drop_first())
    }
}

pub open spec fn struct_view(s: GffStruct) -> StructV
    decreases s,
{
    StructV { st_type: s.st_type, fields: fields_view(s.fields@) }
}

pub proof fn lemma_structs_view_props(vs: Seq<GffStruct>)
    ensures
        structs_view(vs).len() == vs.len(),
        forall|i: int| 0 <= i < vs.len() ==> structs_view(vs)[i] == struct_view(vs[i]),
    decreases vs,
{
    if vs.len() > 0 {
        lemma_structs_view_props(vs.drop_first());
    }
}

pub proof fn lemma_fields_view_props(fs: Seq<(String, GffFieldValue)>)
    ensures
        fields_view(fs).len() == fs.len(),
        forall|i: int|
            0 <= i < fs.len() ==> fields_view(fs)[i] == (fs[i].0@, value_view(fs[i].1)),
    decreases fs,
{
    if fs.len() > 0 {
        lemma_fields_view_props(fs.drop_first());
    }
}

impl View for GffFieldValue {
    type V = ValueV;

    open spec fn view(&self) -> ValueV {
        value_view(*self)
    }
}

impl View for GffStruct {
    type V = StructV;

    open spec fn view(&self) -> StructV {
        struct_view(*self)
    }
}

/// Four spaces per depth level: the indentation step of a rendered tree.
pub fn indent(depth: u32) -> (r: String)
    ensures
        r@.len() == 4 * depth,
{
    let mut out = String::new();
    let mut i: u32 = 0;
    while i < depth
        invariant
            0 <= i <= depth,
            out@.len() == 4 * i,
        decreases depth - i,
    {
        proof {
            reveal_strlit("    ");
        }
        out.append("    ");
        i += 1;
    }
    out
}

/// Whether two string slices hold the same characters.
fn str_eq(a: &str, b: &str) -> (r: bool)
    ensures
        r == (a@ == b@),
{
    broadcast use vstd::utf8::encode_utf8_decode_utf8;

    let ab = a.as_bytes();
    let bb = b.as_bytes();
    if ab.len() != bb.len() {
        return false;
    }
    let mut i: usize = 0;
    while i < ab.len()
        invariant
            0 <= i <= ab@.len(),
            ab@ == vstd::utf8::encode_utf8(a@),
            bb@ == vstd::utf8::encode_utf8(b@),
            ab@.len() == bb@.len(),
            forall|t: int| 0 <= t < i ==> ab@[t] == bb@[t],
        decreases ab@.len() - i,
    {
        if ab[i] != bb[i] {
            proof {
                assert(vstd::utf8::encode_utf8(a@) != vstd::utf8::encode_utf8(b@));
            }
            return false;
        }
        i += 1;
    }
    proof {
        assert(ab@ =~= bb@);
        assert(vstd::utf8::decode_utf8(vstd::utf8::encode_utf8(a@)) == a@);
        assert(vstd::utf8::decode_utf8(vstd::utf8::encode_utf8(b@)) == b@);
    }
    true
}

/// The value of the first field bearing the label, if any.
pub open spec fn spec_get(fields: Seq<(Seq<char>, ValueV)>, l: Seq<char>) -> Option<ValueV>
    decreases fields,
{
    if fields.len() == 0 {
        None
    } else if fields[0].0 == l {
        Some(fields[0].1)
    } else {
        spec_get(fields.drop_first(), l)
    }
}

impl GffStruct {
    /// Looks a field up by its label: the first field carrying it, in
    /// insertion order.
    pub fn get(&self, label: &str) -> (r: Option<&GffFieldValue>)
        ensures
            match r {
                Some(v) => spec_get(self@.fields, label@) == Some(value_view(*v)),
                None => spec_get(self@.fields, label@) is None,
            },
    {
        let ghost fv = fields_view(self.fields@);
        proof {
            lemma_fields_view_props(self.fields@);
            assert(fv.skip(0) =~= fv);
        }
        let mut i: usize = 0;
        while i < self.fields.len()
            invariant
                0 <= i <= self.fields@.len(),
                fv == fields_view(self.fields@),
                fv.len() == self.fields@.len(),
                forall|t: int|
                    0 <= t < self.fields@.len() ==> fv[t] == (
                    self.fields@[t].0@,
                    value_view(self.fields@[t].1),
                ),
                spec_get(fv, label@) == spec_get(fv.skip(i as int), label@),
            decreases self.fields@.len() - i,
        {
            proof {
                assert(fv.skip(i as int)[0] == fv[i as int]);
                assert(fv.skip(i as int).drop_first() =~= fv.skip(i as int + 1));
            }
            if str_eq(self.fields[i].0.as_str(), label) {
                return Some(&self.fields[i].1);
            }
            i += 1;
        }
        proof {
            assert(fv.skip(self.fields@.len() as int) =~= Seq::<(Seq<char>, ValueV)>::empty());
        }
        None
    }
}

impl GffFieldValue {
    /// The payload of a `Byte`, or an error naming the expected variant.
    pub fn try_to_byte(&self) -> (r: Result<u8, &'static str>)
        ensures
            match *self {
                GffFieldValue::Byte(x) => r == Ok::<u8, &'static str>(x),
                _ => r is Err,
            },
    {
        match self {
            GffFieldValue::Byte(x) => Ok(*x),
            _ => Err("expected Byte"),
        }
    }

    /// The payload of a `Char`, or an error naming the expected variant.
    pub fn try_to_char(&self) -> (r: Result<i8, &'static str>)
        ensures
            match *self {
                GffFieldValue::Char(x) => r == Ok::<i8, &'static str>(x),
                _ => r is Err,
            },
    {
        match self {
            GffFieldValue::Char(x) => Ok(*x),
            _ => Err("expected Char"),
        }
    }

    /// The payload of a `Word`, or an error naming the expected variant.
    pub fn try_to_word(&self) -> (r: Result<u16, &'static str>)
        ensures
            match *self {
                GffFieldValue::Word(x) => r == Ok::<u16, &'static str>(x),
                _ => r is Err,
            },
    {
        match self {
            GffFieldValue::Word(x) => Ok(*x),
            _ => Err("expected Word"),
        }
    }

    /// The payload of a `Short`, or an error naming the expected variant.
    pub fn try_to_short(&self) -> (r: Result<i16, &'static str>)
        ensures
            match *self {
                GffFieldValue::Short(x) => r == Ok::<i16, &'static str>(x),
                _ => r is Err,
            },
    {
        match self {
            GffFieldValue::Short(x) => Ok(*x),
            _ => Err("expected Short"),
        }
    }

    /// The payload of a `DWord`, or an error naming the expected variant.
    pub fn try_to_dword(&self) -> (r: Result<u32, &'static str>)
        ensures
            match *self {
                GffFieldValue::DWord(x) => r == Ok::<u32, &'static str>(x),
                _ => r is Err,
            },
    {
        match self {
            GffFieldValue::DWord(x) => Ok(*x),
            _ => Err("expected DWord"),
        }
    }

    /// The payload of an `Int`, or an error naming the expected variant.
    pub fn try_to_int(&self) -> (r: Result<i32, &'static str>)
        ensures
            match *self {
                GffFieldValue::Int(x) => r == Ok::<i32, &'static str>(x),
                _ => r is Err,
            },
    {
        match self {
            GffFieldValue::Int(x) => Ok(*x),
            _ => Err("expected Int"),
        }
    }

    /// The payload of a `DWord64`, or an error naming the expected
    /// variant.
    pub fn try_to_dword64(&self) -> (r: Result<u64, &'static str>)
        ensures
            match *self {
                GffFieldValue::DWord64(x) => r == Ok::<u64, &'static str>(x),
                _ => r is Err,
            },
    {
        match self {
            GffFieldValue::DWord64(x) => Ok(*x),
            _ => Err("expected DWord64"),
        }
    }

    /// The payload of an `Int64`, or an error naming the expected
    /// variant.
    pub fn try_to_int64(&self) -> (r: Result<i64, &'static str>)
        ensures
            match *self {
                GffFieldValue::Int64(x) => r == Ok::<i64, &'static str>(x),
                _ => r is Err,
            },
    {
        match self {
            GffFieldValue::Int64(x) => Ok(*x),
            _ => Err("expected Int64"),
        }
    }

    /// The bits of a `Float`, or an error naming the expected variant.
    pub fn try_to_float_bits(&self) -> (r: Result<u32, &'static str>)
        ensures
            match *self {
                GffFieldValue::Float(x) => r == Ok::<u32, &'static str>(x),
                _ => r is Err,
            },
    {
        match self {
            GffFieldValue::Float(x) => Ok(*x),
            _ => Err("expected Float"),
        }
    }

    /// The bits of a `Double`, or an error naming the expected variant.
    pub fn try_to_double_bits(&self) -> (r: Result<u64, &'static str>)
        ensures
            match *self {
                GffFieldValue::Double(x) => r == Ok::<u64, &'static str>(x),
                _ => r is Err,
            },
    {
        match self {
            GffFieldValue::Double(x) => Ok(*x),
            _ => Err("expected Double"),
        }
    }

    /// The string of a `CExoString`, copied out, or an error naming the
    /// expected variant.
    pub fn try_to_string(&self) -> (r: Result<String, &'static str>)
        ensures
            match *self {
                GffFieldValue::CExoString(ref s) => r matches Ok(c) && c@ == s@,
                _ => r is Err,
            },
    {
        match self {
            GffFieldValue::CExoString(s) => Ok(s.clone()),
            _ => Err("expect CExoString"),
        }
    }
}

/// Hook for layers that lower a user-defined record from the field tree:
/// implemented by callers, consumed by mapping code above the codec.
pub trait Deserialize where Self: core::marker::Sized {
    fn deserialize(from: &GffStruct) -> Result<Self, &'static str>;
}

/// Deserializes every member of a list field through the caller's
/// [`Deserialize`] hook; anything but a list is refused.
pub fn deserialize_list<T: Deserialize>(value: &GffFieldValue) -> (r: Result<Vec<T>, &'static str>)
    ensures
        !(*value matches GffFieldValue::List(_)) ==> r is Err,
{
    match value {
        GffFieldValue::List(vs) => {
            let mut out: Vec<T> = Vec::new();
            let mut i: usize = 0;
            while i < vs.len()
                decreases vs@.len() - i,
            {
                match T::deserialize(&vs[i]) {
                    Ok(t) => out.push(t),
                    Err(e) => {
                        return Err(e);
                    },
                }
                i += 1;
            }
            Ok(out)
        },
        _ => Err("Expected List"),
    }
}

/// Hook for layers that lift a user-defined record into the field tree:
/// implemented by callers, consumed by mapping code above the codec.
pub trait Serialize where Self: core::marker::Sized {
    fn serialize(&self) -> Result<GffStruct, &'static str>;
}

} // verus!
