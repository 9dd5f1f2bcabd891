//! Common types of the GFF codec: the error taxonomy, languages and
//! genders of localized strings, codepage selection, the file header, and
//! the in-memory tree of typed field values.

use vstd::prelude::*;

verus! {

/// Errors reported by the parser and the packer.
///
/// Each variant carries the offset, index or type code that locates the
/// defect, where one is meaningful.
#[derive(Debug, Clone, Copy, PartialEq, Eq, Structural)]
pub enum GffError {
    /// Version tag unknown, input shorter than its blocks demand, a block
    /// offset that disagrees with the sizes of the blocks before it, an
    /// index block whose byte count is not a multiple of four, or bytes
    /// left over after the last block.  Carries the file offset of the
    /// offending header word.
    MalformedHeader(u32),
    /// A struct, field or label index at or beyond its block's count, or a
    /// data offset pointing outside its block.  Carries the index.
    IndexOutOfRange(u32),
    /// A field-indices or list-indices byte offset that is not a multiple
    /// of four.  Carries the offset.
    UnalignedOffset(u32),
    /// A field type code outside 0..=15.  Carries the code.
    BadFieldType(u32),
    /// A language id outside the closed set of the encoding table.
    /// Carries the id.
    UnknownLanguage(u32),
    /// A declared string length that exceeds the remainder of its block.
    /// Carries the offset at which the length was read.
    StringLengthOverflow(u32),
    /// A struct index reached twice while walking from the root.  Carries
    /// the index.
    CycleDetected(u32),
    /// A label longer than 16 bytes handed to the packer.
    LabelTooLong,
    /// A resource reference longer than 16 bytes handed to the packer, or
    /// found in a parsed file.
    ResRefTooLong,
    /// The packed output could not be delivered to its sink.  The
    /// library hands the packed bytes back to the caller instead of
    /// writing them anywhere, so it never raises this itself; it is kept
    /// for callers that deliver the bytes and report the failure.
    WriteFailed,
}

/// A player language id, as used to localize dialog strings.
///
/// The ids are the ones Neverwinter Nights uses; other games may differ.
#[derive(Debug, Clone, Copy, PartialEq, Eq, Structural)]
pub enum GffLang {
    English,
    French,
    German,
    Italian,
    Spanish,
    Polish,
    Korean,
    ChineseTrad,
    ChineseSimpl,
    Japanese,
}

impl GffLang {
    /// The 32-bit id of this language on the wire.
    pub open spec fn spec_id(self) -> u32 {
        match self {
            GffLang::English => 0,
            GffLang::French => 1,
            GffLang::German => 2,
            GffLang::Italian => 3,
            GffLang::Spanish => 4,
            GffLang::Polish => 5,
            GffLang::Korean => 128,
            GffLang::ChineseTrad => 129,
            GffLang::ChineseSimpl => 130,
            GffLang::Japanese => 131,
        }
    }

    #[verifier::when_used_as_spec(spec_id)]
    pub fn id(self) -> (r: u32)
        ensures
            r == self.spec_id(),
    {
        match self {
            GffLang::English => 0,
            GffLang::French => 1,
            GffLang::German => 2,
            GffLang::Italian => 3,
            GffLang::Spanish => 4,
            GffLang::Polish => 5,
            GffLang::Korean => 128,
            GffLang::ChineseTrad => 129,
            GffLang::ChineseSimpl => 130,
            GffLang::Japanese => 131,
        }
    }

    /// The language of a 32-bit id, if the id belongs to the closed set.
    pub open spec fn spec_from_id(v: u32) -> Option<GffLang> {
        if v == 0 {
            Some(GffLang::English)
        } else if v == 1 {
            Some(GffLang::French)
        } else if v == 2 {
            Some(GffLang::German)
        } else if v == 3 {
            Some(GffLang::Italian)
        } else if v == 4 {
            Some(GffLang::Spanish)
        } else if v == 5 {
            Some(GffLang::Polish)
        } else if v == 128 {
            Some(GffLang::Korean)
        } else if v == 129 {
            Some(GffLang::ChineseTrad)
        } else if v == 130 {
            Some(GffLang::ChineseSimpl)
        } else if v == 131 {
            Some(GffLang::Japanese)
        } else {
            None
        }
    }

    pub fn from_id(v: u32) -> (r: Option<GffLang>)
        ensures
            r == GffLang::spec_from_id(v),
    {
        if v == 0 {
            Some(GffLang::English)
        } else if v == 1 {
            Some(GffLang::French)
        } else if v == 2 {
            Some(GffLang::German)
        } else if v == 3 {
            Some(GffLang::Italian)
        } else if v == 4 {
            Some(GffLang::Spanish)
        } else if v == 5 {
            Some(GffLang::Polish)
        } else if v == 128 {
            Some(GffLang::Korean)
        } else if v == 129 {
            Some(GffLang::ChineseTrad)
        } else if v == 130 {
            Some(GffLang::ChineseSimpl)
        } else if v == 131 {
            Some(GffLang::Japanese)
        } else {
            None
        }
    }
}

/// A character gender, the second key of a localized substring.
#[derive(Debug, Clone, Copy, PartialEq, Eq, Structural)]
pub enum GffGender {
    Male,
    Female,
}

impl GffGender {
    pub open spec fn spec_id(self) -> u32 {
        match self {
            GffGender::Male => 0,
            GffGender::Female => 1,
        }
    }

    #[verifier::when_used_as_spec(spec_id)]
    pub fn id(self) -> (r: u32)
        ensures
            r == self.spec_id(),
    {
        match self {
            GffGender::Male => 0,
            GffGender::Female => 1,
        }
    }
}

/// The substring key as stored on the wire: the gender in the low bit and
/// the language id in the remaining bits.
pub open spec fn spec_loc_key(lang: GffLang, gender: GffGender) -> u32 {
    (2 * lang.spec_id() + gender.spec_id()) as u32
}

pub fn loc_key(lang: GffLang, gender: GffGender) -> (r: u32)
    ensures
        r == spec_loc_key(lang, gender),
{
    2 * lang.id() + gender.id()
}

/// The language and gender encoded by a substring key, if the language id
/// belongs to the closed set.
pub open spec fn spec_loc_key_decode(key: u32) -> Option<(GffLang, GffGender)> {
    match GffLang::spec_from_id(key / 2) {
        Some(lang) => Some(
            (lang, if key % 2 == 0 { GffGender::Male } else { GffGender::Female }),
        ),
        None => None,
    }
}

pub fn loc_key_decode(key: u32) -> (r: Option<(GffLang, GffGender)>)
    ensures
        r == spec_loc_key_decode(key),
{
    match GffLang::from_id(key / 2) {
        Some(lang) => Some(
            (lang, if key % 2 == 0 { GffGender::Male } else { GffGender::Female }),
        ),
        None => None,
    }
}

/// Every (language, gender) pair survives the trip through its wire key:
/// the key is two times the language id plus the gender id, and decoding
/// it yields the pair again.
pub proof fn lemma_loc_key_round_trip(lang: GffLang, gender: GffGender)
    ensures
        spec_loc_key(lang, gender) == 2 * lang.spec_id() + gender.spec_id(),
        spec_loc_key_decode(spec_loc_key(lang, gender)) == Some((lang, gender)),
{
}

/// A codepage that the encoding table can select.
#[derive(Debug, Clone, Copy, PartialEq, Eq, Structural)]
pub enum Codepage {
    Windows1252,
    Windows1250,
    EucKr,
    Big5,
    Gbk,
    ShiftJis,
}

impl Codepage {
    /// The conventional Windows codepage number, used only to key the
    /// ghost names of encoded and decoded strings.
    pub open spec fn spec_id(self) -> int {
        match self {
            Codepage::Windows1252 => 1252,
            Codepage::Windows1250 => 1250,
            Codepage::EucKr => 949,
            Codepage::Big5 => 950,
            Codepage::Gbk => 936,
            Codepage::ShiftJis => 932,
        }
    }
}

/// A game profile naming its language-to-codepage table.
#[derive(Debug, Clone, Copy, PartialEq, Eq, Structural)]
pub enum Encodings {
    NeverwinterNights,
}

impl Encodings {
    /// The codepage of a language id; `None` selects the codepage of
    /// non-localized strings, resource references and labels.
    pub open spec fn spec_encoding_for(self, lang: Option<u32>) -> Result<Codepage, GffError> {
        match lang {
            None => Ok(Codepage::Windows1252),
            Some(l) => if l <= 4 {
                Ok(Codepage::Windows1252)
            } else if l == 5 {
                Ok(Codepage::Windows1250)
            } else if l == 128 {
                Ok(Codepage::EucKr)
            } else if l == 129 {
                Ok(Codepage::Big5)
            } else if l == 130 {
                Ok(Codepage::Gbk)
            } else if l == 131 {
                Ok(Codepage::ShiftJis)
            } else {
                Err(GffError::UnknownLanguage(l))
            },
        }
    }

    pub fn encoding_for(&self, lang: Option<u32>) -> (r: Result<Codepage, GffError>)
        ensures
            r == self.spec_encoding_for(lang),
    {
        match lang {
            None => Ok(Codepage::Windows1252),
            Some(l) => if l <= 4 {
                Ok(Codepage::Windows1252)
            } else if l == 5 {
                Ok(Codepage::Windows1250)
            } else if l == 128 {
                Ok(Codepage::EucKr)
            } else if l == 129 {
                Ok(Codepage::Big5)
            } else if l == 130 {
                Ok(Codepage::Gbk)
            } else if l == 131 {
                Ok(Codepage::ShiftJis)
            } else {
                Err(GffError::UnknownLanguage(l))
            },
        }
    }
}

/// A language of the closed set always resolves to a codepage.
pub proof fn lemma_encoding_for_known_lang(enc: Encodings, lang: GffLang)
    ensures
        enc.spec_encoding_for(Some(lang.spec_id())) is Ok,
{
}

/// An (offset, count) pair of the header, delimiting one block of packed
/// data.
#[derive(Debug, Clone, Copy, PartialEq, Eq, Structural)]
pub struct OffsetCount(pub u32, pub u32);

impl Default for OffsetCount {
    fn default() -> (r: Self)
        ensures
            r == OffsetCount(0u32, 0u32),
    {
        OffsetCount(0, 0)
    }
}

/// The unpacked 56-byte file header: a type tag, a version tag, and the
/// (offset, count) pairs of the six data blocks.
#[derive(Debug, Clone, Copy, PartialEq, Eq)]
pub struct GffHeader {
    pub gff_type: [u8; 4],
    pub version: [u8; 4],
    pub structs: OffsetCount,
    pub fields: OffsetCount,
    pub labels: OffsetCount,
    pub field_data: OffsetCount,
    pub field_indices: OffsetCount,
    pub list_indices: OffsetCount,
}

/// The version tag of the one supported format version, "V3.2" in ASCII.
pub open spec fn spec_version_tag() -> Seq<u8> {
    seq![0x56u8, 0x33u8, 0x2Eu8, 0x32u8]
}

/// The default file type tag: four ASCII spaces.
pub open spec fn spec_blank_type_tag() -> Seq<u8> {
    seq![0x20u8, 0x20u8, 0x20u8, 0x20u8]
}

impl Default for GffHeader {
    fn default() -> (r: Self)
        ensures
            r.gff_type@ == spec_blank_type_tag(),
            r.version@ == spec_version_tag(),
            r.structs == OffsetCount(0u32, 0u32),
            r.fields == OffsetCount(0u32, 0u32),
            r.labels == OffsetCount(0u32, 0u32),
            r.field_data == OffsetCount(0u32, 0u32),
            r.field_indices == OffsetCount(0u32, 0u32),
            r.list_indices == OffsetCount(0u32, 0u32),
    {
        let r = GffHeader {
            gff_type: [0x20, 0x20, 0x20, 0x20],
            version: [0x56, 0x33, 0x2E, 0x32],
            structs: OffsetCount(0, 0),
            fields: OffsetCount(0, 0),
            labels: OffsetCount(0, 0),
            field_data: OffsetCount(0, 0),
            field_indices: OffsetCount(0, 0),
            list_indices: OffsetCount(0, 0),
        };
        proof {
            assert(r.gff_type@ =~= spec_blank_type_tag());
            assert(r.version@ =~= spec_version_tag());
        }
        r
    }
}

} // verus!
