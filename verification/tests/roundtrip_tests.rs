use gff::common::{Encodings, GffError, GffGender, GffLang};
use gff::packer::Packer;
use gff::parser::GffParser;
use gff::value::{GffFieldValue, GffStruct};

fn test_pack_unpack(input: &GffStruct) {
    let mut packer = Packer::new(Encodings::NeverwinterNights);
    let data = packer.pack(input).unwrap();
    let res = GffParser::parse(data, Encodings::NeverwinterNights).unwrap();
    assert_eq!(res, *input);
}

fn test_1_field(val: GffFieldValue) {
    let val = GffStruct {
        st_type: 0xFFFFFFFF,
        fields: vec![(String::from("field1"), val)],
    };
    test_pack_unpack(&val);
}

#[test]
fn test_001_all_single_fields() {
    test_1_field(GffFieldValue::Byte(1));
    test_1_field(GffFieldValue::Char(1));
    test_1_field(GffFieldValue::Short(1));
    test_1_field(GffFieldValue::Word(1));
    test_1_field(GffFieldValue::Int(1));
    test_1_field(GffFieldValue::DWord(1));
    test_1_field(GffFieldValue::Int64(1));
    test_1_field(GffFieldValue::DWord64(1));
    test_1_field(GffFieldValue::Float((3.14f32).to_bits()));
    test_1_field(GffFieldValue::Double((3.14f64).to_bits()));
    test_1_field(GffFieldValue::CResRef(String::from("reference.bic")));
    test_1_field(GffFieldValue::CExoString(
        String::from("This is a sentence, hope you like it"),
    ));
    test_1_field(GffFieldValue::Void(b"qweasdzxc".to_vec()));
    test_1_field(GffFieldValue::CExoLocString(
        0xFFFFFFFF,
        vec![
            ((GffLang::English, GffGender::Male), String::from("Hello sir")),
            ((GffLang::English, GffGender::Female), String::from("Hello milady")),
            ((GffLang::French, GffGender::Male), String::from("Salut bogosse")),
            ((GffLang::French, GffGender::Female), String::from("Wesh madmazelle")),
        ],
    ));
    test_1_field(GffFieldValue::Struct(GffStruct {
        st_type: 0xFFFFFFFF,
        fields: vec![(String::from("field2"), GffFieldValue::Byte(1))],
    }));
    test_1_field(GffFieldValue::List(vec![
        GffStruct {
            st_type: 0xFFFFFFFF,
            fields: vec![(String::from("field2"), GffFieldValue::Byte(0xAA))],
        },
        GffStruct {
            st_type: 0xFFFFFFFF,
            fields: vec![(String::from("field2"), GffFieldValue::Byte(0x55))],
        },
    ]));
}

#[test]
fn test_multi_field_struct_round_trips() {
    let input = GffStruct {
        st_type: 0x01020304,
        fields: vec![
            (String::from("alpha"), GffFieldValue::Byte(1)),
            (String::from("beta"), GffFieldValue::Int(-5)),
            (String::from("gamma"), GffFieldValue::CExoString(String::from("hi"))),
            (
                String::from("delta"),
                GffFieldValue::List(vec![
                    GffStruct { st_type: 9, fields: vec![] },
                    GffStruct {
                        st_type: 10,
                        fields: vec![
                            (String::from("alpha"), GffFieldValue::Word(77)),
                            (String::from("inner"), GffFieldValue::Struct(GffStruct {
                                st_type: 11,
                                fields: vec![(String::from("leaf"), GffFieldValue::Short(-2))],
                            })),
                        ],
                    },
                ]),
            ),
        ],
    };
    test_pack_unpack(&input);
}

#[test]
fn test_packed_bytes_reparse_to_identical_bytes() {
    // byte identity of pack-of-parse on packer output
    let sub = GffStruct {
        st_type: 7,
        fields: vec![(String::from("x"), GffFieldValue::DWord64(0x1122334455667788))],
    };
    let input = GffStruct {
        st_type: 0xFFFFFFFF,
        fields: vec![
            (String::from("field1"), GffFieldValue::Struct(sub)),
            (String::from("field2"), GffFieldValue::CExoString(String::from("abc"))),
        ],
    };
    let mut packer = Packer::new(Encodings::NeverwinterNights);
    let bytes = packer.pack(&input).unwrap();
    let reparsed = GffParser::parse(bytes.clone(), Encodings::NeverwinterNights).unwrap();
    let mut packer2 = Packer::new(Encodings::NeverwinterNights);
    let bytes2 = packer2.pack(&reparsed).unwrap();
    assert_eq!(bytes, bytes2);
}

#[test]
fn test_empty_struct_round_trips() {
    let input = GffStruct { st_type: 42, fields: vec![] };
    test_pack_unpack(&input);
}

#[test]
fn test_locstring_total_length_on_wire() {
    // tlk_ref 0x1234, English/Male "Hello" and French/Male "Salut":
    // total_len = 8 + (8+5) + (8+5) = 34, so field_data holds 38 bytes and
    // begins with the total, the talk-table reference and the count
    let input = GffStruct {
        st_type: 0xFFFFFFFF,
        fields: vec![(
            String::from("field1"),
            GffFieldValue::CExoLocString(
                0x1234,
                vec![
                    ((GffLang::English, GffGender::Male), String::from("Hello")),
                    ((GffLang::French, GffGender::Male), String::from("Salut")),
                ],
            ),
        )],
    };
    let mut packer = Packer::new(Encodings::NeverwinterNights);
    packer.pack(&input).unwrap();
    assert_eq!(packer.data.field_data.len(), 38);
    assert_eq!(&packer.data.field_data[0..4], &[34u8, 0, 0, 0]);
    assert_eq!(&packer.data.field_data[4..8], &[0x34u8, 0x12, 0, 0]);
    assert_eq!(&packer.data.field_data[8..12], &[2u8, 0, 0, 0]);
    // English/Male key is 0, French/Male key is 2
    assert_eq!(&packer.data.field_data[12..16], &[0u8, 0, 0, 0]);
    assert_eq!(&packer.data.field_data[16..20], &[5u8, 0, 0, 0]);
    assert_eq!(&packer.data.field_data[20..25], b"Hello");
    assert_eq!(&packer.data.field_data[25..29], &[2u8, 0, 0, 0]);
    assert_eq!(&packer.data.field_data[29..33], &[5u8, 0, 0, 0]);
    assert_eq!(&packer.data.field_data[33..38], b"Salut");
}

#[test]
fn test_parse_rejects_short_input() {
    let r = GffParser::parse(vec![0u8; 20], Encodings::NeverwinterNights);
    assert_eq!(r, Err(GffError::MalformedHeader(0)));
}

#[test]
fn test_parse_rejects_wrong_version() {
    let input = GffStruct {
        st_type: 0,
        fields: vec![(String::from("field1"), GffFieldValue::Byte(1))],
    };
    let mut packer = Packer::new(Encodings::NeverwinterNights);
    let mut bytes = packer.pack(&input).unwrap();
    bytes[7] = b'1'; // V3.2 becomes V3.1
    let r = GffParser::parse(bytes, Encodings::NeverwinterNights);
    assert_eq!(r, Err(GffError::MalformedHeader(4)));
}

#[test]
fn test_parse_rejects_trailing_bytes() {
    let input = GffStruct {
        st_type: 0,
        fields: vec![(String::from("field1"), GffFieldValue::Byte(1))],
    };
    let mut packer = Packer::new(Encodings::NeverwinterNights);
    let mut bytes = packer.pack(&input).unwrap();
    bytes.push(0);
    let r = GffParser::parse(bytes, Encodings::NeverwinterNights);
    assert_eq!(r, Err(GffError::MalformedHeader(0)));
}

#[test]
fn test_parse_rejects_bad_field_type() {
    let input = GffStruct {
        st_type: 0,
        fields: vec![(String::from("field1"), GffFieldValue::Byte(1))],
    };
    let mut packer = Packer::new(Encodings::NeverwinterNights);
    let mut bytes = packer.pack(&input).unwrap();
    // the single field record sits right after the 56-byte header and the
    // single 12-byte struct record; its first word is the type code
    bytes[68] = 99;
    let r = GffParser::parse(bytes, Encodings::NeverwinterNights);
    assert_eq!(r, Err(GffError::BadFieldType(99)));
}

#[test]
fn test_parse_rejects_self_referencing_struct_field() {
    let input = GffStruct {
        st_type: 0,
        fields: vec![(
            String::from("field1"),
            GffFieldValue::Struct(GffStruct {
                st_type: 1,
                fields: vec![(String::from("field2"), GffFieldValue::Byte(1))],
            }),
        )],
    };
    let mut packer = Packer::new(Encodings::NeverwinterNights);
    let mut bytes = packer.pack(&input).unwrap();
    // two struct records follow the header, so the fields block starts at
    // byte 80; the root's field is a struct field whose slot names struct
    // index 1: point it back at the root instead
    assert_eq!(bytes[80..84], [14, 0, 0, 0]);
    bytes[88] = 0;
    let r = GffParser::parse(bytes, Encodings::NeverwinterNights);
    assert_eq!(r, Err(GffError::CycleDetected(0)));
}

#[test]
fn test_parse_rejects_unknown_language() {
    let input = GffStruct {
        st_type: 0,
        fields: vec![(
            String::from("field1"),
            GffFieldValue::CExoLocString(
                0,
                vec![((GffLang::Polish, GffGender::Male), String::from("ab"))],
            ),
        )],
    };
    let mut packer = Packer::new(Encodings::NeverwinterNights);
    let mut bytes = packer.pack(&input).unwrap();
    // the field-data block follows the header, one struct record, one
    // field record and one label entry, so it starts at byte 96; the
    // substring key (Polish/Male = 10) is its fourth word
    assert_eq!(bytes[108..112], [10, 0, 0, 0]);
    bytes[108] = 88; // language 44 exists in no table
    let r = GffParser::parse(bytes, Encodings::NeverwinterNights);
    assert_eq!(r, Err(GffError::UnknownLanguage(44)));
}

#[test]
fn test_non_ascii_string_round_trips() {
    let mut s = String::from("caf");
    s.push('\u{e9}');
    test_1_field(GffFieldValue::CExoString(s));
}
