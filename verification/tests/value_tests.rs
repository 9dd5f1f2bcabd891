use gff::common::{loc_key, loc_key_decode, Codepage, Encodings, GffError, GffGender, GffHeader, GffLang, OffsetCount};
use gff::packer::Packer;
use gff::parser::GffParser;
use gff::value::{indent, GffFieldValue, GffStruct};

#[test]
fn test_loc_key_packs_gender_in_low_bit() {
    assert_eq!(loc_key(GffLang::English, GffGender::Male), 0);
    assert_eq!(loc_key(GffLang::English, GffGender::Female), 1);
    assert_eq!(loc_key(GffLang::French, GffGender::Male), 2);
    assert_eq!(loc_key(GffLang::Japanese, GffGender::Female), 263);
    assert_eq!(
        loc_key_decode(263),
        Some((GffLang::Japanese, GffGender::Female))
    );
    assert_eq!(
        loc_key_decode(loc_key(GffLang::Korean, GffGender::Male)),
        Some((GffLang::Korean, GffGender::Male))
    );
    assert_eq!(loc_key_decode(12), None);
}

#[test]
fn test_encoding_for_languages() {
    let enc = Encodings::NeverwinterNights;
    assert_eq!(enc.encoding_for(None), Ok(Codepage::Windows1252));
    assert_eq!(enc.encoding_for(Some(0)), Ok(Codepage::Windows1252));
    assert_eq!(enc.encoding_for(Some(5)), Ok(Codepage::Windows1250));
    assert_eq!(enc.encoding_for(Some(128)), Ok(Codepage::EucKr));
    assert_eq!(enc.encoding_for(Some(129)), Ok(Codepage::Big5));
    assert_eq!(enc.encoding_for(Some(130)), Ok(Codepage::Gbk));
    assert_eq!(enc.encoding_for(Some(131)), Ok(Codepage::ShiftJis));
    assert_eq!(enc.encoding_for(Some(6)), Err(GffError::UnknownLanguage(6)));
}

#[test]
fn test_get_returns_first_match_in_insertion_order() {
    let s = GffStruct {
        st_type: 1,
        fields: vec![
            (String::from("alpha"), GffFieldValue::Byte(1)),
            (String::from("beta"), GffFieldValue::Byte(2)),
            (String::from("alpha"), GffFieldValue::Byte(3)),
        ],
    };
    assert_eq!(s.get("alpha"), Some(&GffFieldValue::Byte(1)));
    assert_eq!(s.get("beta"), Some(&GffFieldValue::Byte(2)));
    assert_eq!(s.get("gamma"), None);
}

#[test]
fn test_value_accessors() {
    assert_eq!(GffFieldValue::Byte(7).try_to_byte(), Ok(7));
    assert_eq!(GffFieldValue::Char(-7).try_to_char(), Ok(-7));
    assert_eq!(GffFieldValue::Word(77).try_to_word(), Ok(77));
    assert_eq!(GffFieldValue::Short(-77).try_to_short(), Ok(-77));
    assert_eq!(GffFieldValue::DWord(777).try_to_dword(), Ok(777));
    assert_eq!(GffFieldValue::Int(-777).try_to_int(), Ok(-777));
    assert_eq!(GffFieldValue::DWord64(7777).try_to_dword64(), Ok(7777));
    assert_eq!(GffFieldValue::Int64(-7777).try_to_int64(), Ok(-7777));
    assert_eq!(
        GffFieldValue::Float((1.5f32).to_bits()).try_to_float_bits(),
        Ok((1.5f32).to_bits())
    );
    assert_eq!(
        GffFieldValue::Double((2.5f64).to_bits()).try_to_double_bits(),
        Ok((2.5f64).to_bits())
    );
    assert_eq!(
        GffFieldValue::CExoString(String::from("hi")).try_to_string(),
        Ok(String::from("hi"))
    );
    assert!(GffFieldValue::Byte(1).try_to_word().is_err());
    assert!(GffFieldValue::Word(1).try_to_string().is_err());
}

#[test]
fn test_indent_grows_by_four_spaces() {
    assert_eq!(indent(0), String::from(""));
    assert_eq!(indent(1), String::from("    "));
    assert_eq!(indent(3), String::from("            "));
}

#[test]
fn test_pack_val_4_appends_one_field_record() {
    let mut packer = Packer::new(Encodings::NeverwinterNights);
    let li = packer.pack_label(&String::from("field1")).unwrap();
    packer.pack_val_4(4, li, &[5, 0, 0, 0]);
    assert_eq!(
        packer.data.fields,
        vec![4u8, 0, 0, 0, 0, 0, 0, 0, 5, 0, 0, 0]
    );
}

#[test]
fn test_parse_rejects_overlong_string_length() {
    let input = GffStruct {
        st_type: 0,
        fields: vec![(
            String::from("field1"),
            GffFieldValue::CExoString(String::from("test")),
        )],
    };
    let mut packer = Packer::new(Encodings::NeverwinterNights);
    let mut bytes = packer.pack(&input).unwrap();
    // the string's 32-bit length prefix opens the field-data block, which
    // follows the header, one struct record, one field record and one
    // label entry
    assert_eq!(bytes[96..100], [4, 0, 0, 0]);
    bytes[96] = 200;
    let r = GffParser::parse(bytes, Encodings::NeverwinterNights);
    assert_eq!(r, Err(GffError::StringLengthOverflow(0)));
}

#[test]
fn test_header_default_counts_and_tags() {
    let h = GffHeader::default();
    assert_eq!(&h.gff_type, b"    ");
    assert_eq!(&h.version, b"V3.2");
    assert_eq!(h.structs, OffsetCount(0, 0));
    assert_eq!(h.list_indices, OffsetCount(0, 0));
}

#[test]
fn test_parse_rejects_field_index_out_of_range() {
    let input = GffStruct {
        st_type: 0,
        fields: vec![(String::from("field1"), GffFieldValue::Byte(1))],
    };
    let mut packer = Packer::new(Encodings::NeverwinterNights);
    let mut bytes = packer.pack(&input).unwrap();
    // the struct record's locator names field 0; only one field exists
    assert_eq!(bytes[60..64], [0, 0, 0, 0]);
    bytes[60] = 5;
    let r = GffParser::parse(bytes, Encodings::NeverwinterNights);
    assert_eq!(r, Err(GffError::IndexOutOfRange(5)));
}

#[test]
fn test_parse_rejects_unaligned_field_indices_offset() {
    let input = GffStruct {
        st_type: 0,
        fields: vec![
            (String::from("field1"), GffFieldValue::Byte(1)),
            (String::from("field2"), GffFieldValue::Byte(2)),
        ],
    };
    let mut packer = Packer::new(Encodings::NeverwinterNights);
    let mut bytes = packer.pack(&input).unwrap();
    // two fields, so the locator is a byte offset into the field-indices
    // block; knock it off its four-byte grid
    assert_eq!(bytes[60..64], [0, 0, 0, 0]);
    bytes[60] = 2;
    let r = GffParser::parse(bytes, Encodings::NeverwinterNights);
    assert_eq!(r, Err(GffError::UnalignedOffset(2)));
}

#[test]
fn test_parse_rejects_overlong_resref() {
    let input = GffStruct {
        st_type: 0,
        fields: vec![(
            String::from("field1"),
            GffFieldValue::CResRef(String::from("test")),
        )],
    };
    let mut packer = Packer::new(Encodings::NeverwinterNights);
    let mut bytes = packer.pack(&input).unwrap();
    // the resource reference's one-byte length prefix opens the
    // field-data block; a length beyond 16 is refused on parse as well
    assert_eq!(bytes[96], 4);
    bytes[96] = 20;
    let r = GffParser::parse(bytes, Encodings::NeverwinterNights);
    assert_eq!(r, Err(GffError::ResRefTooLong));
}
