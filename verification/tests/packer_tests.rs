use gff::common::{Encodings, GffGender, GffLang};
use gff::packer::Packer;
use gff::value::{GffFieldValue, GffStruct};

fn assert_struct_count(packer: &Packer, st_count: usize) {
    assert_eq!(packer.data.header.structs.1, st_count as u32);
    // 3 DWORDS per struct
    assert_eq!(packer.data.structs.len(), st_count * 12);
}

fn assert_field_count(packer: &Packer, f_count: usize) {
    assert_eq!(packer.data.header.fields.1, f_count as u32);
    // 3 DWORDS per field
    assert_eq!(packer.data.fields.len(), f_count * 12);
}

fn assert_field_indice_count(packer: &Packer, fi_count: usize) {
    assert_eq!(packer.data.header.field_indices.1, fi_count as u32 * 4);
    // 1 DWORD per field
    assert_eq!(packer.data.field_indices.len(), fi_count * 4);
}

fn assert_label_count(packer: &Packer, l_count: usize) {
    assert_eq!(packer.data.header.labels.1, l_count as u32);
    // 16 bytes per label
    assert_eq!(packer.data.labels.len(), l_count * 16);
}

fn assert_field_data_count(packer: &Packer, fd_count: usize) {
    assert_eq!(packer.data.header.field_data.1, fd_count as u32);
    assert_eq!(packer.data.field_data.len(), fd_count);
}

fn assert_list_count(packer: &Packer, bytes: usize) {
    assert_eq!(packer.data.header.list_indices.1, bytes as u32);
    assert_eq!(packer.data.list_indices.len(), bytes);
}

#[test]
fn test_01_pack_1_simple_field() {
    let input = GffStruct {
        st_type: 0xFFFFFFFF,
        fields: vec![(String::from("field1"), GffFieldValue::Byte(1))],
    };
    let mut packer = Packer::new(Encodings::NeverwinterNights);
    packer.pack(&input).unwrap();

    assert_struct_count(&packer, 1);
    assert_field_count(&packer, 1);
    assert_field_indice_count(&packer, 0);
    assert_label_count(&packer, 1);
}

#[test]
fn test_02_pack_2_simple_fields() {
    let input = GffStruct {
        st_type: 0xFFFFFFFF,
        fields: vec![
            (String::from("field1"), GffFieldValue::Byte(1)),
            (String::from("field2"), GffFieldValue::Byte(2)),
        ],
    };
    let mut packer = Packer::new(Encodings::NeverwinterNights);
    packer.pack(&input).unwrap();
    /* header indicates 1 struct stored */
    assert_struct_count(&packer, 1);
    assert_field_count(&packer, 2);
    assert_field_indice_count(&packer, 2);
    assert_label_count(&packer, 2);
}

#[test]
fn test_03_pack_all_simple_fields() {
    let input = GffStruct {
        st_type: 0xFFFFFFFF,
        fields: vec![
            (String::from("field1"), GffFieldValue::Byte(1)),
            (String::from("field2"), GffFieldValue::Char(2)),
            (String::from("field3"), GffFieldValue::Word(3)),
            (String::from("field4"), GffFieldValue::Short(4)),
            (String::from("field5"), GffFieldValue::DWord(5)),
            (String::from("field6"), GffFieldValue::Int(6)),
            (String::from("field7"), GffFieldValue::Float((7.7f32).to_bits())),
        ],
    };
    let mut packer = Packer::new(Encodings::NeverwinterNights);
    packer.pack(&input).unwrap();
    /* header indicates 1 struct stored */
    assert_struct_count(&packer, 1);
    assert_field_count(&packer, 7);
    assert_field_indice_count(&packer, 7);
    assert_label_count(&packer, 7);
    assert_field_data_count(&packer, 0);
}

#[test]
fn test_04_pack_all_8_byte_fields() {
    let input = GffStruct {
        st_type: 0xFFFFFFFF,
        fields: vec![
            (String::from("field1"), GffFieldValue::DWord64(1)),
            (String::from("field2"), GffFieldValue::Int64(2)),
            (String::from("field3"), GffFieldValue::Double((3.3f64).to_bits())),
        ],
    };
    let mut packer = Packer::new(Encodings::NeverwinterNights);
    packer.pack(&input).unwrap();
    /* header indicates 1 struct stored */
    assert_struct_count(&packer, 1);
    assert_field_count(&packer, 3);
    assert_field_indice_count(&packer, 3);
    assert_label_count(&packer, 3);
    assert_field_data_count(&packer, 8 * 3);
}

#[test]
fn test_05_pack_simple_string() {
    let input = GffStruct {
        st_type: 0xFFFFFFFF,
        fields: vec![
            (String::from("field1"), GffFieldValue::CExoString(String::from("test"))),
        ],
    };
    let mut packer = Packer::new(Encodings::NeverwinterNights);
    packer.pack(&input).unwrap();

    assert_struct_count(&packer, 1);
    assert_field_count(&packer, 1);
    assert_field_indice_count(&packer, 0);
    assert_label_count(&packer, 1);
    assert_field_data_count(&packer, 4 + 4);
    assert_eq!(
        packer.data.field_data,
        vec![4u8, 0, 0, 0, 't' as u8, 'e' as u8, 's' as u8, 't' as u8]
    );
}

#[test]
fn test_06_pack_resref() {
    let input = GffStruct {
        st_type: 0xFFFFFFFF,
        fields: vec![
            (String::from("field1"), GffFieldValue::CResRef(String::from("TeSt"))),
        ],
    };
    let mut packer = Packer::new(Encodings::NeverwinterNights);
    packer.pack(&input).unwrap();

    assert_struct_count(&packer, 1);
    assert_field_count(&packer, 1);
    assert_field_indice_count(&packer, 0);
    assert_label_count(&packer, 1);
    assert_field_data_count(&packer, 1 + 4);
    assert_eq!(
        packer.data.field_data,
        vec![4u8, 't' as u8, 'e' as u8, 's' as u8, 't' as u8]
    );
}

#[test]
fn test_07_pack_locstr() {
    let langs = vec![
        ((GffLang::English, GffGender::Male), String::from("Hello")),
        ((GffLang::French, GffGender::Male), String::from("Salut")),
    ];
    let input = GffStruct {
        st_type: 0xFFFFFFFF,
        fields: vec![
            (String::from("field1"), GffFieldValue::CExoLocString(0x1234, langs)),
        ],
    };
    let mut packer = Packer::new(Encodings::NeverwinterNights);
    packer.pack(&input).unwrap();

    assert_struct_count(&packer, 1);
    assert_field_count(&packer, 1);
    assert_field_indice_count(&packer, 0);
    assert_label_count(&packer, 1);
    assert_field_data_count(&packer, 12 + (8 + 5) + (8 + 5));
}

#[test]
fn test_08_pack_void() {
    let input = GffStruct {
        st_type: 0xFFFFFFFF,
        fields: vec![
            (String::from("field1"), GffFieldValue::Void(b"test".to_vec())),
        ],
    };
    let mut packer = Packer::new(Encodings::NeverwinterNights);
    packer.pack(&input).unwrap();

    assert_struct_count(&packer, 1);
    assert_field_count(&packer, 1);
    assert_field_indice_count(&packer, 0);
    assert_label_count(&packer, 1);
    assert_field_data_count(&packer, 4 + 4);
    assert_eq!(
        packer.data.field_data,
        vec![0x04, 0x00, 0x00, 0x00, 't' as u8, 'e' as u8, 's' as u8, 't' as u8]
    );
}

#[test]
fn test_09_pack_sub_struct() {
    let input = GffStruct {
        st_type: 0x55555555,
        fields: vec![(String::from("subfield1"), GffFieldValue::Byte(1))],
    };
    let input = GffStruct {
        st_type: 0xFFFFFFFF,
        fields: vec![(String::from("field1"), GffFieldValue::Struct(input))],
    };
    let mut packer = Packer::new(Encodings::NeverwinterNights);
    packer.pack(&input).unwrap();

    assert_struct_count(&packer, 2);
    assert_field_count(&packer, 2);
    assert_field_indice_count(&packer, 0);
    assert_label_count(&packer, 2);
    assert_field_data_count(&packer, 0);
}

#[test]
fn test_10_pack_list() {
    let sub1 = GffStruct {
        st_type: 0x55555555,
        fields: vec![(String::from("subfield1"), GffFieldValue::Byte(1))],
    };
    let sub2 = GffStruct {
        st_type: 0xAAAAAAAA,
        fields: vec![(String::from("subfield2"), GffFieldValue::Byte(2))],
    };
    let input = GffStruct {
        st_type: 0xFFFFFFFF,
        fields: vec![
            (String::from("field1"), GffFieldValue::List(vec![sub1, sub2])),
        ],
    };
    let mut packer = Packer::new(Encodings::NeverwinterNights);
    packer.pack(&input).unwrap();

    assert_struct_count(&packer, 3);
    assert_field_count(&packer, 3);
    assert_field_indice_count(&packer, 0);
    assert_label_count(&packer, 3);
    assert_field_data_count(&packer, 0);
    assert_list_count(&packer, 4 * 3); // 1 u32 for size, 2 for structs
}

#[test]
fn test_list_assigns_indices_in_discovery_order() {
    // root, then the two list members: indices 0, 1 and 2; the list block
    // holds the member count followed by the two indices
    let sub1 = GffStruct {
        st_type: 1,
        fields: vec![(String::from("a"), GffFieldValue::Byte(1))],
    };
    let sub2 = GffStruct {
        st_type: 2,
        fields: vec![(String::from("b"), GffFieldValue::Byte(2))],
    };
    let input = GffStruct {
        st_type: 0xFFFFFFFF,
        fields: vec![(String::from("list"), GffFieldValue::List(vec![sub1, sub2]))],
    };
    let mut packer = Packer::new(Encodings::NeverwinterNights);
    packer.pack(&input).unwrap();
    assert_eq!(
        packer.data.list_indices,
        vec![2u8, 0, 0, 0, 1, 0, 0, 0, 2, 0, 0, 0]
    );
}

#[test]
fn test_label_too_long_is_refused() {
    let input = GffStruct {
        st_type: 0,
        fields: vec![
            (String::from("seventeen_letters"), GffFieldValue::Byte(1)),
        ],
    };
    let mut packer = Packer::new(Encodings::NeverwinterNights);
    assert_eq!(packer.pack(&input), Err(gff::common::GffError::LabelTooLong));
}

#[test]
fn test_resref_too_long_is_refused() {
    let input = GffStruct {
        st_type: 0,
        fields: vec![
            (
                String::from("field1"),
                GffFieldValue::CResRef(String::from("seventeen.letters")),
            ),
        ],
    };
    let mut packer = Packer::new(Encodings::NeverwinterNights);
    assert_eq!(packer.pack(&input), Err(gff::common::GffError::ResRefTooLong));
}

#[test]
fn test_invalid_value_is_refused() {
    let input = GffStruct {
        st_type: 0,
        fields: vec![(String::from("field1"), GffFieldValue::Invalid)],
    };
    let mut packer = Packer::new(Encodings::NeverwinterNights);
    assert_eq!(packer.pack(&input), Err(gff::common::GffError::BadFieldType(16)));
}

#[test]
fn test_non_ascii_string_uses_codepage_bytes() {
    // the codepage encoder must rewrite the UTF-8 bytes: an e-acute is two
    // bytes in the source string but one byte on the wire
    let mut s = String::from("caf");
    s.push('\u{e9}');
    let input = GffStruct {
        st_type: 0,
        fields: vec![(String::from("field1"), GffFieldValue::CExoString(s))],
    };
    let mut packer = Packer::new(Encodings::NeverwinterNights);
    packer.pack(&input).unwrap();
    assert_eq!(
        packer.data.field_data,
        vec![4u8, 0, 0, 0, b'c', b'a', b'f', 0xE9]
    );
}

#[test]
fn test_pack_checked_accepts_small_tree() {
    let input = GffStruct {
        st_type: 0,
        fields: vec![(String::from("field1"), GffFieldValue::Byte(7))],
    };
    let mut packer = Packer::new(Encodings::NeverwinterNights);
    let direct = Packer::new(Encodings::NeverwinterNights)
        .pack(&GffStruct { st_type: 0, fields: vec![(String::from("field1"), GffFieldValue::Byte(7))] });
    let checked = packer.pack_checked(&input).unwrap();
    assert_eq!(checked, direct);
}

#[test]
fn test_pack_label_interns_each_label_once() {
    let mut packer = Packer::new(Encodings::NeverwinterNights);
    let a = packer.pack_label(&String::from("alpha")).unwrap();
    let b = packer.pack_label(&String::from("beta")).unwrap();
    let a2 = packer.pack_label(&String::from("alpha")).unwrap();
    assert_eq!(a, 0);
    assert_eq!(b, 1);
    assert_eq!(a2, 0);
    assert_eq!(packer.data.labels.len(), 32);
}
