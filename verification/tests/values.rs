//! The values of fields.
use blam_tags::bytes::{push_le, read_be, read_le};
use blam_tags::convert::answers::EngineAnswers;
use blam_tags::convert::functions::retarget_function_bytes;
use blam_tags::convert::leaves::{RealUnitChange, real_scalar_unit_change};
use blam_tags::convert::matching::is_reportable_target_default;
use blam_tags::convert::schema::field_unit_annotation;
use blam_tags::fields::{
    TagFieldData, TagFieldType, TagReferenceData, compatible_field_shapes, default_field_value,
    integer_field_value, integer_value, reinterpret_same_width_integer, value_is_meaningful,
};
use blam_tags::single::{degrees_of, is_finite_real, radians_of};

#[test]
fn default_values_are_not_reported_as_meaningful() {
    assert!(!value_is_meaningful(&TagFieldData::Real(0.0f32.to_bits())));
    assert!(!value_is_meaningful(&TagFieldData::TagReference(TagReferenceData {
        group_tag_and_name: None,
    })));
    assert!(!value_is_meaningful(&TagFieldData::Data(Vec::new())));
}

#[test]
fn integer_conversion_rejects_overflow() {
    assert!(integer_field_value(TagFieldType::ByteInteger, 256).is_none());
    assert!(integer_field_value(TagFieldType::CharInteger, -129).is_none());
    assert!(matches!(
        integer_field_value(TagFieldType::WordInteger, 65_535),
        Some(TagFieldData::WordInteger(65_535))
    ));
}

#[test]
fn target_default_count_excludes_layout_and_runtime_storage() {
    assert!(!is_reportable_target_default(TagFieldType::Custom));
    assert!(!is_reportable_target_default(TagFieldType::Pad));
    assert!(!is_reportable_target_default(TagFieldType::PageableResource));
    assert!(is_reportable_target_default(TagFieldType::Real));
    assert!(is_reportable_target_default(TagFieldType::Block));
}

#[test]
fn a_signedness_rename_carries_the_bits() {
    assert_eq!(reinterpret_same_width_integer(TagFieldType::CharInteger, TagFieldType::ByteInteger, -1), 255);
    assert_eq!(reinterpret_same_width_integer(TagFieldType::ByteInteger, TagFieldType::CharInteger, 255), -1);
    assert_eq!(reinterpret_same_width_integer(TagFieldType::CharInteger, TagFieldType::ByteInteger, 7), 7);
    assert_eq!(reinterpret_same_width_integer(TagFieldType::ShortInteger, TagFieldType::WordInteger, -1), 65535);
    assert_eq!(reinterpret_same_width_integer(TagFieldType::LongInteger, TagFieldType::DwordInteger, -1), 4294967295);
    assert_eq!(reinterpret_same_width_integer(TagFieldType::DwordInteger, TagFieldType::LongInteger, 4294967295), -1);
    assert_eq!(reinterpret_same_width_integer(TagFieldType::CharInteger, TagFieldType::CharInteger, -1), -1);
    assert_eq!(reinterpret_same_width_integer(TagFieldType::LongInteger, TagFieldType::ByteInteger, -1), -1);
    assert_eq!(reinterpret_same_width_integer(TagFieldType::CharInteger, TagFieldType::LongInteger, -1), -1);
}

#[test]
fn an_angle_that_becomes_a_real_is_rescaled_only_when_the_schema_proves_it() {
    let deg = Some("degrees");
    assert_eq!(
        real_scalar_unit_change(TagFieldType::Angle, deg, TagFieldType::Real, deg),
        RealUnitChange::RadiansToDegrees
    );
    assert_eq!(
        real_scalar_unit_change(TagFieldType::Real, deg, TagFieldType::Angle, deg),
        RealUnitChange::DegreesToRadians
    );
    assert_eq!(real_scalar_unit_change(TagFieldType::Real, None, TagFieldType::Angle, None), RealUnitChange::Copy);
    assert_eq!(real_scalar_unit_change(TagFieldType::Angle, deg, TagFieldType::Real, None), RealUnitChange::Copy);
    assert_eq!(
        real_scalar_unit_change(TagFieldType::Angle, deg, TagFieldType::Real, Some("world units")),
        RealUnitChange::Copy
    );
    assert_eq!(real_scalar_unit_change(TagFieldType::Real, None, TagFieldType::RealFraction, None), RealUnitChange::Copy);
    assert_eq!(real_scalar_unit_change(TagFieldType::Angle, deg, TagFieldType::Angle, None), RealUnitChange::Copy);
    assert_eq!(field_unit_annotation("grenade angle:degrees"), Some("degrees".to_owned()));
    assert_eq!(field_unit_annotation("delay:secs#how long to wait"), Some("secs".to_owned()));
    assert_eq!(field_unit_annotation("ratio#a:b comparison"), None);
    assert_eq!(field_unit_annotation("plain name"), None);
    assert_eq!(field_unit_annotation("grenade angle"), None);
}

#[test]
fn a_legacy_function_curve_gains_the_compact_size_word_and_nothing_else() {
    let mut legacy = vec![0u8; 28];
    legacy[0] = 1;
    legacy[1] = 1;
    legacy[4..8].copy_from_slice(&60.1f32.to_le_bytes());
    legacy[20..24].copy_from_slice(&1.0f32.to_le_bytes());
    legacy[24..28].copy_from_slice(&1.0f32.to_le_bytes());
    let modern = retarget_function_bytes(&legacy, false, true).expect("28 bytes promotes");
    assert_eq!(modern.len(), 32);
    assert_eq!(&modern[..28], &legacy[..]);
    assert_eq!(u32::from_le_bytes(modern[28..32].try_into().unwrap()), 0);
    let answers = EngineAnswers { curves: vec![modern.clone()], ..EngineAnswers::default() };
    assert!(answers.curve_decodes(&modern));
    assert!(!answers.curve_decodes(&legacy));
    assert_eq!(
        retarget_function_bytes(&modern, true, false).expect("32 bytes demotes"),
        legacy
    );
    let mut with_compact = legacy.clone();
    with_compact.extend_from_slice(&[7u8; 8]);
    let promoted = retarget_function_bytes(&with_compact, false, true).expect("promotes");
    assert_eq!(promoted.len(), 40);
    assert_eq!(u32::from_le_bytes(promoted[28..32].try_into().unwrap()), 8);
    assert_eq!(&promoted[32..], &[7u8; 8]);
    assert!(retarget_function_bytes(&vec![0u8; 20], false, true).is_none());
}

#[test]
fn a_default_is_the_default_of_its_type() {
    let set = TagFieldData::LongInteger(9);
    let zero = default_field_value(&set);
    assert!(matches!(zero, TagFieldData::LongInteger(0)));
    assert!(!value_is_meaningful(&zero));
    assert!(value_is_meaningful(&set));
    assert!(matches!(
        default_field_value(&TagFieldData::ShortBlockIndex(4)),
        TagFieldData::ShortBlockIndex(-1)
    ));
    assert!(value_is_meaningful(&TagFieldData::ShortBlockIndex(-1)));
    assert!(!value_is_meaningful(&TagFieldData::ShortBlockIndex(0)));
}

#[test]
fn integers_read_back_at_their_width() {
    for (t, n) in [
        (TagFieldType::CharInteger, -128),
        (TagFieldType::ByteInteger, 255),
        (TagFieldType::ShortInteger, -32768),
        (TagFieldType::QwordInteger, 18446744073709551615i128),
        (TagFieldType::LongBlockIndex, -1),
    ] {
        let value = integer_field_value(t, n).expect("it fits");
        assert_eq!(integer_value(&value), Some(n));
    }
    assert!(integer_field_value(TagFieldType::Real, 1).is_none());
}

#[test]
fn shapes_are_compatible_with_themselves() {
    assert!(compatible_field_shapes(TagFieldType::Real, TagFieldType::Angle));
    assert!(compatible_field_shapes(TagFieldType::CharInteger, TagFieldType::DwordInteger));
    assert!(!compatible_field_shapes(TagFieldType::Real, TagFieldType::TagReference));
    assert!(compatible_field_shapes(TagFieldType::Block, TagFieldType::Block));
}

#[test]
fn angles_are_rescaled_as_the_machine_would() {
    for value in [0.0f32, 1.0, -1.0, 3.1415927, 0.24993114, 1.0e-30, 1.0e30, -123.456, 5.0e-45] {
        let degrees = degrees_of(value.to_bits());
        let radians = radians_of(value.to_bits());
        assert_eq!(f32::from_bits(degrees), value.to_degrees(), "{value} in degrees");
        assert_eq!(f32::from_bits(radians), value.to_radians(), "{value} in radians");
    }
}

#[test]
fn only_finite_reals_are_finite() {
    assert!(is_finite_real(1.5f32.to_bits()));
    assert!(!is_finite_real(f32::NAN.to_bits()));
    assert!(!is_finite_real(f32::INFINITY.to_bits()));
    assert!(!is_finite_real(f32::NEG_INFINITY.to_bits()));
    assert!(is_finite_real((-0.0f32).to_bits()));
}

#[test]
fn numbers_and_their_bytes() {
    let mut out = vec![9u8];
    push_le(&mut out, 0x0403_0201);
    assert_eq!(out, vec![9, 1, 2, 3, 4]);
    assert_eq!(read_le(&out, 1), 0x0403_0201);
    assert_eq!(read_be(&out, 1), 0x0102_0304);
}
