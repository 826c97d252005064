//! Contexts as bytes: words at offsets and named fields.

use reed::error::ReedError;
use reed::qfunction_context::{
    QFunctionContext, QFunctionContextField, QFunctionContextFieldKind,
};

fn field(name: &str, offset: usize, kind: QFunctionContextFieldKind) -> QFunctionContextField {
    QFunctionContextField {
        name: name.into(),
        offset,
        kind,
    }
}

#[test]
fn f64_roundtrip() {
    let mut c = QFunctionContext::new(16);
    assert!(!c.host_needs_device_upload());
    c.write_f64_bits_le(0, 3.25_f64.to_bits()).unwrap();
    c.write_f64_bits_le(8, (-1.0_f64).to_bits()).unwrap();
    assert!((f64::from_bits(c.read_f64_bits_le(0).unwrap()) - 3.25).abs() < 1e-15);
    assert!((f64::from_bits(c.read_f64_bits_le(8).unwrap()) + 1.0).abs() < 1e-15);
    assert!(c.host_needs_device_upload());
    c.mark_host_synced_to_device();
    assert!(!c.host_needs_device_upload());
}

#[test]
fn f32_i32_roundtrip() {
    let mut c = QFunctionContext::new(12);
    c.write_f32_bits_le(0, 1.25_f32.to_bits()).unwrap();
    c.write_i32_le(4, -7).unwrap();
    c.write_i32_le(8, 0x1234_5678_u32 as i32).unwrap();
    assert!((f32::from_bits(c.read_f32_bits_le(0).unwrap()) - 1.25).abs() < 1e-6);
    assert_eq!(c.read_i32_le(4).unwrap(), -7);
    assert_eq!(c.read_i32_le(8).unwrap(), 0x1234_5678_u32 as i32);
}

#[test]
fn read_write_bytes_helpers_match() {
    let mut raw = [0u8; 16];
    QFunctionContext::write_f64_bits_le_bytes(&mut raw, 0, (-1.5_f64).to_bits()).unwrap();
    QFunctionContext::write_f32_bits_le_bytes(&mut raw, 8, 2.0_f32.to_bits()).unwrap();
    let a = f64::from_bits(QFunctionContext::read_f64_bits_le_bytes(&raw, 0).unwrap());
    let b = f32::from_bits(QFunctionContext::read_f32_bits_le_bytes(&raw, 8).unwrap());
    assert!((a + 1.5).abs() < 1e-15);
    assert!((b - 2.0).abs() < 1e-6);
    QFunctionContext::write_i32_le_bytes(&mut raw, 12, 99).unwrap();
    assert_eq!(QFunctionContext::read_i32_le_bytes(&raw, 12).unwrap(), 99);
}

#[test]
fn field_layout_named_access() {
    let mut c = QFunctionContext::from_field_layout(vec![
        field("alpha", 0, QFunctionContextFieldKind::F64),
        field("flag", 8, QFunctionContextFieldKind::I32),
    ])
    .unwrap();
    c.write_field_f64_bits("alpha", 2.5_f64.to_bits()).unwrap();
    c.write_field_i32("flag", 42).unwrap();
    let alpha = f64::from_bits(c.read_field_f64_bits("alpha").unwrap());
    assert!((alpha - 2.5).abs() < 1e-15);
    assert_eq!(c.read_field_i32("flag").unwrap(), 42);
    assert!(c.host_needs_device_upload());
    c.mark_host_synced_to_device();
    assert!(!c.host_needs_device_upload());
}

#[test]
fn words_are_little_endian() {
    let mut c = QFunctionContext::new(8);
    c.write_i32_le(0, 0x0102_0304).unwrap();
    assert_eq!(c.as_bytes(), &[4, 3, 2, 1, 0, 0, 0, 0]);
    c.write_f64_bits_le(0, 1.0_f64.to_bits()).unwrap();
    assert_eq!(c.as_bytes(), &1.0_f64.to_le_bytes());
}

#[test]
fn a_write_leaves_other_words_alone() {
    let mut c = QFunctionContext::from_bytes((0u8..16).collect());
    c.write_i32_le(4, -1).unwrap();
    let mut expected: Vec<u8> = (0u8..16).collect();
    expected[4..8].fill(0xff);
    assert_eq!(c.as_bytes(), &expected[..]);
}

#[test]
fn a_word_past_the_end_is_refused() {
    let mut c = QFunctionContext::new(8);
    assert!(c.read_f64_bits_le(0).is_ok());
    assert!(matches!(c.read_f64_bits_le(1), Err(ReedError::QFunction(_))));
    assert!(matches!(c.write_i32_le(5, 1), Err(ReedError::QFunction(_))));
    assert_eq!(c.as_bytes(), &[0u8; 8]);
    assert!(c.host_needs_device_upload());
}

#[test]
fn a_duplicate_name_is_quoted_in_the_message() {
    let err = QFunctionContext::from_field_layout(vec![
        field("a\"b", 0, QFunctionContextFieldKind::I32),
        field("a\"b", 8, QFunctionContextFieldKind::I32),
    ])
    .unwrap_err();
    assert!(matches!(err, ReedError::QFunction(_)));
    assert!(err.message().contains(r#""a\"b""#), "{}", err.message());
}

#[test]
fn an_unknown_or_mistyped_field_is_refused() {
    let mut c =
        QFunctionContext::from_field_layout(vec![field("x", 0, QFunctionContextFieldKind::F32)])
            .unwrap();
    assert_eq!(c.byte_len(), 4);
    assert!(matches!(c.read_field_i32("y"), Err(ReedError::QFunction(_))));
    assert!(matches!(c.read_field_i32("x"), Err(ReedError::QFunction(_))));
    assert!(matches!(c.write_field_f64_bits("x", 0), Err(ReedError::QFunction(_))));
    c.write_field_f32_bits("x", 7).unwrap();
    assert_eq!(c.read_field_f32_bits("x").unwrap(), 7);
}

#[test]
fn a_layout_longer_than_its_context_is_refused() {
    let fields = vec![field("x", 4, QFunctionContextFieldKind::F64)];
    assert!(QFunctionContext::from_field_layout_with_len(12, fields).is_ok());
    let fields = vec![field("x", 4, QFunctionContextFieldKind::F64)];
    assert!(QFunctionContext::from_field_layout_with_len(11, fields).is_err());
}

#[test]
fn the_gallery_scale_layout_holds_one_number() {
    let fields = QFunctionContext::gallery_scale_fields();
    assert_eq!(fields.len(), 1);
    assert_eq!(fields[0].offset, 0);
    assert_eq!(fields[0].kind.size_bytes(), 8);
    let c = QFunctionContext::from_field_layout(fields).unwrap();
    assert_eq!(c.registered_fields().map(|f| f.len()), Some(1));
    assert!(QFunctionContext::new(8).registered_fields().is_none());
}

#[test]
fn an_upload_is_needed_after_the_last_change() {
    let mut c = QFunctionContext::new(8);
    assert!(!c.host_needs_device_upload());
    c.write_i32_le(0, 7).unwrap();
    assert_eq!(c.read_i32_le(0).unwrap(), 7);
    assert!(c.host_needs_device_upload());
    c.mark_host_synced_to_device();
    assert!(c.read_i32_le(6).is_err());
    assert!(!c.host_needs_device_upload());
    // a named write without fields changes nothing
    assert!(c.write_field_i32("a", 1).is_err());
    assert!(!c.host_needs_device_upload());
    c.as_mut_bytes()[3] = 1;
    assert!(c.host_needs_device_upload());
    c.mark_host_synced_to_device();
    c.note_host_modified();
    assert!(c.host_needs_device_upload());
    c.mark_host_synced_to_device();
    c.mark_device_dirty();
    assert!(c.host_needs_device_upload());
    let mut d = QFunctionContext::from_bytes(vec![0; 4]);
    assert!(d.host_needs_device_upload());
    d.mark_host_synced_to_device();
    assert!(!d.host_needs_device_upload());
}
