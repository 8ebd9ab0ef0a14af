use rsdiff::check_image_headers;
use rsdiff::finish_image;
use rsdiff::render::fmt_i16;
use rsdiff::render::fmt_percent_hundredths;
use rsdiff::render::fmt_percent_tenths;
use rsdiff::render::fmt_u128;
use rsdiff::render::fmt_usize;
use rsdiff::render::join_names;
use rsdiff::total_elements;
use rsdiff::ElementType;
use rsdiff::ImageCheck;
use rsdiff::Similarity;

#[test]
fn type_codes_map_to_element_types() {
    assert_eq!(ElementType::from_code(4), Some(ElementType::Int16));
    assert_eq!(ElementType::from_code(8), Some(ElementType::Int32));
    assert_eq!(ElementType::from_code(16), Some(ElementType::Float32));
    assert_eq!(ElementType::from_code(64), Some(ElementType::Float64));
    assert_eq!(ElementType::from_code(512), Some(ElementType::Uint16));
    assert_eq!(ElementType::from_code(768), Some(ElementType::Uint32));
    assert_eq!(ElementType::from_code(1024), Some(ElementType::Int64));
    assert_eq!(ElementType::from_code(1280), Some(ElementType::Uint64));
    assert_eq!(ElementType::from_code(2), None);
    assert_eq!(ElementType::from_code(-4), None);
}

#[test]
fn element_widths_and_float_flags() {
    assert_eq!(ElementType::Int16.width(), 2);
    assert_eq!(ElementType::Uint16.width(), 2);
    assert_eq!(ElementType::Int32.width(), 4);
    assert_eq!(ElementType::Uint32.width(), 4);
    assert_eq!(ElementType::Float32.width(), 4);
    assert_eq!(ElementType::Float64.width(), 8);
    assert_eq!(ElementType::Int64.width(), 8);
    assert_eq!(ElementType::Uint64.width(), 8);
    assert!(ElementType::Float32.is_float());
    assert!(ElementType::Float64.is_float());
    assert!(!ElementType::Int16.is_float());
    assert!(!ElementType::Uint64.is_float());
}

#[test]
fn image_type_mismatch_short_circuits() {
    let dims = vec![3u16, 2, 3, 4, 1, 1, 1, 1];
    match check_image_headers("x.nii", "y.nii", &dims, &dims.clone(), 4, 8) {
        ImageCheck::Mismatch(d) => {
            assert!(!d.matches);
            assert_eq!(d.additional_info, "Shapes match, types diverge (4 vs 8)");
            assert_eq!(d.report, "x.nii vs y.nii: Shapes match, types diverge (4 vs 8)");
            assert_eq!(d.similarity, None);
        },
        _ => panic!("expected a type mismatch"),
    }
}

#[test]
fn image_shape_mismatch_short_circuits() {
    let left = vec![2u16, 3];
    let right = vec![2u16, 4];
    match check_image_headers("x.nii", "y.nii", &left, &right, 4, 4) {
        ImageCheck::Mismatch(d) => {
            assert!(!d.matches);
            assert_eq!(d.additional_info, "Shapes diverge: [2, 3] vs [2, 4]");
            assert_eq!(d.report, "x.nii vs y.nii: Shapes diverge: [2, 3] vs [2, 4]");
        },
        _ => panic!("expected a shape mismatch"),
    }
}

#[test]
fn image_compatible_headers_pick_the_type() {
    let dims = vec![3u16, 2, 3, 4, 1, 1, 1, 1];
    match check_image_headers("x.nii", "y.nii", &dims, &dims.clone(), 16, 16) {
        ImageCheck::Compatible(t) => assert_eq!(t, ElementType::Float32),
        _ => panic!("expected compatible headers"),
    }
}

#[test]
fn image_unsupported_code_is_a_failure_not_a_mismatch() {
    let dims = vec![2u16, 5];
    match check_image_headers("x.nii", "y.nii", &dims, &dims.clone(), 2, 2) {
        ImageCheck::Unsupported(code) => assert_eq!(code, 2),
        _ => panic!("expected an unsupported type code"),
    }
}

#[test]
fn total_elements_treats_zero_as_one() {
    assert_eq!(total_elements(&vec![3, 2, 3, 4, 0, 0, 0, 0]), Some(72));
    assert_eq!(total_elements(&vec![0, 0]), Some(1));
    assert_eq!(total_elements(&vec![]), Some(1));
}

#[test]
fn total_elements_detects_overflow() {
    assert_eq!(total_elements(&vec![65535u16; 5]), None);
}

#[test]
fn finish_image_full_match() {
    let d = finish_image("x.nii", "y.nii", 72, 72);
    assert!(d.matches);
    assert_eq!(d.similarity, Some(Similarity { matched: 72, total: 72 }));
    assert_eq!(d.report, "");
    assert_eq!(d.additional_info, "");
}

#[test]
fn finish_image_partial_match() {
    let d = finish_image("x.nii", "y.nii", 71, 72);
    assert!(!d.matches);
    assert_eq!(d.similarity, Some(Similarity { matched: 71, total: 72 }));
    assert_eq!(d.additional_info, "Voxels diverge: 71 of 72 match (98.61%)");
    assert_eq!(d.report, "x.nii vs y.nii: Voxels diverge: 71 of 72 match (98.61%)");
}

#[test]
fn decimal_rendering() {
    assert_eq!(fmt_usize(0), "0");
    assert_eq!(fmt_usize(7), "7");
    assert_eq!(fmt_usize(1234567890), "1234567890");
    assert_eq!(fmt_u128(340282366920938463463374607431768211455), "340282366920938463463374607431768211455");
    assert_eq!(fmt_i16(-5), "-5");
    assert_eq!(fmt_i16(-32768), "-32768");
    assert_eq!(fmt_i16(512), "512");
}

#[test]
fn percentage_rendering() {
    assert_eq!(fmt_percent_tenths(2, 4), "50.0");
    assert_eq!(fmt_percent_tenths(1, 3), "33.3");
    assert_eq!(fmt_percent_tenths(2, 3), "66.7");
    assert_eq!(fmt_percent_tenths(0, 5), "0.0");
    assert_eq!(fmt_percent_tenths(5, 5), "100.0");
    assert_eq!(fmt_percent_hundredths(1, 3), "33.33");
    assert_eq!(fmt_percent_hundredths(71, 72), "98.61");
    assert_eq!(fmt_percent_hundredths(1, 200), "0.50");
}

#[test]
fn name_joining() {
    assert_eq!(join_names(&Vec::<String>::new()), "");
    assert_eq!(join_names(&vec!["a".to_string()]), "a");
    assert_eq!(join_names(&vec!["a".to_string(), "b".to_string(), "c".to_string()]), "a, b, c");
}
