use tensor_template::buffer::{ElementKind, TypedBuffer, Values};
use tensor_template::context::BindingContext;
use tensor_template::flatten::{flatten, FlattenError};
use tensor_template::shape::{capped_element_count, Dimension, CEILING};

fn keys(context: &BindingContext) -> Vec<String> {
    context.bindings.iter().map(|b| b.key.clone()).collect()
}

#[test]
fn named_outer_axis_of_one_binds_the_whole_buffer() {
    let shape = vec![Dimension::named(1, "phasor"), Dimension::named(2, "data")];
    let buffer = TypedBuffer::F64(vec![1.0f64.to_bits(), 0.7854f64.to_bits()]);
    let context = flatten(&buffer, &shape).unwrap();
    assert_eq!(keys(&context), vec!["__phasor0__data".to_string()]);
    match context.get("__phasor0__data") {
        Some(Values::F64(bits)) => {
            let numbers: Vec<f64> = bits.iter().map(|b| f64::from_bits(*b)).collect();
            assert_eq!(numbers, vec![1.0, 0.7854]);
        }
        other => panic!("unexpected binding: {:?}", other),
    }
}

#[test]
fn outer_axis_of_two_over_a_full_buffer_leaves_the_buffer() {
    let shape = vec![Dimension::unnamed(2), Dimension::named(2, "data")];
    let buffer = TypedBuffer::I32(vec![1, 2, 3, 4]);
    assert_eq!(flatten(&buffer, &shape), Err(FlattenError::OutOfRange));
}

#[test]
fn outer_axis_longer_than_one_fits_only_an_empty_buffer() {
    let long = vec![Dimension::unnamed(1), Dimension::unnamed(2), Dimension::named(1, "d")];
    assert_eq!(flatten(&TypedBuffer::U8(vec![1, 2]), &long), Err(FlattenError::OutOfRange));
    let cube = vec![Dimension::unnamed(2), Dimension::unnamed(2), Dimension::unnamed(2)];
    assert_eq!(
        flatten(&TypedBuffer::U8(vec![1, 2, 3, 4, 5, 6, 7, 8]), &cube),
        Err(FlattenError::OutOfRange)
    );
    let empty = vec![Dimension::unnamed(2), Dimension::unnamed(0), Dimension::unnamed(2)];
    assert!(flatten(&TypedBuffer::U8(vec![]), &empty).unwrap().is_empty());
}

#[test]
fn encoded_media_gives_no_binding_and_no_error() {
    let shape = vec![Dimension::named(3, "x")];
    for buffer in [
        TypedBuffer::Jpeg(vec![1, 2, 3]),
        TypedBuffer::Nv12(vec![1, 2]),
        TypedBuffer::Yuy2(vec![]),
    ] {
        let context = flatten(&buffer, &shape).unwrap();
        assert!(context.is_empty());
        assert_eq!(context.len(), 0);
    }
}

#[test]
fn half_precision_comes_out_as_singles() {
    let halves = [half::f16::from_f32(1.0), half::f16::from_f32(2.5)];
    let widened: Vec<u32> = halves.iter().map(|h| h.to_f32().to_bits()).collect();
    let buffer = TypedBuffer::F16(widened);
    let shape = vec![Dimension::named(2, "x")];
    let context = flatten(&buffer, &shape).unwrap();
    assert_eq!(context.len(), 1);
    match context.get("__x") {
        Some(Values::F32(bits)) => {
            let numbers: Vec<f32> = bits.iter().map(|b| f32::from_bits(*b)).collect();
            assert!((numbers[0] - 1.0f32).abs() < 1e-6);
            assert!((numbers[1] - 2.5f32).abs() < 1e-6);
            assert_eq!(numbers.len(), 2);
        }
        other => panic!("unexpected binding: {:?}", other),
    }
}

#[test]
fn shape_that_spans_more_than_the_buffer_is_a_mismatch() {
    let shape = vec![Dimension::named(2, "a"), Dimension::named(3, "b")];
    let buffer = TypedBuffer::U16(vec![1, 2, 3, 4, 5]);
    assert_eq!(flatten(&buffer, &shape), Err(FlattenError::ShapeMismatch));
}

#[test]
fn shape_that_spans_less_than_the_buffer_is_a_mismatch() {
    let shape = vec![Dimension::named(2, "a")];
    let buffer = TypedBuffer::U16(vec![1, 2, 3]);
    assert_eq!(flatten(&buffer, &shape), Err(FlattenError::ShapeMismatch));
}

#[test]
fn shape_without_axes_spans_one_element() {
    let none: Vec<Dimension> = Vec::new();
    let one = flatten(&TypedBuffer::U8(vec![7]), &none).unwrap();
    assert!(one.is_empty());
    assert_eq!(flatten(&TypedBuffer::U8(vec![]), &none), Err(FlattenError::ShapeMismatch));
    assert_eq!(flatten(&TypedBuffer::U8(vec![7, 8]), &none), Err(FlattenError::ShapeMismatch));
}

#[test]
fn outer_axes_of_one_give_one_binding_as_long_as_the_innermost_axis() {
    let shape = vec![Dimension::named(1, "a"), Dimension::unnamed(1), Dimension::named(3, "c")];
    let buffer = TypedBuffer::I64(vec![-1, 0, 1]);
    let context = flatten(&buffer, &shape).unwrap();
    assert_eq!(keys(&context), vec!["__a0__0__c".to_string()]);
    assert_eq!(context.get("__a0__0__c"), Some(&Values::I64(vec![-1, 0, 1])));
    assert_eq!(context.bindings[0].values.len(), 3);
}

#[test]
fn empty_tensor_gives_an_empty_binding_for_each_path() {
    let shape = vec![Dimension::named(3, "a"), Dimension::named(2, "b"), Dimension::named(0, "c")];
    let buffer = TypedBuffer::U32(vec![]);
    let context = flatten(&buffer, &shape).unwrap();
    assert_eq!(
        keys(&context),
        vec![
            "__a0__b0__c".to_string(),
            "__a0__b1__c".to_string(),
            "__a1__b0__c".to_string(),
            "__a1__b1__c".to_string(),
            "__a2__b0__c".to_string(),
            "__a2__b1__c".to_string(),
        ]
    );
    for binding in &context.bindings {
        assert_eq!(binding.values, Values::U32(vec![]));
    }
}

#[test]
fn outer_axis_of_zero_gives_no_binding() {
    let shape = vec![Dimension::named(0, "a"), Dimension::named(5, "b")];
    let context = flatten(&TypedBuffer::U8(vec![]), &shape).unwrap();
    assert!(context.is_empty());
    let huge = vec![Dimension::unnamed(0), Dimension::unnamed(u64::MAX), Dimension::unnamed(u64::MAX)];
    assert!(flatten(&TypedBuffer::U8(vec![]), &huge).unwrap().is_empty());
}

#[test]
fn index_is_spelled_in_decimal_without_separator() {
    let shape = vec![Dimension::named(12, "row"), Dimension::unnamed(0)];
    let context = flatten(&TypedBuffer::I8(vec![]), &shape).unwrap();
    let found = keys(&context);
    assert_eq!(found.len(), 12);
    assert_eq!(found[0], "__row0__");
    assert_eq!(found[9], "__row9__");
    assert_eq!(found[10], "__row10__");
    assert_eq!(found[11], "__row11__");
}

#[test]
fn shape_too_large_to_count_is_a_mismatch() {
    let shape = vec![Dimension::unnamed(u64::MAX), Dimension::unnamed(u64::MAX)];
    assert_eq!(capped_element_count(&shape), CEILING);
    assert_eq!(flatten(&TypedBuffer::U8(vec![1]), &shape), Err(FlattenError::ShapeMismatch));
}

#[test]
fn element_count_is_the_product_of_the_sizes() {
    let shape = vec![Dimension::unnamed(2), Dimension::unnamed(3), Dimension::unnamed(7)];
    assert_eq!(capped_element_count(&shape), 42);
    assert_eq!(capped_element_count(&[]), 1);
    let zero = vec![Dimension::unnamed(u64::MAX), Dimension::unnamed(u64::MAX), Dimension::unnamed(0)];
    assert_eq!(capped_element_count(&zero), 0);
}

#[test]
fn flattening_twice_gives_the_same() {
    let shape = vec![Dimension::named(1, "a"), Dimension::named(4, "b")];
    let buffer = TypedBuffer::U64(vec![4, 3, 2, 1]);
    let once = flatten(&buffer, &shape);
    let again = flatten(&buffer, &shape);
    assert_eq!(once, again);
    assert_eq!(once.unwrap().get("__a0__b"), Some(&Values::U64(vec![4, 3, 2, 1])));
}

#[test]
fn every_kind_of_number_keeps_its_kind() {
    let shape = vec![Dimension::named(2, "v")];
    let cases = vec![
        (TypedBuffer::U8(vec![1, 2]), Values::U8(vec![1, 2]), ElementKind::U8),
        (TypedBuffer::U16(vec![1, 2]), Values::U16(vec![1, 2]), ElementKind::U16),
        (TypedBuffer::U32(vec![1, 2]), Values::U32(vec![1, 2]), ElementKind::U32),
        (TypedBuffer::U64(vec![1, 2]), Values::U64(vec![1, 2]), ElementKind::U64),
        (TypedBuffer::I8(vec![-1, 2]), Values::I8(vec![-1, 2]), ElementKind::I8),
        (TypedBuffer::I16(vec![-1, 2]), Values::I16(vec![-1, 2]), ElementKind::I16),
        (TypedBuffer::I32(vec![-1, 2]), Values::I32(vec![-1, 2]), ElementKind::I32),
        (TypedBuffer::I64(vec![-1, 2]), Values::I64(vec![-1, 2]), ElementKind::I64),
        (TypedBuffer::F16(vec![7, 8]), Values::F32(vec![7, 8]), ElementKind::F32),
        (TypedBuffer::F32(vec![7, 8]), Values::F32(vec![7, 8]), ElementKind::F32),
        (TypedBuffer::F64(vec![7, 8]), Values::F64(vec![7, 8]), ElementKind::F64),
    ];
    for (buffer, expected, kind) in cases {
        let context = flatten(&buffer, &shape).unwrap();
        assert_eq!(context.len(), 1);
        assert_eq!(context.get("__v"), Some(&expected));
        assert_eq!(context.bindings[0].values.kind(), kind);
    }
}

#[test]
fn slice_copies_the_range() {
    let buffer = TypedBuffer::I16(vec![5, 6, 7, 8]);
    assert_eq!(buffer.len(), 4);
    assert!(!buffer.encoded());
    assert_eq!(buffer.slice(1, 3), Values::I16(vec![6, 7]));
    assert_eq!(buffer.slice(2, 2), Values::I16(vec![]));
    let media = TypedBuffer::Jpeg(vec![9, 8, 7]);
    assert!(media.encoded());
    assert_eq!(media.slice(0, 2), Values::U8(vec![9, 8]));
}
