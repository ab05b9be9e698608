use tensor_template::buffer::{TypedBuffer, Values};
use tensor_template::context::{BindingContext, TemplateContext};
use tensor_template::shape::Dimension;
use tensor_template::template_visualizer_system::TVSystem;
use tensor_template::tensors_context_visualizer_system::{make_outer_path, LTVSystem, TensorSample};

#[test]
fn later_binding_takes_the_place_of_an_earlier_one() {
    let mut context = BindingContext::new();
    assert!(context.is_empty());
    assert_eq!(context.get("k"), None);
    context.insert("k".to_string(), Values::U8(vec![1]));
    context.insert("other".to_string(), Values::U8(vec![2]));
    context.insert("k".to_string(), Values::I16(vec![3, 4]));
    assert_eq!(context.len(), 3);
    assert_eq!(context.get("k"), Some(&Values::I16(vec![3, 4])));
    assert_eq!(context.get("other"), Some(&Values::U8(vec![2])));
    assert_eq!(context.get("missing"), None);
}

#[test]
fn later_namespace_takes_the_place_of_an_earlier_one() {
    let mut first = BindingContext::new();
    first.insert("a".to_string(), Values::U8(vec![1]));
    let mut second = BindingContext::new();
    second.insert("b".to_string(), Values::U8(vec![2]));
    let mut context = TemplateContext::new();
    assert_eq!(context.get("t"), None);
    context.insert("t".to_string(), first);
    context.insert("t".to_string(), second.clone());
    assert_eq!(context.len(), 2);
    assert_eq!(context.get("t"), Some(&second));
    assert_eq!(context.get("u"), None);
}

#[test]
fn outer_path_has_two_underscores_for_each_slash() {
    assert_eq!(make_outer_path("world/tensor"), "world__tensor");
    assert_eq!(make_outer_path("/a/b/"), "__a__b__");
    assert_eq!(make_outer_path("plain"), "plain");
    assert_eq!(make_outer_path(""), "");
    assert_eq!(make_outer_path("//"), "____");
}

#[test]
fn each_tensor_goes_under_its_own_outer_path() {
    let samples = vec![
        TensorSample {
            entity_path: "world/a".to_string(),
            shape: vec![Dimension::named(2, "x")],
            buffer: TypedBuffer::U8(vec![1, 2]),
        },
        TensorSample {
            entity_path: "world/b".to_string(),
            shape: vec![Dimension::named(1, "p"), Dimension::named(2, "d")],
            buffer: TypedBuffer::I32(vec![-3, 4]),
        },
    ];
    let mut system = LTVSystem::default();
    let skipped = system.execute(&samples);
    assert_eq!(skipped, 0);
    assert_eq!(system.context.len(), 2);
    let a = system.context.get("world__a").unwrap();
    assert_eq!(a.get("__x"), Some(&Values::U8(vec![1, 2])));
    let b = system.context.get("world__b").unwrap();
    assert_eq!(b.get("__p0__d"), Some(&Values::I32(vec![-3, 4])));
    assert_eq!(b.get("__x"), None);
}

#[test]
fn tensor_that_cannot_be_flattened_is_passed_over() {
    let samples = vec![
        TensorSample {
            entity_path: "bad".to_string(),
            shape: vec![Dimension::named(3, "x")],
            buffer: TypedBuffer::U8(vec![1, 2]),
        },
        TensorSample {
            entity_path: "media".to_string(),
            shape: vec![Dimension::named(3, "x")],
            buffer: TypedBuffer::Jpeg(vec![1, 2]),
        },
        TensorSample {
            entity_path: "wide".to_string(),
            shape: vec![Dimension::unnamed(2), Dimension::unnamed(2)],
            buffer: TypedBuffer::U8(vec![1, 2, 3, 4]),
        },
        TensorSample {
            entity_path: "good".to_string(),
            shape: vec![Dimension::named(2, "x")],
            buffer: TypedBuffer::U8(vec![1, 2]),
        },
    ];
    let mut system = LTVSystem::default();
    assert_eq!(system.execute(&samples), 2);
    assert_eq!(system.context.len(), 2);
    assert_eq!(system.context.get("bad"), None);
    assert_eq!(system.context.get("wide"), None);
    assert!(system.context.get("media").unwrap().is_empty());
    assert_eq!(system.context.get("good").unwrap().len(), 1);
    assert_eq!(system.execute(&Vec::new()), 0);
    assert_eq!(system.context.len(), 2);
}

#[test]
fn systems_are_known_by_their_names() {
    assert_eq!(LTVSystem::identifier(), "LabeledTensorVisualizer");
    assert_eq!(TVSystem::identifier(), "TemplateVisualizerSystem");
}

#[test]
fn last_template_that_arrived_is_kept() {
    let mut system = TVSystem::default();
    assert_eq!(system.template, "");
    system.execute(&vec![None, Some("<svg/>".to_string()), None]);
    assert_eq!(system.template, "<svg/>");
    system.execute(&vec![None, None]);
    assert_eq!(system.template, "<svg/>");
    system.execute(&vec![Some("a".to_string()), Some("b".to_string())]);
    assert_eq!(system.template, "b");
    system.execute(&Vec::new());
    assert_eq!(system.template, "b");
}
