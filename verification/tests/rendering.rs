use tensor_template::render::{describe, render, RenderError, RenderResult};
use tensor_template::space_view_class::{
    shown, Shown, SvgImage, TVSpaceView, TVSpaceViewDrawError, TVSpaceViewState, TVView,
};
use tensor_template::template_visualizer_system::TVSystem;
use tensor_template::types::archetypes::tensorviz::TensorViz;
use tensor_template::types::components::tera_svg::TeraSVG;

fn engine_error(template: &str, context: &tera::Context) -> tera::Error {
    tera::Tera::default().render_str(template, context).unwrap_err()
}

#[test]
fn missing_key_is_an_error_to_show_and_the_corrected_template_renders() {
    let mut engine = tera::Tera::default();
    let mut context = tera::Context::new();
    context.insert("__x", &vec![1u8, 2u8]);
    let failed = render(engine.render_str("<text>{{ __y }}</text>", &context), &context);
    match &failed {
        RenderResult::Failed(failure) => {
            assert!(!failure.error.is_empty());
            assert_eq!(failure.context, format!("{:?}", context));
            assert!(failure.context.contains("__x"));
        }
        RenderResult::Rendered(text) => panic!("rendered: {}", text),
    }
    assert!(!failed.is_rendered());
    let once = render(engine.render_str("<text>{{ __x }}</text>", &context), &context);
    let again = render(engine.render_str("<text>{{ __x }}</text>", &context), &context);
    assert_eq!(once, RenderResult::Rendered("<text>[1, 2]</text>".to_string()));
    assert_eq!(once, again);
    assert!(once.is_rendered());
}

#[test]
fn template_with_a_syntax_error_is_an_error_to_show() {
    let mut engine = tera::Tera::default();
    let context = tera::Context::new();
    let result = render(engine.render_str("{{ unclosed", &context), &context);
    assert!(!result.is_rendered());
}

#[test]
fn engine_error_is_described_by_its_words_and_its_cause() {
    let context = tera::Context::new();
    let error = engine_error("{{ missing }}", &context);
    let cause = std::error::Error::source(&error);
    assert!(cause.is_some());
    assert_eq!(describe(&error), format!("{}: {:?}", error, cause));
    let plain = tera::Error::msg("no luck");
    assert_eq!(describe(&plain), "no luck: None");
    assert_eq!(
        render(Err(tera::Error::msg("no luck")), &context),
        RenderResult::Failed(RenderError {
            error: "no luck: None".to_string(),
            context: format!("{:?}", context),
        })
    );
}

#[test]
fn text_of_the_engine_comes_back_unchanged() {
    let context = tera::Context::new();
    assert_eq!(
        render(Ok("<svg> </svg>\n".to_string()), &context),
        RenderResult::Rendered("<svg> </svg>\n".to_string())
    );
}

#[test]
fn template_reads_a_slice_by_index() {
    let mut engine = tera::Tera::default();
    let mut inner = tera::Context::new();
    inner.insert("__phasor0__data", &vec![1.0f64, 0.7854f64]);
    let mut context = tera::Context::new();
    context.insert("world__phasor", &inner.into_json());
    let outcome = engine.render_str("{{ world__phasor.__phasor0__data.1 }}", &context);
    assert_eq!(render(outcome, &context), RenderResult::Rendered("0.7854".to_string()));
}

#[test]
fn outcome_of_the_engine_is_classified() {
    let text = RenderResult::classify(Ok("<svg/>".to_string()), "snapshot".to_string());
    assert_eq!(text, RenderResult::Rendered("<svg/>".to_string()));
    let failure = RenderResult::classify(Err("bad".to_string()), "snapshot".to_string());
    assert_eq!(
        failure,
        RenderResult::Failed(RenderError { error: "bad".to_string(), context: "snapshot".to_string() })
    );
}

#[test]
fn failure_is_shown_in_two_lines() {
    let failure = RenderError { error: "no such key: None".to_string(), context: "Context { }".to_string() };
    assert_eq!(failure.error_label(), "Error: no such key: None");
    assert_eq!(failure.context_label(), "Context: Context { }");
}

#[test]
fn rendering_is_shown_as_image_or_lines_or_nothing() {
    let text = RenderResult::Rendered("<svg/>".to_string());
    assert_eq!(
        shown(text.clone(), Some(17)),
        Shown::Image(SvgImage { uri: "bytes://17.svg".to_string(), bytes: b"<svg/>".to_vec() })
    );
    assert_eq!(shown(text, None), Shown::NoTime);
    let failure = RenderResult::Failed(RenderError {
        error: "bad: None".to_string(),
        context: "Context { data: {} }".to_string(),
    });
    let lines = Shown::Failure {
        error: "Error: bad: None".to_string(),
        context: "Context: Context { data: {} }".to_string(),
    };
    assert_eq!(shown(failure.clone(), Some(3)), lines);
    assert_eq!(shown(failure, None), lines);
}

#[test]
fn first_frame_of_a_state_resets_the_view() {
    let view = TVSpaceView;
    let mut state = view.new_state(tera::Tera::default());
    assert!(!state.reset_done());
    let mut system = TVSystem::default();
    system.execute(&vec![Some("<svg>{{ n }}</svg>".to_string())]);
    let mut context = tera::Context::new();
    context.insert("n", &3u32);
    let image = Shown::Image(SvgImage { uri: "bytes://5.svg".to_string(), bytes: b"<svg>3</svg>".to_vec() });
    let outcome = state.tera.render_str(&system.template, &context);
    let first = view.ui(&mut state, false, outcome, &context, Some(5));
    assert!(first.reset_view);
    assert_eq!(first.shown, image);
    assert!(state.reset_done());
    let outcome = state.tera.render_str(&system.template, &context);
    let second = view.ui(&mut state, false, outcome, &context, Some(5));
    assert!(!second.reset_view);
    assert_eq!(second.shown, first.shown);
    let outcome = state.tera.render_str(&system.template, &context);
    let third = view.ui(&mut state, true, outcome, &context, None);
    assert!(third.reset_view);
    assert_eq!(third.shown, Shown::NoTime);
    assert!(state.reset_done());
}

#[test]
fn frame_with_a_broken_template_carries_the_failure() {
    let view = TVSpaceView;
    let mut state = TVSpaceViewState::default();
    let mut system = TVSystem::default();
    system.execute(&vec![Some("{{ missing }}".to_string())]);
    let context = tera::Context::new();
    let expected = describe(&engine_error("{{ missing }}", &context));
    let outcome = state.tera.render_str(&system.template, &context);
    let frame = view.ui(&mut state, false, outcome, &context, None);
    assert_eq!(
        frame.shown,
        Shown::Failure {
            error: format!("Error: {}", expected),
            context: format!("Context: {:?}", context),
        }
    );
    assert!(state.reset_done());
}

#[test]
fn state_renders_with_the_engine_that_it_was_made_around() {
    let mut engine = tera::Tera::default();
    engine.add_raw_template("greeting", "hello {{ n }}").unwrap();
    let view = TVSpaceView;
    let mut state = view.new_state(engine);
    let template = "<svg>{% include \"greeting\" %}</svg>";
    let mut context = tera::Context::new();
    context.insert("n", &7u8);
    assert_eq!(state.tera.render_str(template, &context).unwrap(), "<svg>hello 7</svg>");
    let outcome = state.tera.render_str(template, &context);
    view.ui(&mut state, false, outcome, &context, Some(0));
    assert_eq!(state.tera.render_str(template, &context).unwrap(), "<svg>hello 7</svg>");

    let mut other = tera::Tera::default();
    other.add_raw_template("greeting", "bye").unwrap();
    let mut made = TVSpaceViewState::new(other);
    assert_eq!(made.tera.render_str(template, &context).unwrap(), "<svg>bye</svg>");

    let mut plain = TVSpaceViewState::default();
    assert!(plain.tera.render_str(template, &context).is_err());
}

#[test]
fn image_is_addressed_by_the_time_cursor() {
    let image = SvgImage::from_text("<svg/>", 17);
    assert_eq!(image.uri, "bytes://17.svg");
    assert_eq!(image.bytes, b"<svg/>".to_vec());
    assert_eq!(SvgImage::from_text("", -5).uri, "bytes://-5.svg");
    assert_eq!(SvgImage::from_text("", -5).bytes, Vec::<u8>::new());
    assert_eq!(SvgImage::from_text("é", 0).bytes, vec![0xc3u8, 0xa9u8]);
}

#[test]
fn view_is_known_by_its_names() {
    assert_eq!(TVView::identifier(), "TensorVis");
    assert_eq!(TVSpaceView::identifier(), "TensorVis");
    assert_eq!(TVSpaceView.display_name(), "TVSpaceView");
    assert_eq!(TVView.heap_size_bytes(), 0);
    assert!(TVView::is_pod());
}

#[test]
fn drawing_error_says_what_it_is() {
    let error = TVSpaceViewDrawError("no image".to_string());
    assert_eq!(error.to_text(), "TVSpaceViewDrawError: no image");
    assert_eq!(TVSpaceViewDrawError::default().to_text(), "TVSpaceViewDrawError: ");
}

#[test]
fn archetype_names_its_components() {
    assert_eq!(TensorViz::name(), "tv.archetypes.TensorViz");
    assert_eq!(TensorViz::display_name(), "TensorViz");
    assert_eq!(TensorViz::NUM_COMPONENTS, 2);
    assert_eq!(TensorViz::required_components(), vec!["tv.components.TensorVizIndicator".to_string()]);
    assert!(TensorViz::recommended_components().is_empty());
    assert_eq!(TensorViz::optional_components(), vec!["tv.components.TeraSVG".to_string()]);
    assert_eq!(
        TensorViz::all_components(),
        vec!["tv.components.TensorVizIndicator".to_string(), "tv.components.TeraSVG".to_string()]
    );
    assert_eq!(TeraSVG::NAME, "tv.components.TeraSVG");
    assert_eq!(TeraSVG::name(), TeraSVG::NAME);
}

#[test]
fn archetype_holds_its_template() {
    let viz = TensorViz::new_svg(TeraSVG::new("<svg/>"));
    assert_eq!(viz, TensorViz::TeraSVG(TeraSVG("<svg/>".to_string())));
    assert_eq!(viz.template(), "<svg/>");
    assert_eq!(TeraSVG::new("t").as_str(), "t");
}
