//! The view: what it is called, the state that it keeps, and what it shows
//! for a frame.

use vstd::prelude::*;
use vstd::slice::slice_to_vec;
use vstd::string::StringSliceAdditionalSpecFns;
use crate::naming::{signed_decimal, signed_decimal_text};
use vstd::utf8::encode_utf8;
use crate::render::{
    context_line, default_engine, error_line, render, render_view, RenderResult, RenderView,
};

verus! {

/// What the view keeps between frames.
pub struct TVSpaceViewState {
    /// The engine that the templates of this view are rendered with.
    pub tera: tera::Tera,
    /// Reset has been performed (from a new view or state)
    reset_done: bool,
}

impl TVSpaceViewState {
    /// Whether the view was reset since this state was made.
    pub closed spec fn was_reset(&self) -> bool {
        self.reset_done
    }

    /// A state around an engine that is set up, with the reset still to do.
    pub fn new(engine: tera::Tera) -> (state: TVSpaceViewState)
        ensures
            state.engine() == engine,
            !state.was_reset(),
    {
        TVSpaceViewState { tera: engine, reset_done: false }
    }

    /// Whether the view was reset since this state was made.
    pub fn reset_done(&self) -> (done: bool)
        ensures
            done == self.was_reset(),
    {
        self.reset_done
    }
}

impl Default for TVSpaceViewState {
    fn default() -> (state: TVSpaceViewState)
        ensures
            !state.was_reset(),
    {
        TVSpaceViewState::new(default_engine())
    }
}

/// The view as a kind of view.
#[derive(Clone, Debug)]
pub struct TVView;

impl TVView {
    /// The view keeps nothing on the heap.
    pub fn heap_size_bytes(&self) -> (bytes: u64)
        ensures
            bytes == 0,
    {
        0
    }

    /// The view is plain data.
    pub fn is_pod() -> (pod: bool)
        ensures
            pod,
    {
        true
    }

    /// The name of this kind of view.
    pub fn identifier() -> (name: String)
        ensures
            name@ == "TensorVis"@,
    {
        String::from_str("TensorVis")
    }
}

/// An error met while drawing the view.
#[derive(Default, Debug, Clone)]
pub struct TVSpaceViewDrawError(pub String);

/// The text of a drawing error: what it is, then what went wrong.
pub open spec fn draw_error_text(message: Seq<char>) -> Seq<char> {
    "TVSpaceViewDrawError: "@ + message
}

impl TVSpaceViewDrawError {
    /// The error as text.
    pub fn to_text(&self) -> (text: String)
        ensures
            text@ == draw_error_text(self.0@),
    {
        let mut text = String::from_str("TVSpaceViewDrawError: ");
        text.append(self.0.as_str());
        text
    }
}

/// A rendered template as an image to show: the address under which it is
/// known, and its bytes.
#[derive(Clone, Debug, PartialEq, Eq)]
pub struct SvgImage {
    pub uri: String,
    pub bytes: Vec<u8>,
}

/// The address of the image shown at a position of the time cursor.
pub open spec fn image_uri(time_marker: int) -> Seq<char> {
    "bytes://"@ + signed_decimal(time_marker) + ".svg"@
}

impl SvgImage {
    /// The image of a rendered text at a position of the time cursor: the
    /// bytes of the text, under an address that spells the position.
    pub fn from_text(text: &str, time_marker: i64) -> (image: SvgImage)
        ensures
            image.uri@ == image_uri(time_marker as int),
            image.bytes@ == text.spec_bytes(),
    {
        let mut uri = String::from_str("bytes://");
        let position = signed_decimal_text(time_marker);
        uri.append(position.as_str());
        uri.append(".svg");
        SvgImage { uri, bytes: slice_to_vec(text.as_bytes()) }
    }
}

/// What the view puts on the screen.
#[derive(Clone, Debug, PartialEq, Eq)]
pub enum Shown {
    /// The rendered template as an image.
    Image(SvgImage),
    /// The two lines of a rendering that failed.
    Failure { error: String, context: String },
    /// The template was rendered, but there is no time cursor to show it at.
    NoTime,
}

/// Whether `shown` is what a rendering is shown as at a position of the time
/// cursor: a failure as its two lines, a text as its image at the position,
/// and a text without a position as nothing.
pub open spec fn shown_as(shown: Shown, result: RenderView, time_marker: Option<i64>) -> bool {
    match (result, time_marker) {
        (RenderView::Rendered(text), Some(marker)) => {
            &&& shown is Image
            &&& shown->Image_0.uri@ == image_uri(marker as int)
            &&& shown->Image_0.bytes@ == encode_utf8(text)
        },
        (RenderView::Rendered(_), None) => shown is NoTime,
        (RenderView::Failed { error, context }, _) => {
            &&& shown is Failure
            &&& shown->error@ == error_line(error)
            &&& shown->context@ == context_line(context)
        },
    }
}

/// Decides what to show for a rendering at a position of the time cursor.
pub fn shown(result: RenderResult, time_marker: Option<i64>) -> (shown: Shown)
    ensures
        shown_as(shown, result@, time_marker),
{
    match result {
        RenderResult::Rendered(text) => match time_marker {
            Some(marker) => Shown::Image(SvgImage::from_text(text.as_str(), marker)),
            None => Shown::NoTime,
        },
        RenderResult::Failed(failure) => Shown::Failure {
            error: failure.error_label(),
            context: failure.context_label(),
        },
    }
}

/// What the view does for one frame.
#[derive(Clone, Debug, PartialEq, Eq)]
pub struct Frame {
    /// Whether the view is to be reset before it is drawn.
    pub reset_view: bool,
    /// What is drawn.
    pub shown: Shown,
}

/// The view.
#[derive(Default)]
pub struct TVSpaceView;

impl TVSpaceView {
    /// The name of this kind of view.
    pub fn identifier() -> (name: String)
        ensures
            name@ == "TensorVis"@,
    {
        TVView::identifier()
    }

    /// The name shown for the view.
    pub fn display_name(&self) -> (name: &'static str)
        ensures
            name@ == "TVSpaceView"@,
    {
        "TVSpaceView"
    }

    /// The state of a new view, around an engine that is set up.
    pub fn new_state(&self, engine: tera::Tera) -> (state: TVSpaceViewState)
        ensures
            state.engine() == engine,
            !state.was_reset(),
    {
        TVSpaceViewState::new(engine)
    }

    /// One frame of the view, once the engine of `state` has rendered the
    /// template against `context` and given `outcome`.
    ///
    /// The view is to be reset on a double click and on the first frame of
    /// a state; after the frame the reset counts as done. What is drawn is
    /// the image of the text at the time cursor, or the two lines of the
    /// failure; a text without a time cursor draws nothing.
    pub fn ui(
        &self,
        state: &mut TVSpaceViewState,
        double_clicked: bool,
        outcome: Result<String, tera::Error>,
        context: &tera::Context,
        time_marker: Option<i64>,
    ) -> (frame: Frame)
        ensures
            final(state).was_reset(),
            final(state).engine() == old(state).engine(),
            frame.reset_view == (double_clicked || !old(state).was_reset()),
            shown_as(frame.shown, render_view(outcome, *context), time_marker),
    {
        let reset_view = double_clicked || !state.reset_done;
        state.reset_done = true;
        let result = render(outcome, context);
        Frame { reset_view, shown: shown(result, time_marker) }
    }
}

impl TVSpaceViewState {
    /// The engine that the state renders with: the one that it was made
    /// around, with the filters and functions registered in it.
    pub closed spec fn engine(&self) -> tera::Tera {
        self.tera
    }
}

} // verus!
