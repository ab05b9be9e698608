//! Rendering: what the engine made of a template and a context becomes text
//! or an error that can be shown.

use vstd::prelude::*;

verus! {

/// The template engine.
#[verifier::external_type_specification]
#[verifier::external_body]
pub struct ExTera(tera::Tera);

/// The context in the form that the engine reads.
#[verifier::external_type_specification]
#[verifier::external_body]
pub struct ExContext(tera::Context);

/// The error of the engine.
#[verifier::external_type_specification]
#[verifier::external_body]
pub struct ExError(tera::Error);

/// The text that the `Debug` formatting of an engine context gives: the
/// snapshot shown beside a rendering error.
pub uninterp spec fn context_snapshot(context: tera::Context) -> Seq<char>;

/// The text that the `Display` formatting of an engine error gives.
pub uninterp spec fn error_text(error: tera::Error) -> Seq<char>;

/// The text that the `Debug` formatting gives of the cause of an engine
/// error.
pub uninterp spec fn cause_text(error: tera::Error) -> Seq<char>;

/// A rendering that failed, ready to be shown.
#[derive(Clone, Debug, PartialEq, Eq)]
pub struct RenderError {
    /// What the engine said, and the cause that it named.
    pub error: String,
    /// The context that the template was rendered against, as debug text.
    pub context: String,
}

/// What rendering gave: the text, or the error.
#[derive(Clone, Debug, PartialEq, Eq)]
pub enum RenderResult {
    Rendered(String),
    Failed(RenderError),
}

/// A rendering result as mathematics.
pub enum RenderView {
    Rendered(Seq<char>),
    Failed { error: Seq<char>, context: Seq<char> },
}

impl View for RenderResult {
    type V = RenderView;

    open spec fn view(&self) -> RenderView {
        match self {
            RenderResult::Rendered(text) => RenderView::Rendered(text@),
            RenderResult::Failed(failure) => RenderView::Failed {
                error: failure.error@,
                context: failure.context@,
            },
        }
    }
}

/// The first line shown for a failure.
pub open spec fn error_line(error: Seq<char>) -> Seq<char> {
    seq!['E', 'r', 'r', 'o', 'r', ':', ' '] + error
}

/// The second line shown for a failure.
pub open spec fn context_line(context: Seq<char>) -> Seq<char> {
    seq!['C', 'o', 'n', 't', 'e', 'x', 't', ':', ' '] + context
}

impl RenderError {
    /// The first line to show: `Error: ` and what the engine said.
    pub fn error_label(&self) -> (line: String)
        ensures
            line@ == error_line(self.error@),
    {
        let mut line = String::from_str("Error: ");
        line.append(self.error.as_str());
        proof {
            reveal_strlit("Error: ");
            assert(line@ =~= error_line(self.error@));
        }
        line
    }

    /// The second line to show: `Context: ` and the snapshot.
    pub fn context_label(&self) -> (line: String)
        ensures
            line@ == context_line(self.context@),
    {
        let mut line = String::from_str("Context: ");
        line.append(self.context.as_str());
        proof {
            reveal_strlit("Context: ");
            assert(line@ =~= context_line(self.context@));
        }
        line
    }
}

impl RenderResult {
    /// What an outcome of the engine is classified as: its text, unchanged,
    /// or a failure that carries the engine's words and the snapshot.
    pub fn classify(outcome: Result<String, String>, snapshot: String) -> (result: RenderResult)
        ensures
            result@ == match outcome {
                Ok(text) => RenderView::Rendered(text@),
                Err(error) => RenderView::Failed { error: error@, context: snapshot@ },
            },
    {
        match outcome {
            Ok(text) => RenderResult::Rendered(text),
            Err(error) => RenderResult::Failed(RenderError { error, context: snapshot }),
        }
    }

    /// Whether the engine gave text.
    pub fn is_rendered(&self) -> (yes: bool)
        ensures
            yes == (self@ is Rendered),
    {
        match self {
            RenderResult::Rendered(_) => true,
            RenderResult::Failed(_) => false,
        }
    }
}

/// The `Display` text of an engine error.
#[verifier::external_body]
fn error_words(error: &tera::Error) -> (text: String)
    ensures
        text@ == error_text(*error),
{
    format!("{}", error)
}

/// The `Debug` text of the cause that `Error::source` names for an engine
/// error, or of `None` where it names none.
#[verifier::external_body]
fn cause_words(error: &tera::Error) -> (text: String)
    ensures
        text@ == cause_text(*error),
{
    format!("{:?}", std::error::Error::source(error))
}

/// The `Debug` text of an engine context, which `Context` derives.
#[verifier::external_body]
fn snapshot(context: &tera::Context) -> (text: String)
    ensures
        text@ == context_snapshot(*context),
{
    format!("{:?}", context)
}

/// `Tera::default`: an engine without templates, with the filters, testers
/// and functions that the engine is shipped with.
#[verifier::external_body]
pub(crate) fn default_engine() -> (engine: tera::Tera)
{
    tera::Tera::default()
}

/// What is said of an engine error: its own words, a colon, and its cause.
pub open spec fn described(error: tera::Error) -> Seq<char> {
    error_text(error) + seq![':', ' '] + cause_text(error)
}

/// Says what an engine error is and what caused it.
pub fn describe(error: &tera::Error) -> (text: String)
    ensures
        text@ == described(*error),
{
    let mut text = error_words(error);
    text.append(": ");
    let cause = cause_words(error);
    text.append(cause.as_str());
    proof {
        reveal_strlit(": ");
        assert(": "@ =~= seq![':', ' ']);
    }
    text
}

/// What a rendering comes to: the text that the engine gave, unchanged, or
/// what is said of its error with the snapshot of the context used.
pub open spec fn render_view(outcome: Result<String, tera::Error>, context: tera::Context) -> RenderView {
    match outcome {
        Ok(text) => RenderView::Rendered(text@),
        Err(error) => RenderView::Failed {
            error: described(error),
            context: context_snapshot(context),
        },
    }
}

/// Takes what the engine made of a template against `context` and gives the
/// rendering to show.
///
/// A failure of the engine is no failure of the caller: it comes back as a
/// value to show, with the snapshot of the very context that was used.
pub fn render(outcome: Result<String, tera::Error>, context: &tera::Context) -> (result:
    RenderResult)
    ensures
        result@ == render_view(outcome, *context),
{
    match outcome {
        Ok(text) => RenderResult::classify(Ok(text), String::new()),
        Err(error) => {
            let words = describe(&error);
            RenderResult::classify(Err(words), snapshot(context))
        },
    }
}

} // verus!
