//! The system that turns the tensors of a frame into a template context.

use vstd::prelude::*;
use crate::buffer::TypedBuffer;
use crate::context::{NamespaceView, TemplateContext};
use crate::flatten::{flatten, flatten_outcome};
use crate::shape::Dimension;

verus! {

/// One tensor as it arrives: the path of the entity that it belongs to, its
/// shape and its buffer.
#[derive(Clone, Debug, PartialEq, Eq)]
pub struct TensorSample {
    pub entity_path: String,
    pub shape: Vec<Dimension>,
    pub buffer: TypedBuffer,
}

/// A text in which every `from` has given way to `to`.
pub open spec fn replaced(text: Seq<char>, from: char, to: Seq<char>) -> Seq<char>
    decreases text.len(),
{
    if text.len() == 0 {
        Seq::empty()
    } else if text[0] == from {
        to + replaced(text.drop_first(), from, to)
    } else {
        seq![text[0]] + replaced(text.drop_first(), from, to)
    }
}

/// The outer path of an entity: its path with `__` in place of each `/`.
pub open spec fn outer_path(entity_path: Seq<char>) -> Seq<char> {
    replaced(entity_path, '/', seq!['_', '_'])
}

/// What a run of samples adds to a context: a namespace for each sample
/// that can be flattened, in order. A sample that cannot is passed over.
pub open spec fn contributions(samples: Seq<TensorSample>) -> Seq<NamespaceView>
    decreases samples.len(),
{
    if samples.len() == 0 {
        Seq::empty()
    } else {
        let earlier = contributions(samples.drop_last());
        let sample = samples.last();
        match flatten_outcome(sample.buffer, sample.shape@) {
            Ok(bindings) => earlier.push(
                NamespaceView { path: outer_path(sample.entity_path@), bindings },
            ),
            Err(_) => earlier,
        }
    }
}

/// Spells the outer path of an entity.
pub fn make_outer_path(entity_path: &str) -> (path: String)
    ensures
        path@ == outer_path(entity_path@),
{
    let len = entity_path.unicode_len();
    let mut path = String::new();
    let mut at: usize = 0;
    proof {
        reveal_strlit("__");
        assert("__"@ =~= seq!['_', '_']);
        assert(entity_path@.skip(0) =~= entity_path@);
    }
    while at < len
        invariant
            at <= len,
            len == entity_path@.len(),
            "__"@ == seq!['_', '_'],
            path@ + outer_path(entity_path@.skip(at as int)) == outer_path(entity_path@),
        decreases len - at,
    {
        let ghost rest = entity_path@.skip(at as int);
        let ghost held = path@;
        proof {
            assert(rest[0] == entity_path@[at as int]);
            assert(rest.drop_first() =~= entity_path@.skip(at as int + 1));
        }
        if entity_path.get_char(at) == '/' {
            path.append("__");
        } else {
            path.append(entity_path.substring_char(at, at + 1));
            assert(entity_path@.subrange(at as int, at as int + 1) =~= seq![rest[0]]);
        }
        at = at + 1;
        assert(path@ + outer_path(entity_path@.skip(at as int)) =~= held + outer_path(rest));
    }
    assert(entity_path@.skip(len as int) =~= Seq::<char>::empty());
    assert(path@ + Seq::<char>::empty() =~= path@);
    path
}

/// The system that collects the bindings of every visible tensor.
#[derive(Debug)]
pub struct LTVSystem {
    pub context: TemplateContext,
}

impl Default for LTVSystem {
    fn default() -> (system: LTVSystem)
        ensures
            system.context@ == Seq::<NamespaceView>::empty(),
    {
        LTVSystem { context: TemplateContext::new() }
    }
}

impl LTVSystem {
    /// The name under which the system is registered.
    pub fn identifier() -> (name: String)
        ensures
            name@ == "LabeledTensorVisualizer"@,
    {
        String::from_str("LabeledTensorVisualizer")
    }

    /// Flattens each sample and adds its bindings to the context under the
    /// outer path of its entity. A sample that cannot be flattened adds
    /// nothing; the result counts those.
    pub fn execute(&mut self, samples: &Vec<TensorSample>) -> (skipped: usize)
        ensures
            final(self).context@ == old(self).context@ + contributions(samples@),
            skipped == samples@.len() - contributions(samples@).len(),
    {
        let mut skipped: usize = 0;
        let mut at: usize = 0;
        assert(samples@.take(0) =~= Seq::<TensorSample>::empty());
        assert(self.context@ =~= old(self).context@ + contributions(samples@.take(0)));
        while at < samples.len()
            invariant
                at <= samples@.len(),
                self.context@ == old(self).context@ + contributions(samples@.take(at as int)),
                skipped == at - contributions(samples@.take(at as int)).len(),
            decreases samples@.len() - at,
        {
            let sample = &samples[at];
            proof {
                let upto = samples@.take(at as int + 1);
                assert(upto.last() == samples@[at as int]);
                assert(upto.drop_last() =~= samples@.take(at as int));
            }
            let ghost held = self.context@;
            match flatten(&sample.buffer, sample.shape.as_slice()) {
                Ok(bindings) => {
                    let path = make_outer_path(sample.entity_path.as_str());
                    self.context.insert(path, bindings);
                    assert(self.context@ =~= old(self).context@ + contributions(
                        samples@.take(at as int + 1),
                    ));
                },
                Err(_) => {
                    skipped = skipped + 1;
                },
            }
            at = at + 1;
        }
        assert(samples@.take(at as int) =~= samples@);
        skipped
    }
}

} // verus!
