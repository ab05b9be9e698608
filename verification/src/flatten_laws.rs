//! What holds of flattening beyond the contract of each function.

use vstd::prelude::*;
use crate::buffer::TypedBuffer;
use crate::context::BindingContext;
use crate::flatten::{
    all_fit, bindings_of, flatten_outcome, lemma_all_fit_concat, lemma_fit_first_axis,
    lemma_single_first_axis, outcome_view, span_fits, spans, spans_below, spans_under,
    FlattenError,
};
use crate::flatten::Span;
use crate::naming::{
    extends, indexed_prefix, leaf_key, lemma_extends_outer, lemma_indices_part_keys,
};
use crate::shape::{element_count, Dimension};

verus! {

/// Two shapes with the same axes: as many, and each with the size and the
/// name, as it enters a key, of the other's.
pub open spec fn same_axes(first: Seq<Dimension>, second: Seq<Dimension>) -> bool {
    &&& first.len() == second.len()
    &&& forall|i: int|
        0 <= i < first.len() ==> (#[trigger] first[i]).size == second[i].size
            && first[i].name_or_empty() == second[i].name_or_empty()
}

/// Two buffers with the same content: both encoded media, or both numbers
/// of one kind, the same numbers in the same order.
pub open spec fn same_content(first: TypedBuffer, second: TypedBuffer) -> bool {
    &&& first.is_encoded() == second.is_encoded()
    &&& !first.is_encoded() ==> first.value_kind() == second.value_kind() && first.items()
        == second.items()
}

/// Shapes with the same axes span the same number of elements.
pub proof fn lemma_same_axes_count(first: Seq<Dimension>, second: Seq<Dimension>)
    requires
        same_axes(first, second),
    ensures
        element_count(first) == element_count(second),
    decreases first.len(),
{
    if first.len() > 0 {
        assert(first[0].size == second[0].size);
        assert(same_axes(first.drop_first(), second.drop_first())) by {
            assert forall|i: int| 0 <= i < first.drop_first().len() implies (
            #[trigger] first.drop_first()[i]).size == second.drop_first()[i].size
                && first.drop_first()[i].name_or_empty() == second.drop_first()[i].name_or_empty() by {
                assert(first.drop_first()[i] == first[i + 1]);
                assert(second.drop_first()[i] == second[i + 1]);
            }
        }
        lemma_same_axes_count(first.drop_first(), second.drop_first());
    }
}

/// Shapes with the same axes are traversed alike.
pub proof fn lemma_same_axes_spans(
    prefix: Seq<char>,
    first: Seq<Dimension>,
    second: Seq<Dimension>,
    start: int,
    end: int,
)
    requires
        same_axes(first, second),
    ensures
        spans(prefix, first, start, end) == spans(prefix, second, start, end),
    decreases first.len(), 1nat, 0nat,
{
    if first.len() >= 1 {
        assert(first[0].size == second[0].size);
        assert(first[0].name_or_empty() == second[0].name_or_empty());
    }
    if first.len() >= 2 {
        lemma_same_axes_spans_below(prefix, first, second, start, first[0].size as nat);
    }
}

/// The same under the first `count` indices of the outermost axis.
pub proof fn lemma_same_axes_spans_below(
    prefix: Seq<char>,
    first: Seq<Dimension>,
    second: Seq<Dimension>,
    start: int,
    count: nat,
)
    requires
        same_axes(first, second),
        first.len() >= 2,
    ensures
        spans_below(prefix, first, start, count) == spans_below(prefix, second, start, count),
    decreases first.len(), 0nat, count,
{
    if count > 0 {
        let index = (count - 1) as nat;
        lemma_same_axes_spans_below(prefix, first, second, start, index);
        lemma_same_axes_count(first, second);
        assert(first[0].name_or_empty() == second[0].name_or_empty());
        assert(same_axes(first.drop_first(), second.drop_first())) by {
            assert forall|i: int| 0 <= i < first.drop_first().len() implies (
            #[trigger] first.drop_first()[i]).size == second.drop_first()[i].size
                && first.drop_first()[i].name_or_empty() == second.drop_first()[i].name_or_empty() by {
                assert(first.drop_first()[i] == first[i + 1]);
                assert(second.drop_first()[i] == second[i + 1]);
            }
        }
        let block = element_count(first) as int;
        lemma_same_axes_spans(
            indexed_prefix(prefix, first[0].name_or_empty(), index),
            first.drop_first(),
            second.drop_first(),
            start + index * block,
            start + index * block + block,
        );
        assert(spans_under(prefix, first, start, index) == spans_under(
            prefix,
            second,
            start,
            index,
        ));
    }
}

/// Flattening depends on the content alone: buffers with the same content,
/// against shapes with the same axes, give the same keys with the same
/// slices, or the same error.
pub proof fn lemma_flatten_repeatable(
    first: TypedBuffer,
    first_shape: Seq<Dimension>,
    second: TypedBuffer,
    second_shape: Seq<Dimension>,
)
    requires
        same_content(first, second),
        same_axes(first_shape, second_shape),
    ensures
        flatten_outcome(first, first_shape) == flatten_outcome(second, second_shape),
{
    if !first.is_encoded() {
        let len = first.items().len() as int;
        lemma_same_axes_count(first_shape, second_shape);
        lemma_same_axes_spans(Seq::empty(), first_shape, second_shape, 0, len);
        let reached = spans(Seq::empty(), first_shape, 0, len);
        assert(bindings_of(first, reached) =~= bindings_of(second, reached));
    }
}

/// Flattening twice gives the same twice: two results that each meet the
/// contract of flattening for one buffer and one shape hold the same keys
/// with the same slices, or the same error.
pub proof fn lemma_flatten_idempotent(
    buffer: TypedBuffer,
    shape: Seq<Dimension>,
    once: Result<BindingContext, FlattenError>,
    again: Result<BindingContext, FlattenError>,
)
    requires
        outcome_view(once) == flatten_outcome(buffer, shape),
        outcome_view(again) == flatten_outcome(buffer, shape),
    ensures
        outcome_view(once) == outcome_view(again),
{
}

/// Whether every axis but the innermost has length one: there is one path
/// through the outer axes.
pub open spec fn single_path(shape: Seq<Dimension>) -> bool {
    forall|i: int| 0 <= i < shape.len() - 1 ==> (#[trigger] shape[i]).size == 1
}

/// Where the shape spans no element, the traversal of an empty range stays
/// in that range.
pub proof fn lemma_empty_range_fits(prefix: Seq<char>, shape: Seq<Dimension>, at: int, len: int)
    requires
        element_count(shape) == 0,
        0 <= at <= len,
    ensures
        all_fit(spans(prefix, shape, at, at), len),
    decreases shape.len(), 1nat, 0nat,
{
    if shape.len() >= 2 {
        lemma_empty_range_fits_below(prefix, shape, at, shape[0].size as nat, len);
    }
}

/// The same under the first `count` indices of the outermost axis.
pub proof fn lemma_empty_range_fits_below(
    prefix: Seq<char>,
    shape: Seq<Dimension>,
    at: int,
    count: nat,
    len: int,
)
    requires
        shape.len() >= 2,
        element_count(shape) == 0,
        count <= shape[0].size,
        0 <= at <= len,
    ensures
        all_fit(spans_below(prefix, shape, at, count), len),
    decreases shape.len(), 0nat, count,
{
    if count > 0 {
        let index = (count - 1) as nat;
        let first = shape[0].size as int;
        let inner = element_count(shape.drop_first()) as int;
        let block = element_count(shape) as int;
        assert(inner == 0) by (nonlinear_arith)
            requires
                first * inner == 0,
                first > 0,
        ;
        assert(at + index * block == at) by (nonlinear_arith)
            requires
                block == 0,
        ;
        lemma_empty_range_fits_below(prefix, shape, at, index, len);
        lemma_empty_range_fits(
            indexed_prefix(prefix, shape[0].name_or_empty(), index),
            shape.drop_first(),
            at,
            len,
        );
        lemma_all_fit_concat(
            spans_below(prefix, shape, at, index),
            spans_under(prefix, shape, at, index),
            len,
        );
    }
}

/// When the traversal stays inside the buffer: where the shape spans exactly
/// the buffer, every span lies inside the buffer if and only if the buffer
/// is empty or there is one path through the outer axes.
pub proof fn lemma_fit_exactly(prefix: Seq<char>, shape: Seq<Dimension>, len: int)
    requires
        element_count(shape) == len,
    ensures
        all_fit(spans(prefix, shape, 0, len), len) <==> (len == 0 || single_path(shape)),
    decreases shape.len(),
{
    let reached = spans(prefix, shape, 0, len);
    if len == 0 {
        lemma_empty_range_fits(prefix, shape, 0, 0);
    } else if shape.len() == 1 {
        assert(span_fits(reached[0], len));
    } else if shape.len() >= 2 {
        let rest = shape.drop_first();
        let inner_prefix = indexed_prefix(prefix, shape[0].name_or_empty(), 0);
        if all_fit(reached, len) {
            lemma_fit_first_axis(prefix, shape, len);
        }
        if shape[0].size == 1 {
            lemma_single_first_axis(prefix, shape, len);
            lemma_fit_exactly(inner_prefix, rest, len);
            if single_path(rest) {
                assert forall|i: int| 0 <= i < shape.len() - 1 implies (#[trigger] shape[i]).size
                    == 1 by {
                    if i > 0 {
                        assert(shape[i] == rest[i - 1]);
                    }
                }
            }
            if single_path(shape) {
                assert forall|i: int| 0 <= i < rest.len() - 1 implies (#[trigger] rest[i]).size
                    == 1 by {
                    assert(rest[i] == shape[i + 1]);
                }
            }
        }
    }
}

/// When flattening fails for want of room: a buffer of numbers that holds as
/// many elements as the shape spans is refused exactly when it is not empty
/// and an axis other than the innermost is longer than one.
pub proof fn lemma_out_of_range_exactly(buffer: TypedBuffer, shape: Seq<Dimension>)
    ensures
        flatten_outcome(buffer, shape) == Err::<Seq<crate::context::BindingView>, FlattenError>(
            FlattenError::OutOfRange,
        ) <==> {
            &&& !buffer.is_encoded()
            &&& element_count(shape) == buffer.items().len()
            &&& buffer.items().len() > 0
            &&& !single_path(shape)
        },
{
    let len = buffer.items().len() as int;
    if !buffer.is_encoded() && element_count(shape) == len {
        lemma_fit_exactly(Seq::empty(), shape, len);
    }
}

/// Whether no two spans have the same key.
pub open spec fn keys_distinct(spans: Seq<Span>) -> bool {
    forall|a: int, b: int|
        0 <= a < b < spans.len() ==> (#[trigger] spans[a]).key != (#[trigger] spans[b]).key
}

/// Whether every key goes on from `prefix` with a separator.
pub open spec fn all_extend(spans: Seq<Span>, prefix: Seq<char>) -> bool {
    forall|k: int| 0 <= k < spans.len() ==> extends((#[trigger] spans[k]).key, prefix)
}

/// Whether `key` goes on from the prefix of one of the first `count` indices
/// of an axis.
pub open spec fn under_an_index(key: Seq<char>, prefix: Seq<char>, name: Seq<char>, count: nat) -> bool {
    exists|index: nat|
        index < count && #[trigger] extends(key, indexed_prefix(prefix, name, index))
}

/// The keys of one traversal are all different, and each goes on from the
/// prefix that the traversal was entered with.
pub proof fn lemma_keys_distinct(prefix: Seq<char>, shape: Seq<Dimension>, start: int, end: int)
    ensures
        all_extend(spans(prefix, shape, start, end), prefix),
        keys_distinct(spans(prefix, shape, start, end)),
    decreases shape.len(), 1nat, 0nat,
{
    let reached = spans(prefix, shape, start, end);
    if shape.len() == 1 {
        let key = leaf_key(prefix, shape[0].name_or_empty());
        assert(key.subrange(0, prefix.len() as int) =~= prefix);
        assert(reached[0].key == key);
    } else if shape.len() >= 2 {
        let name = shape[0].name_or_empty();
        let count = shape[0].size as nat;
        lemma_keys_distinct_below(prefix, shape, start, count);
        assert forall|k: int| 0 <= k < reached.len() implies extends(
            (#[trigger] reached[k]).key,
            prefix,
        ) by {
            assert(under_an_index(reached[k].key, prefix, name, count));
            let index = choose|index: nat|
                index < count && #[trigger] extends(
                    reached[k].key,
                    indexed_prefix(prefix, name, index),
                );
            lemma_extends_outer(reached[k].key, prefix, name, index);
        }
    }
}

/// The same under the first `count` indices of the outermost axis: the keys
/// are all different, and each goes on from the prefix of one of those
/// indices.
pub proof fn lemma_keys_distinct_below(
    prefix: Seq<char>,
    shape: Seq<Dimension>,
    start: int,
    count: nat,
)
    requires
        shape.len() >= 2,
    ensures
        forall|k: int|
            0 <= k < spans_below(prefix, shape, start, count).len() ==> under_an_index(
                (#[trigger] spans_below(prefix, shape, start, count)[k]).key,
                prefix,
                shape[0].name_or_empty(),
                count,
            ),
        keys_distinct(spans_below(prefix, shape, start, count)),
    decreases shape.len(), 0nat, count,
{
    if count > 0 {
        let index = (count - 1) as nat;
        let name = shape[0].name_or_empty();
        let block = element_count(shape) as int;
        let inner = indexed_prefix(prefix, name, index);
        let below = spans_below(prefix, shape, start, index);
        let under = spans_under(prefix, shape, start, index);
        let both = spans_below(prefix, shape, start, count);
        lemma_keys_distinct_below(prefix, shape, start, index);
        lemma_keys_distinct(
            inner,
            shape.drop_first(),
            start + index * block,
            start + index * block + block,
        );
        assert(both == below + under);
        assert forall|k: int| 0 <= k < both.len() implies under_an_index(
            (#[trigger] both[k]).key,
            prefix,
            name,
            count,
        ) by {
            if k < below.len() {
                assert(both[k] == below[k]);
                assert(under_an_index(below[k].key, prefix, name, index));
                let earlier = choose|earlier: nat|
                    earlier < index && #[trigger] extends(
                        below[k].key,
                        indexed_prefix(prefix, name, earlier),
                    );
                assert(earlier < count && extends(
                    both[k].key,
                    indexed_prefix(prefix, name, earlier),
                ));
            } else {
                assert(both[k] == under[k - below.len()]);
                assert(index < count && extends(both[k].key, indexed_prefix(prefix, name, index)));
            }
        }
        assert forall|a: int, b: int| 0 <= a < b < both.len() implies (#[trigger] both[a]).key != (
        #[trigger] both[b]).key by {
            if b < below.len() {
                assert(both[a] == below[a]);
                assert(both[b] == below[b]);
            } else if a >= below.len() {
                assert(both[a] == under[a - below.len()]);
                assert(both[b] == under[b - below.len()]);
            } else {
                assert(both[a] == below[a]);
                assert(both[b] == under[b - below.len()]);
                assert(under_an_index(below[a].key, prefix, name, index));
                let earlier = choose|earlier: nat|
                    earlier < index && #[trigger] extends(
                        below[a].key,
                        indexed_prefix(prefix, name, earlier),
                    );
                lemma_indices_part_keys(both[a].key, both[b].key, prefix, name, earlier, index);
            }
        }
    }
}

/// No two bindings of a flattened tensor have the same key.
pub proof fn lemma_flatten_keys_distinct(buffer: TypedBuffer, shape: Seq<Dimension>)
    ensures
        match flatten_outcome(buffer, shape) {
            Ok(bindings) => forall|a: int, b: int|
                0 <= a < b < bindings.len() ==> (#[trigger] bindings[a]).key != (
                #[trigger] bindings[b]).key,
            Err(_) => true,
        },
{
    let len = buffer.items().len() as int;
    let reached = spans(Seq::empty(), shape, 0, len);
    lemma_keys_distinct(Seq::empty(), shape, 0, len);
    match flatten_outcome(buffer, shape) {
        Ok(bindings) => {
            if !buffer.is_encoded() {
                assert forall|a: int, b: int| 0 <= a < b < bindings.len() implies (
                #[trigger] bindings[a]).key != (#[trigger] bindings[b]).key by {
                    assert(bindings[a].key == reached[a].key);
                    assert(bindings[b].key == reached[b].key);
                }
            }
        },
        Err(_) => {},
    }
}

} // verus!
