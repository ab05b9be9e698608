//! The flattener: from a buffer and a shape to named slices.
//!
//! The traversal walks the axes outermost first. The innermost axis binds
//! the range at hand under a key. Every other axis hands each of its indices
//! a range of its own, as long as all the elements that the axes still to go
//! span together (that axis included), and a prefix that names the index.

use vstd::prelude::*;
use vstd::slice::slice_subrange;
use crate::buffer::TypedBuffer;
use crate::context::{BindingContext, BindingView};
use crate::naming::{indexed_prefix, leaf_key, make_indexed_prefix, make_leaf_key};
use crate::shape::{
    capped, capped_element_count, element_count, lemma_capped_product, path_count, Dimension,
    CEILING,
};

verus! {

/// A key and the range of the buffer that it names.
pub struct Span {
    pub key: Seq<char>,
    pub start: int,
    pub end: int,
}

/// The spans that the traversal of `shape` reaches, in order, when it is
/// entered with `prefix` and the range `[start, end)`.
pub open spec fn spans(prefix: Seq<char>, shape: Seq<Dimension>, start: int, end: int) -> Seq<Span>
    decreases shape.len(), 1nat, 0nat,
{
    if shape.len() == 0 {
        Seq::empty()
    } else if shape.len() == 1 {
        seq![Span { key: leaf_key(prefix, shape[0].name_or_empty()), start, end }]
    } else {
        spans_below(prefix, shape, start, shape[0].size as nat)
    }
}

/// The spans under the first `count` indices of the outermost axis of
/// `shape`.
pub open spec fn spans_below(prefix: Seq<char>, shape: Seq<Dimension>, start: int, count: nat) -> Seq<Span>
    decreases shape.len(), 0nat, count,
{
    if shape.len() < 2 || count == 0 {
        Seq::empty()
    } else {
        let index = (count - 1) as nat;
        spans_below(prefix, shape, start, index) + spans_under(prefix, shape, start, index)
    }
}

/// The spans under index `index` of the outermost axis of `shape`.
pub open spec fn spans_under(prefix: Seq<char>, shape: Seq<Dimension>, start: int, index: nat) -> Seq<Span>
    recommends
        shape.len() >= 2,
    decreases shape.len(), 0nat, 0nat,
    when shape.len() >= 2
{
    let block = element_count(shape) as int;
    spans(
        indexed_prefix(prefix, shape[0].name_or_empty(), index),
        shape.drop_first(),
        start + index * block,
        start + index * block + block,
    )
}

/// Whether a span lies inside a buffer of `len` elements.
pub open spec fn span_fits(span: Span, len: int) -> bool {
    0 <= span.start <= span.end <= len
}

/// Whether every span lies inside a buffer of `len` elements.
pub open spec fn all_fit(spans: Seq<Span>, len: int) -> bool {
    forall|k: int| 0 <= k < spans.len() ==> span_fits(#[trigger] spans[k], len)
}

/// The bindings that the spans cut from the buffer.
pub open spec fn bindings_of(buffer: TypedBuffer, spans: Seq<Span>) -> Seq<BindingView> {
    Seq::new(
        spans.len(),
        |k: int| BindingView { key: spans[k].key, values: buffer.slice_view(spans[k].start, spans[k].end) },
    )
}

/// The bindings of two runs of spans are the bindings of the first run, then
/// those of the second.
pub proof fn lemma_bindings_of_concat(buffer: TypedBuffer, first: Seq<Span>, second: Seq<Span>)
    ensures
        bindings_of(buffer, first + second) == bindings_of(buffer, first) + bindings_of(buffer, second),
{
    assert(bindings_of(buffer, first + second) =~= bindings_of(buffer, first) + bindings_of(
        buffer,
        second,
    ));
}

/// Two runs of spans fit exactly when each of them fits.
pub proof fn lemma_all_fit_concat(first: Seq<Span>, second: Seq<Span>, len: int)
    ensures
        all_fit(first + second, len) == (all_fit(first, len) && all_fit(second, len)),
{
    let both = first + second;
    if all_fit(both, len) {
        assert forall|k: int| 0 <= k < first.len() implies span_fits(#[trigger] first[k], len) by {
            assert(both[k] == first[k]);
        }
        assert forall|k: int| 0 <= k < second.len() implies span_fits(#[trigger] second[k], len) by {
            assert(both[k + first.len()] == second[k]);
        }
    }
    if all_fit(first, len) && all_fit(second, len) {
        assert forall|k: int| 0 <= k < both.len() implies span_fits(#[trigger] both[k], len) by {
            if k < first.len() {
                assert(both[k] == first[k]);
            } else {
                assert(both[k] == second[k - first.len()]);
            }
        }
    }
}

/// The spans under more indices fit only if those under fewer do.
pub proof fn lemma_all_fit_below(
    prefix: Seq<char>,
    shape: Seq<Dimension>,
    start: int,
    fewer: nat,
    more: nat,
    len: int,
)
    requires
        fewer <= more,
        all_fit(spans_below(prefix, shape, start, more), len),
    ensures
        all_fit(spans_below(prefix, shape, start, fewer), len),
    decreases more,
{
    if fewer < more && shape.len() >= 2 {
        let index = (more - 1) as nat;
        lemma_all_fit_concat(
            spans_below(prefix, shape, start, index),
            spans_under(prefix, shape, start, index),
            len,
        );
        lemma_all_fit_below(prefix, shape, start, fewer, index, len);
    }
}

/// Why a buffer and a shape could not be flattened.
#[derive(Clone, Copy, Debug, PartialEq, Eq, Structural)]
pub enum FlattenError {
    /// The shape does not span as many elements as the buffer holds.
    ShapeMismatch,
    /// The shape spans as many elements as the buffer holds, and still the
    /// traversal reaches a range that leaves the buffer.
    OutOfRange,
}

/// Walks the axes of `remaining_shape` over a range of the buffer and adds a
/// binding to `map` for each span reached, in order. It says whether every
/// span lies inside the buffer, and stops at the first that does not.
///
/// It counts positions up to the ceiling only, which lies above every
/// buffer's length: `start` and `end` are the true positions `true_start` and
/// `true_end` held down to it.
fn visit_tensor(
    map: &mut BindingContext,
    buffer: &TypedBuffer,
    remaining_shape: &[Dimension],
    prefix_str: String,
    start: u128,
    end: u128,
    Ghost(true_start): Ghost<int>,
    Ghost(true_end): Ghost<int>,
) -> (fit: bool)
    requires
        0 <= true_start,
        0 <= true_end,
        start as int == capped(true_start),
        end as int == capped(true_end),
    ensures
        fit == all_fit(
            spans(prefix_str@, remaining_shape@, true_start, true_end),
            buffer.items().len() as int,
        ),
        fit ==> final(map)@ == old(map)@ + bindings_of(
            *buffer,
            spans(prefix_str@, remaining_shape@, true_start, true_end),
        ),
    decreases remaining_shape@.len(),
{
    let ghost len = buffer.items().len() as int;
    let ghost shape = remaining_shape@;
    let ghost before = map@;
    if remaining_shape.len() == 0 {
        assert(map@ =~= before + bindings_of(*buffer, Seq::<Span>::empty()));
        return true;
    }
    let dim = &remaining_shape[0];
    let name = dim.key_name();
    if remaining_shape.len() == 1 {
        let ghost only = Span {
            key: leaf_key(prefix_str@, shape[0].name_or_empty()),
            start: true_start,
            end: true_end,
        };
        assert(spans(prefix_str@, shape, true_start, true_end) =~= seq![only]);
        assert(seq![only][0] == only);
        if start <= end && end <= buffer.len() as u128 {
            let key = make_leaf_key(prefix_str.as_str(), name.as_str());
            let v = buffer.slice(start as usize, end as usize);
            map.insert(key, v);
            assert(map@ =~= before + bindings_of(*buffer, seq![only]));
            return true;
        } else {
            assert(!span_fits(seq![only][0], len));
            return false;
        }
    }
    let rest = slice_subrange(remaining_shape, 1, remaining_shape.len());
    assert(rest@ =~= shape.drop_first());
    let num: u64 = dim.size;
    let buf_size: u128 = capped_element_count(remaining_shape);
    let ghost block = element_count(shape) as int;
    let mut i: u64 = 0;
    assert(map@ =~= before + bindings_of(*buffer, Seq::<Span>::empty()));
    while i < num
        invariant
            i <= num,
            before == old(map)@,
            num == shape[0].size,
            shape == remaining_shape@,
            shape.len() >= 2,
            rest@ == shape.drop_first(),
            name@ == shape[0].name_or_empty(),
            block == element_count(shape) as int,
            buf_size as int == capped(block),
            len == buffer.items().len() as int,
            0 <= true_start,
            start as int == capped(true_start),
            all_fit(spans_below(prefix_str@, shape, true_start, i as nat), len),
            map@ == before + bindings_of(*buffer, spans_below(prefix_str@, shape, true_start, i as nat)),
        decreases num - i,
    {
        let new_prefix = make_indexed_prefix(prefix_str.as_str(), name.as_str(), i);
        let ghost sub_true_start = true_start + i as int * block;
        let ghost sub_true_end = sub_true_start + block;
        proof {
            lemma_capped_product(block, i as int);
            assert(block * i as int == i as int * block) by (nonlinear_arith);
            assert(capped(block) * i as int == i as int * capped(block)) by (nonlinear_arith);
            assert(i as int * capped(block) <= 0xffff_ffff_ffff_ffff * CEILING as int)
                by (nonlinear_arith)
                requires
                    0 <= i as int <= 0xffff_ffff_ffff_ffff,
                    0 <= capped(block) <= CEILING as int,
            ;
            assert(0 <= i as int * block) by (nonlinear_arith)
                requires
                    0 <= i as int,
                    0 <= block,
            ;
        }
        let wide: u128 = (i as u128) * buf_size;
        let offset: u128 = if wide < CEILING {
            wide
        } else {
            CEILING
        };
        let sum: u128 = start + offset;
        let start_at: u128 = if sum < CEILING {
            sum
        } else {
            CEILING
        };
        let reach: u128 = start_at + buf_size;
        let end_at: u128 = if reach < CEILING {
            reach
        } else {
            CEILING
        };
        let ghost below = spans_below(prefix_str@, shape, true_start, i as nat);
        let ghost under = spans_under(prefix_str@, shape, true_start, i as nat);
        let fit = visit_tensor(
            map,
            buffer,
            rest,
            new_prefix,
            start_at,
            end_at,
            Ghost(sub_true_start),
            Ghost(sub_true_end),
        );
        proof {
            assert(spans_below(prefix_str@, shape, true_start, (i + 1) as nat) == below + under);
            lemma_all_fit_concat(below, under, len);
            lemma_bindings_of_concat(*buffer, below, under);
        }
        if !fit {
            proof {
                if all_fit(spans(prefix_str@, shape, true_start, true_end), len) {
                    lemma_all_fit_below(
                        prefix_str@,
                        shape,
                        true_start,
                        (i + 1) as nat,
                        num as nat,
                        len,
                    );
                }
            }
            return false;
        }
        assert(map@ =~= before + bindings_of(*buffer, below + under));
        i = i + 1;
    }
    true
}

/// What flattening a buffer against a shape gives.
///
/// Encoded media is passed over: no binding, no error. A buffer of numbers
/// must hold as many elements as the shape spans, and every span of the
/// traversal must lie inside it; then each span binds its slice.
pub open spec fn flatten_outcome(buffer: TypedBuffer, shape: Seq<Dimension>) -> Result<
    Seq<BindingView>,
    FlattenError,
> {
    let len = buffer.items().len() as int;
    let reached = spans(Seq::empty(), shape, 0, len);
    if buffer.is_encoded() {
        Ok(Seq::empty())
    } else if element_count(shape) != len {
        Err(FlattenError::ShapeMismatch)
    } else if !all_fit(reached, len) {
        Err(FlattenError::OutOfRange)
    } else {
        Ok(bindings_of(buffer, reached))
    }
}

/// A result of flattening as mathematics: the bindings, or the error.
pub open spec fn outcome_view(result: Result<BindingContext, FlattenError>) -> Result<
    Seq<BindingView>,
    FlattenError,
> {
    match result {
        Ok(context) => Ok(context@),
        Err(error) => Err(error),
    }
}

/// Flattens a buffer against a shape into the bindings of one tensor.
///
/// When it succeeds on a buffer of numbers and a shape with at least one
/// axis, there is one binding for each path through all axes but the
/// innermost, and each holds as many numbers as the innermost axis is long.
pub fn flatten(buffer: &TypedBuffer, shape: &[Dimension]) -> (result: Result<
    BindingContext,
    FlattenError,
>)
    ensures
        outcome_view(result) == flatten_outcome(*buffer, shape@),
        result is Ok && !buffer.is_encoded() && shape@.len() >= 1 ==> {
            &&& result->Ok_0@.len() == path_count(shape@)
            &&& forall|k: int|
                0 <= k < result->Ok_0@.len() ==> (#[trigger] result->Ok_0@[k]).values.items.len()
                    == shape@.last().size
        },
{
    let mut context = BindingContext::new();
    if buffer.encoded() {
        return Ok(context);
    }
    let len = buffer.len();
    let count = capped_element_count(shape);
    if count != len as u128 {
        return Err(FlattenError::ShapeMismatch);
    }
    let fit = visit_tensor(
        &mut context,
        buffer,
        shape,
        String::new(),
        0,
        len as u128,
        Ghost(0),
        Ghost(len as int),
    );
    if !fit {
        return Err(FlattenError::OutOfRange);
    }
    proof {
        let reached = spans(Seq::empty(), shape@, 0, len as int);
        assert(context@ =~= bindings_of(*buffer, reached));
        if shape@.len() >= 1 {
            lemma_span_count(Seq::empty(), shape@, 0, len as int);
            lemma_fit_lengths(Seq::empty(), shape@, len as int);
            assert forall|k: int| 0 <= k < context@.len() implies (#[trigger] context@[k]).values.items.len()
                == shape@.last().size by {
                assert(span_fits(reached[k], len as int));
            }
        }
    }
    Ok(context)
}

/// A shape spans as many elements as it has paths through its outer axes,
/// times the length of its innermost axis.
pub proof fn lemma_element_count_split(shape: Seq<Dimension>)
    requires
        shape.len() >= 1,
    ensures
        element_count(shape) == path_count(shape) * shape.last().size,
    decreases shape.len(),
{
    if shape.len() == 1 {
        assert(shape.drop_first() =~= Seq::<Dimension>::empty());
        assert(shape.drop_last() =~= Seq::<Dimension>::empty());
        let rest = element_count(shape.drop_first()) as int;
        let paths = element_count(shape.drop_last()) as int;
        let last = shape[0].size as int;
        assert(rest == 1);
        assert(paths == 1);
        assert(last * rest == paths * last) by (nonlinear_arith)
            requires
                rest == 1,
                paths == 1,
        ;
    } else {
        let rest = shape.drop_first();
        lemma_element_count_split(rest);
        assert(shape.drop_last().drop_first() =~= rest.drop_last());
        assert(rest.last() == shape.last());
        assert(shape.drop_last()[0] == shape[0]);
        let first = shape[0].size as int;
        let paths = path_count(rest) as int;
        let last = shape.last().size as int;
        assert(element_count(rest) as int == paths * last);
        assert(element_count(shape) as int == first * element_count(rest) as int);
        assert(path_count(shape) as int == first * paths);
        assert(first * (paths * last) == (first * paths) * last) by (nonlinear_arith);
    }
}

/// The traversal reaches one span for each path through all axes but the
/// innermost, whatever range it is entered with.
pub proof fn lemma_span_count(prefix: Seq<char>, shape: Seq<Dimension>, start: int, end: int)
    requires
        shape.len() >= 1,
    ensures
        spans(prefix, shape, start, end).len() == path_count(shape),
    decreases shape.len(), 1nat, 0nat,
{
    if shape.len() == 1 {
        assert(shape.drop_last() =~= Seq::<Dimension>::empty());
    } else {
        lemma_span_count_below(prefix, shape, start, shape[0].size as nat);
        assert(shape.drop_last().drop_first() =~= shape.drop_first().drop_last());
        assert(shape.drop_last()[0] == shape[0]);
    }
}

/// Under `count` indices of the outermost axis the traversal reaches `count`
/// times the spans that it reaches under one.
pub proof fn lemma_span_count_below(prefix: Seq<char>, shape: Seq<Dimension>, start: int, count: nat)
    requires
        shape.len() >= 2,
    ensures
        spans_below(prefix, shape, start, count).len() == count * path_count(shape.drop_first()),
    decreases shape.len(), 0nat, count,
{
    let paths = path_count(shape.drop_first()) as int;
    if count == 0 {
        assert(0 * paths == 0) by (nonlinear_arith);
    } else {
        let index = (count - 1) as nat;
        let block = element_count(shape) as int;
        lemma_span_count_below(prefix, shape, start, index);
        lemma_span_count(
            indexed_prefix(prefix, shape[0].name_or_empty(), index),
            shape.drop_first(),
            start + index * block,
            start + index * block + block,
        );
        let below = spans_below(prefix, shape, start, index);
        let under = spans_under(prefix, shape, start, index);
        assert(spans_below(prefix, shape, start, count) == below + under);
        assert(below.len() as int == index * paths);
        assert(under.len() as int == paths);
        assert(index * paths + paths == count * paths) by (nonlinear_arith)
            requires
                index + 1 == count,
        ;
    }
}

/// Where the shape spans at least one element and the range entered is not
/// empty, the traversal reaches a span, and every span that it reaches starts
/// at or after the start of the range and is not empty.
pub proof fn lemma_spans_advance(prefix: Seq<char>, shape: Seq<Dimension>, start: int, end: int)
    requires
        shape.len() >= 1,
        element_count(shape) > 0,
        start < end,
    ensures
        spans(prefix, shape, start, end).len() > 0,
        forall|k: int|
            0 <= k < spans(prefix, shape, start, end).len() ==> {
                let span = #[trigger] spans(prefix, shape, start, end)[k];
                start <= span.start < span.end
            },
    decreases shape.len(), 1nat, 0nat,
{
    if shape.len() >= 2 {
        let first = shape[0].size as nat;
        let rest = element_count(shape.drop_first()) as int;
        assert(first > 0 && rest > 0) by (nonlinear_arith)
            requires
                first * rest > 0,
                rest >= 0,
        ;
        lemma_spans_advance_below(prefix, shape, start, first);
    }
}

/// The same under the first `count` indices of the outermost axis.
pub proof fn lemma_spans_advance_below(prefix: Seq<char>, shape: Seq<Dimension>, start: int, count: nat)
    requires
        shape.len() >= 2,
        element_count(shape) > 0,
    ensures
        count > 0 ==> spans_below(prefix, shape, start, count).len() > 0,
        forall|k: int|
            0 <= k < spans_below(prefix, shape, start, count).len() ==> {
                let span = #[trigger] spans_below(prefix, shape, start, count)[k];
                start <= span.start < span.end
            },
    decreases shape.len(), 0nat, count,
{
    if count > 0 {
        let index = (count - 1) as nat;
        let block = element_count(shape) as int;
        let first = shape[0].size as int;
        let rest = element_count(shape.drop_first()) as int;
        assert(rest > 0) by (nonlinear_arith)
            requires
                first * rest > 0,
                first >= 0,
        ;
        assert(index * block >= 0) by (nonlinear_arith)
            requires
                index >= 0,
                block >= 0,
        ;
        lemma_spans_advance_below(prefix, shape, start, index);
        lemma_spans_advance(
            indexed_prefix(prefix, shape[0].name_or_empty(), index),
            shape.drop_first(),
            start + index * block,
            start + index * block + block,
        );
        let below = spans_below(prefix, shape, start, index);
        let under = spans_under(prefix, shape, start, index);
        assert forall|k: int| 0 <= k < (below + under).len() implies {
            let span = #[trigger] (below + under)[k];
            start <= span.start < span.end
        } by {
            if k < below.len() {
                assert((below + under)[k] == below[k]);
            } else {
                assert((below + under)[k] == under[k - below.len()]);
            }
        }
    }
}

/// Where the outermost of several axes has length one, the traversal of the
/// whole buffer is the traversal of the whole buffer by the other axes, under
/// the prefix of index 0.
pub proof fn lemma_single_first_axis(prefix: Seq<char>, shape: Seq<Dimension>, len: int)
    requires
        shape.len() >= 2,
        shape[0].size == 1,
        element_count(shape) == len,
    ensures
        element_count(shape.drop_first()) == len,
        spans(prefix, shape, 0, len) == spans(
            indexed_prefix(prefix, shape[0].name_or_empty(), 0),
            shape.drop_first(),
            0,
            len,
        ),
{
    let first = shape[0].size as int;
    let inner = element_count(shape.drop_first()) as int;
    let block = element_count(shape) as int;
    assert(inner == len) by (nonlinear_arith)
        requires
            first * inner == len,
            first == 1,
    ;
    assert(0 + 0 * block == 0) by (nonlinear_arith);
    let only = spans_under(prefix, shape, 0, 0);
    assert(spans_below(prefix, shape, 0, 0) =~= Seq::<Span>::empty());
    assert(spans_below(prefix, shape, 0, 1) == spans_below(prefix, shape, 0, 0) + only);
    assert(spans_below(prefix, shape, 0, 1) =~= only);
}

/// Where the shape has several axes and spans exactly a buffer that is not
/// empty, and every span lies inside the buffer, the outermost axis has
/// length one.
pub proof fn lemma_fit_first_axis(prefix: Seq<char>, shape: Seq<Dimension>, len: int)
    requires
        shape.len() >= 2,
        element_count(shape) == len,
        len > 0,
        all_fit(spans(prefix, shape, 0, len), len),
    ensures
        shape[0].size == 1,
{
    let first = shape[0].size as nat;
    let rest = shape.drop_first();
    let name = shape[0].name_or_empty();
    let inner = element_count(rest) as int;
    let block = element_count(shape) as int;
    assert(block == first * inner);
    assert(first > 0 && inner > 0) by (nonlinear_arith)
        requires
            first * inner > 0,
            inner >= 0,
    ;
    if first >= 2 {
        lemma_all_fit_below(prefix, shape, 0, 2, first, len);
        let second = spans_under(prefix, shape, 0, 1);
        assert(spans_below(prefix, shape, 0, 2) == spans_below(prefix, shape, 0, 1) + second);
        lemma_all_fit_concat(spans_below(prefix, shape, 0, 1), second, len);
        assert(0 + 1 * block == len) by (nonlinear_arith)
            requires
                block == len,
        ;
        assert(second == spans(indexed_prefix(prefix, name, 1), rest, len, len + len));
        lemma_spans_advance(indexed_prefix(prefix, name, 1), rest, len, len + len);
        assert(second.len() > 0);
        assert(span_fits(second[0], len));
        assert(second[0].start >= len);
        assert(false);
    }
}

/// Where the shape spans exactly the buffer and every span lies inside the
/// buffer, every span is as long as the innermost axis.
pub proof fn lemma_fit_lengths(prefix: Seq<char>, shape: Seq<Dimension>, len: int)
    requires
        shape.len() >= 1,
        element_count(shape) == len,
        all_fit(spans(prefix, shape, 0, len), len),
    ensures
        forall|k: int|
            0 <= k < spans(prefix, shape, 0, len).len() ==> {
                let span = #[trigger] spans(prefix, shape, 0, len)[k];
                span.end - span.start == shape.last().size
            },
    decreases shape.len(),
{
    let reached = spans(prefix, shape, 0, len);
    if shape.len() == 1 {
        assert(shape.drop_first() =~= Seq::<Dimension>::empty());
        let rest = element_count(shape.drop_first()) as int;
        let size = shape[0].size as int;
        assert(rest == 1);
        assert(size * rest == size) by (nonlinear_arith)
            requires
                rest == 1,
        ;
        assert(shape.last() == shape[0]);
    } else if len == 0 {
        lemma_span_count(prefix, shape, 0, len);
        lemma_element_count_split(shape);
        assert forall|k: int| 0 <= k < reached.len() implies {
            let span = #[trigger] reached[k];
            span.end - span.start == shape.last().size
        } by {
            assert(span_fits(reached[k], len));
            let paths = path_count(shape) as int;
            let last = shape.last().size as int;
            assert(last == 0) by (nonlinear_arith)
                requires
                    paths * last == 0,
                    paths > 0,
            ;
        }
    } else {
        let rest = shape.drop_first();
        lemma_fit_first_axis(prefix, shape, len);
        lemma_single_first_axis(prefix, shape, len);
        lemma_fit_lengths(indexed_prefix(prefix, shape[0].name_or_empty(), 0), rest, len);
        assert(rest.last() == shape.last());
    }
}

} // verus!
