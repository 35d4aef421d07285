//! Batching: both lookups walk their input in fixed-size windows, one
//! request per window. The plan of windows is computed and proved here; the
//! caller issues one request per planned window and concatenates what comes
//! back.

use vstd::prelude::*;

verus! {

/// A well-formed plan over an input of length `len` with windows of at most
/// `window`: the windows tile the input from start to end, in order, all
/// full except possibly the last.
pub open spec fn spans_cover(spans: Seq<(usize, usize)>, len: int, window: int) -> bool {
    &&& spans.len() >= 1
    &&& spans[0].0 == 0
    &&& spans.last().1 == len
    &&& forall|k: int|
        0 <= k < spans.len() ==> (#[trigger] spans[k]).0 <= spans[k].1 <= len
    &&& forall|k: int| 0 <= k < spans.len() ==> (#[trigger] spans[k]).1 - spans[k].0 <= window
    &&& forall|k: int|
        0 <= k < spans.len() - 1 ==> (#[trigger] spans[k]).1 - spans[k].0 == window
    &&& forall|k: int| 0 <= k < spans.len() - 1 ==> (#[trigger] spans[k]).1 == spans[k + 1].0
}

/// The windows of the batched walk: full windows while more than one window
/// of input is left, then one final window with the rest — issued even when
/// it is empty, so a zero-length input still gets exactly one request.
pub fn batch_spans(len: usize, window: usize) -> (spans: Vec<(usize, usize)>)
    requires
        window >= 1,
    ensures
        spans_cover(spans@, len as int, window as int),
        len == 0 ==> spans@ =~= seq![(0usize, 0usize)],
        len > 0 ==> spans@.last().0 < len,
{
    let mut spans: Vec<(usize, usize)> = Vec::new();
    let mut index: usize = 0;
    while len - index > window
        invariant
            window >= 1,
            index <= len,
            len > 0 ==> index < len,
            len - index > window ==> index + window <= len,
            spans@.len() == 0 ==> index == 0,
            spans@.len() > 0 ==> spans@[0].0 == 0 && spans@.last().1 == index,
            forall|k: int|
                0 <= k < spans@.len() ==> (#[trigger] spans@[k]).0 <= spans@[k].1 <= index,
            forall|k: int|
                0 <= k < spans@.len() ==> (#[trigger] spans@[k]).1 - spans@[k].0 == window,
            forall|k: int|
                0 <= k < spans@.len() - 1 ==> (#[trigger] spans@[k]).1 == spans@[k + 1].0,
            spans@.len() > 0 ==> spans@.last().1 == index,
        decreases len - index,
    {
        spans.push((index, index + window));
        index = index + window;
    }
    spans.push((index, len));
    spans
}

/// The concatenation of the slices a plan cuts an input into.
pub open spec fn concat_slices<T>(s: Seq<T>, spans: Seq<(usize, usize)>) -> Seq<T>
    decreases spans.len(),
{
    if spans.len() == 0 {
        Seq::<T>::empty()
    } else {
        s.subrange(spans[0].0 as int, spans[0].1 as int) + concat_slices(s, spans.drop_first())
    }
}

/// Batching loses nothing and repeats nothing: the concatenation of the
/// planned windows of any input is the input itself, in order.
pub proof fn lemma_batch_concat<T>(s: Seq<T>, spans: Seq<(usize, usize)>, window: int)
    requires
        spans_cover(spans, s.len() as int, window),
    ensures
        concat_slices(s, spans) == s,
{
    lemma_concat_from(s, spans, window);
    assert(s.subrange(0, s.len() as int) =~= s);
}

/// The inductive heart: a chained plan from `spans[0].0` to the end
/// concatenates to that suffix of the input.
proof fn lemma_concat_from<T>(s: Seq<T>, spans: Seq<(usize, usize)>, window: int)
    requires
        spans.len() >= 1,
        spans.last().1 == s.len(),
        forall|k: int| 0 <= k < spans.len() ==> (#[trigger] spans[k]).0 <= spans[k].1 <= s.len(),
        forall|k: int| 0 <= k < spans.len() - 1 ==> (#[trigger] spans[k]).1 == spans[k + 1].0,
    ensures
        concat_slices(s, spans) == s.subrange(spans[0].0 as int, s.len() as int),
    decreases spans.len(),
{
    if spans.len() == 1 {
        assert(spans.last() == spans[0]);
        assert(spans.drop_first() =~= Seq::<(usize, usize)>::empty());
        assert(concat_slices(s, spans) == s.subrange(spans[0].0 as int, spans[0].1 as int)
            + concat_slices(s, spans.drop_first()));
        assert(s.subrange(spans[0].0 as int, spans[0].1 as int) + Seq::<T>::empty()
            =~= s.subrange(spans[0].0 as int, s.len() as int));
    } else {
        let rest = spans.drop_first();
        assert(rest.last() == spans.last());
        assert forall|k: int| 0 <= k < rest.len() implies (#[trigger] rest[k]).0 <= rest[k].1
            <= s.len() by {
            assert(rest[k] == spans[k + 1]);
        }
        assert forall|k: int| 0 <= k < rest.len() - 1 implies (#[trigger] rest[k]).1 == rest[k
            + 1].0 by {
            assert(rest[k] == spans[k + 1]);
            assert(rest[k + 1] == spans[k + 2]);
        }
        lemma_concat_from(s, rest, window);
        assert(rest[0] == spans[1]);
        assert(spans[0].1 == spans[1].0);
        assert(concat_slices(s, spans) == s.subrange(spans[0].0 as int, spans[0].1 as int)
            + concat_slices(s, rest));
        assert(s.subrange(spans[0].0 as int, spans[0].1 as int) + s.subrange(
            spans[1].0 as int,
            s.len() as int,
        ) =~= s.subrange(spans[0].0 as int, s.len() as int));
    }
}

} // verus!
