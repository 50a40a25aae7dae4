//! Splitting a long text into overlapping windows of words.

use vstd::prelude::*;
use crate::text::{
    is_word, join, join_words, lemma_tokens_are_words, lemma_tokens_of_join, space,
    split_whitespace, tokens,
};

verus! {

/// How many windows of `size` words, each starting `size - overlap` words
/// after the one before, it takes to reach the last of `n` words.
pub open spec fn window_count(n: int, size: int, overlap: int) -> int
    recommends
        size > overlap >= 0,
        n > size,
{
    (n - size + (size - overlap) - 1) / (size - overlap) + 1
}

/// Index of the first word of window `k`.
pub open spec fn window_start(k: int, size: int, overlap: int) -> int {
    k * (size - overlap)
}

/// Index behind the last word of window `k` among `n` words: no window
/// reaches past the last word.
pub open spec fn window_end(k: int, n: int, size: int, overlap: int) -> int {
    if window_start(k, size, overlap) + size < n {
        window_start(k, size, overlap) + size
    } else {
        n
    }
}

/// The words of window `k`.
pub open spec fn window_words(words: Seq<Seq<char>>, k: int, size: int, overlap: int) -> Seq<
    Seq<char>,
> {
    words.subrange(
        window_start(k, size, overlap),
        window_end(k, words.len() as int, size, overlap),
    )
}

/// The chunks of `text`: the text itself where it has at most `size` words,
/// else its windows, each written with single spaces between its words.
pub open spec fn chunks(text: Seq<char>, size: int, overlap: int) -> Seq<Seq<char>> {
    let words = tokens(text);
    if words.len() <= size {
        seq![text]
    } else {
        Seq::new(
            window_count(words.len() as int, size, overlap) as nat,
            |k: int| join(window_words(words, k, size, overlap), space()),
        )
    }
}

/// A text of more than `size` words has at least one window.
proof fn lemma_window_count_positive(n: int, size: int, overlap: int)
    requires
        size > overlap >= 0,
        n > size,
    ensures
        window_count(n, size, overlap) >= 1,
{
    vstd::arithmetic::div_mod::lemma_div_pos_is_pos(
        n - size + (size - overlap) - 1,
        size - overlap,
    );
}

/// With `k` windows written, the next one starting at `k * step` and being
/// the first to reach the last of `n` words, the number of windows is `k + 1`.
proof fn lemma_last_window(k: int, n: int, size: int, overlap: int)
    requires
        size > overlap >= 0,
        n > size,
        k >= 0,
        window_start(k, size, overlap) + size >= n,
        k > 0 ==> window_start(k - 1, size, overlap) + size < n,
    ensures
        window_count(n, size, overlap) == k + 1,
{
    let step = size - overlap;
    let d = n - size + step - 1;
    assert(k * step <= d && d < (k + 1) * step) by (nonlinear_arith)
        requires
            step > 0,
            d == n - size + step - 1,
            n > size,
            k >= 0,
            k * step + size >= n,
            k > 0 ==> (k - 1) * step + size < n,
    ;
    vstd::arithmetic::div_mod::lemma_div_multiples_vanish_fancy(k, d - k * step, step);
    assert(step * k + (d - k * step) == d) by (nonlinear_arith);
}

/// A window that is not the first to reach the last word is not the last.
proof fn lemma_more_windows(k: int, n: int, size: int, overlap: int)
    requires
        size > overlap >= 0,
        n > size,
        k >= 0,
        window_start(k, size, overlap) + size < n,
    ensures
        k + 1 < window_count(n, size, overlap),
        window_start(k + 1, size, overlap) == window_start(k, size, overlap) + (size - overlap),
{
    let step = size - overlap;
    let d = n - size + step - 1;
    assert((k + 1) * step == k * step + step) by (nonlinear_arith);
    assert((k + 1) * step <= d);
    vstd::arithmetic::div_mod::lemma_div_is_ordered((k + 1) * step, d, step);
    vstd::arithmetic::div_mod::lemma_div_multiples_vanish(k + 1, step);
}

/// The windows of a text of more than `size` words lie inside the text, each
/// but the last is full, and the last one ends with the last word.
pub proof fn lemma_window_bounds(k: int, n: int, size: int, overlap: int)
    requires
        size > overlap >= 0,
        n > size,
        0 <= k < window_count(n, size, overlap),
    ensures
        0 <= window_start(k, size, overlap) < window_end(k, n, size, overlap) <= n,
        window_end(k, n, size, overlap) - window_start(k, size, overlap) <= size,
        k + 1 < window_count(n, size, overlap) ==> window_start(k, size, overlap) + size < n,
        k + 1 == window_count(n, size, overlap) ==> window_end(k, n, size, overlap) == n,
{
    let step = size - overlap;
    let d = n - size + step - 1;
    vstd::arithmetic::div_mod::lemma_fundamental_div_mod(d, step);
    let q = d / step;
    assert(k * step <= q * step) by (nonlinear_arith)
        requires
            0 <= k <= q,
            step > 0,
    ;
    assert(0 <= k * step) by (nonlinear_arith)
        requires
            0 <= k,
            step > 0,
    ;
    if k + 1 < window_count(n, size, overlap) {
        assert((k + 1) * step <= q * step) by (nonlinear_arith)
            requires
                0 <= k + 1 <= q,
                step > 0,
        ;
        assert((k + 1) * step == k * step + step) by (nonlinear_arith);
    } else {
        assert(q * step == step * q) by (nonlinear_arith);
    }
}

/// For every text there is at least one chunk, no chunk has more than `size`
/// words, every chunk but the last has exactly `size` words, and each chunk
/// but the first begins with the last `overlap` words of the chunk before it
/// and goes on behind them. The last chunk ends with the last word of the
/// text.
pub proof fn lemma_chunks_overlap(text: Seq<char>, size: int, overlap: int)
    requires
        size > overlap >= 0,
    ensures
        chunks(text, size, overlap).len() >= 1,
        forall|k: int|
            0 <= k < chunks(text, size, overlap).len() ==> tokens(
                #[trigger] chunks(text, size, overlap)[k],
            ).len() <= size,
        forall|k: int|
            #![trigger chunks(text, size, overlap)[k]]
            0 <= k && k + 1 < chunks(text, size, overlap).len() ==> {
                let here = tokens(chunks(text, size, overlap)[k]);
                let next = tokens(chunks(text, size, overlap)[k + 1]);
                &&& here.len() == size
                &&& next.len() > overlap
                &&& here.skip(size - overlap) == next.take(overlap)
            },
        tokens(text).len() > size ==> forall|k: int|
            0 <= k < chunks(text, size, overlap).len() ==> tokens(
                #[trigger] chunks(text, size, overlap)[k],
            ) == window_words(tokens(text), k, size, overlap),
        tokens(text).len() > 0 ==> tokens(chunks(text, size, overlap).last()).last() == tokens(
            text,
        ).last(),
{
    let words = tokens(text);
    let n = words.len() as int;
    let all = chunks(text, size, overlap);
    if n > size {
        lemma_window_count_positive(n, size, overlap);
        lemma_tokens_are_words(text);
        assert forall|k: int| 0 <= k < all.len() implies tokens(#[trigger] all[k]) == window_words(
            words,
            k,
            size,
            overlap,
        ) by {
            lemma_window_bounds(k, n, size, overlap);
            let part = window_words(words, k, size, overlap);
            assert forall|i: int| 0 <= i < part.len() implies is_word(#[trigger] part[i]) by {
                assert(part[i] == words[window_start(k, size, overlap) + i]);
            }
            lemma_tokens_of_join(part);
        }
        assert forall|k: int| 0 <= k < all.len() implies tokens(#[trigger] all[k]).len()
            <= size by {
            lemma_window_bounds(k, n, size, overlap);
        }
        assert forall|k: int|
            #![trigger all[k]]
            0 <= k && k + 1 < all.len() implies {
            let here = tokens(all[k]);
            let next = tokens(all[k + 1]);
            &&& here.len() == size
            &&& next.len() > overlap
            &&& here.skip(size - overlap) == next.take(overlap)
        } by {
            lemma_window_bounds(k, n, size, overlap);
            lemma_window_bounds(k + 1, n, size, overlap);
            lemma_more_windows(k, n, size, overlap);
            assert(tokens(all[k + 1]) == window_words(words, k + 1, size, overlap));
            assert(tokens(all[k]).skip(size - overlap) =~= tokens(all[k + 1]).take(overlap));
        }
        lemma_window_bounds(all.len() - 1, n, size, overlap);
        assert(tokens(all.last()) == window_words(words, all.len() - 1, size, overlap));
    } else {
        assert(all =~= seq![text]);
        assert forall|k: int|
            #![trigger all[k]]
            0 <= k && k + 1 < all.len() implies {
            let here = tokens(all[k]);
            let next = tokens(all[k + 1]);
            &&& here.len() == size
            &&& next.len() > overlap
            &&& here.skip(size - overlap) == next.take(overlap)
        } by {
        }
    }
}

/// Splits `text` into chunks of at most `chunk_size` words, each window
/// starting `chunk_size - overlap` words after the one before. A text of at
/// most `chunk_size` words comes back as it is.
pub fn chunk_text(text: &str, chunk_size: usize, overlap: usize) -> (result: Vec<String>)
    requires
        chunk_size > overlap,
    ensures
        result.deep_view() == chunks(text@, chunk_size as int, overlap as int),
        result.len() >= 1,
{
    let words = split_whitespace(text);
    if words.len() <= chunk_size {
        let mut single: Vec<String> = Vec::new();
        single.push(text.to_owned());
        assert(single.deep_view() =~= seq![text@]);
        return single;
    }
    let n = words.len();
    let step = chunk_size - overlap;
    let ghost spec_chunks = chunks(text@, chunk_size as int, overlap as int);
    let mut result: Vec<String> = Vec::new();
    let mut start: usize = 0;
    proof {
        assert(window_start(0, chunk_size as int, overlap as int) == 0) by (nonlinear_arith);
        lemma_window_count_positive(n as int, chunk_size as int, overlap as int);
    }
    loop
        invariant_except_break
            start == window_start(result.len() as int, chunk_size as int, overlap as int),
            start < n,
            result.len() < spec_chunks.len(),
            result.len() > 0 ==> window_start(
                result.len() - 1,
                chunk_size as int,
                overlap as int,
            ) + chunk_size < n,
        invariant
            n == words.len(),
            n > chunk_size > overlap,
            step == chunk_size - overlap,
            words.deep_view() == tokens(text@),
            spec_chunks == chunks(text@, chunk_size as int, overlap as int),
            forall|k: int| 0 <= k < result.len() ==> result[k]@ == #[trigger] spec_chunks[k],
        ensures
            result.len() == spec_chunks.len(),
        decreases n - start,
    {
        let ghost k = result.len() as int;
        let last = n - start <= chunk_size;
        let end = if last {
            n
        } else {
            start + chunk_size
        };
        assert(end == window_end(k, n as int, chunk_size as int, overlap as int));
        let chunk = join_words(&words, start, end);
        result.push(chunk);
        if last {
            proof {
                lemma_last_window(k, n as int, chunk_size as int, overlap as int);
            }
            break ;
        }
        proof {
            lemma_more_windows(k, n as int, chunk_size as int, overlap as int);
        }
        start += step;
    }
    assert(result.deep_view() =~= spec_chunks);
    result
}

} // verus!
