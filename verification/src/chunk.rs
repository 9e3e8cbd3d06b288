//! Fixed-size, overlapping chunking of a text.
//!
//! The text is cut into windows of `chunk_size` characters. A window starts
//! `step` characters after the previous one, where `step` is `chunk_size`
//! minus the overlap, and the overlap is clamped to at most half of
//! `chunk_size`. Each chunk holds its window with the surrounding whitespace
//! removed. A text shorter than one window becomes a single chunk.
//!
//! ```text
//!   Chunk 1
//! ===============>
//!                  Chunk 2
//!           =================>
//!           ^    ^             Chunk 3
//!           |    |     =================>
//!           |____|
//!           overlap
//! ```

use vstd::prelude::*;

use crate::text::{
    chars_of, has_non_whitespace, is_blank, string_from_chars, trim, trim_bounds, trim_is_inner_piece,
    unicode_whitespace,
};

verus! {

/// One piece of the chunked text: its position among the chunks and its
/// trimmed content.
#[derive(Debug)]
pub struct Chunk {
    pub index: usize,
    pub content: String,
}

/// The overlap actually used: the requested one, clamped to half a chunk.
pub open spec fn effective_overlap(chunk_size: int, overlap: int) -> int {
    if chunk_size / 2 <= overlap {
        chunk_size / 2
    } else {
        overlap
    }
}

/// The distance between the starts of two consecutive windows.
pub open spec fn window_step(chunk_size: int, overlap: int) -> int {
    chunk_size - effective_overlap(chunk_size, overlap)
}

/// The number of chunks that a text of `len` characters is cut into.
pub open spec fn window_count(len: int, chunk_size: int, overlap: int) -> int {
    if len < chunk_size {
        1
    } else {
        (len - chunk_size) / window_step(chunk_size, overlap) + 1
    }
}

/// The first character of window `k`.
pub open spec fn window_start(k: int, chunk_size: int, overlap: int) -> int {
    k * window_step(chunk_size, overlap)
}

/// Window `k` of `text`: `chunk_size` characters from its start.
pub open spec fn window(text: Seq<char>, k: int, chunk_size: int, overlap: int) -> Seq<char> {
    text.subrange(
        window_start(k, chunk_size, overlap),
        window_start(k, chunk_size, overlap) + chunk_size,
    )
}

/// The content of chunk `k`: the whole text trimmed when it is shorter than
/// one window, else window `k` trimmed.
pub open spec fn chunk_content(text: Seq<char>, k: int, chunk_size: int, overlap: int) -> Seq<
    char,
> {
    if text.len() < chunk_size {
        trim(text)
    } else {
        trim(window(text, k, chunk_size, overlap))
    }
}

/// The contents of all chunks of `text`, in order.
pub open spec fn chunk_contents(text: Seq<char>, chunk_size: int, overlap: int) -> Seq<Seq<char>> {
    Seq::new(
        window_count(text.len() as int, chunk_size, overlap) as nat,
        |k: int| chunk_content(text, k, chunk_size, overlap),
    )
}

/// The inputs that can be chunked: a non-empty text, a non-zero chunk size,
/// and, where the text fills at least one window, no window made of
/// whitespace alone.
pub open spec fn chunkable(text: Seq<char>, chunk_size: int, overlap: int) -> bool {
    &&& text.len() > 0
    &&& chunk_size > 0
    &&& text.len() >= chunk_size ==> forall|k: int|
        0 <= k < window_count(text.len() as int, chunk_size, overlap) ==> !is_blank(
            #[trigger] window(text, k, chunk_size, overlap),
        )
}

/// The contents of `chunks`, in order.
pub open spec fn contents_of(chunks: Seq<Chunk>) -> Seq<Seq<char>> {
    chunks.map_values(|c: Chunk| c.content@)
}

/// `chunks` is the chunking of `text`: one chunk per window, numbered from 0,
/// each holding its trimmed window.
pub open spec fn is_chunking_of(
    chunks: Seq<Chunk>,
    text: Seq<char>,
    chunk_size: int,
    overlap: int,
) -> bool {
    &&& contents_of(chunks) == chunk_contents(text, chunk_size, overlap)
    &&& chunks.len() == window_count(text.len() as int, chunk_size, overlap)
    &&& forall|k: int|
        0 <= k < chunks.len() ==> (#[trigger] chunks[k]).index == k && chunks[k].content@
            == chunk_content(text, k, chunk_size, overlap)
}

proof fn lemma_count_from_bounds(d: int, step: int, n: int)
    requires
        step > 0,
        n >= 1,
        (n - 1) * step <= d,
        d < n * step,
    ensures
        d / step + 1 == n,
{
    let q = d / step;
    let r = d % step;
    assert(d == step * q + r && 0 <= r < step) by {
        vstd::arithmetic::div_mod::lemma_fundamental_div_mod(d, step);
    }
    assert(q == n - 1) by (nonlinear_arith)
        requires
            d == step * q + r,
            0 <= r < step,
            (n - 1) * step <= d,
            d < n * step,
            step > 0,
    {
        if q >= n {
            assert(step * q >= step * n);
        }
        if q <= n - 2 {
            assert(step * (q + 1) <= step * (n - 1));
        }
    }
}

proof fn lemma_index_below_count(d: int, step: int, i: int)
    requires
        step > 0,
        i >= 0,
        i * step <= d,
    ensures
        i < d / step + 1,
{
    let q = d / step;
    let r = d % step;
    assert(d == step * q + r && 0 <= r < step) by {
        vstd::arithmetic::div_mod::lemma_fundamental_div_mod(d, step);
    }
    assert(i <= q) by (nonlinear_arith)
        requires
            d == step * q + r,
            0 <= r < step,
            i * step <= d,
            step > 0,
    {
        if i >= q + 1 {
            assert(step * i >= step * (q + 1));
        }
    }
}

proof fn lemma_start_fits(d: int, step: int, k: int)
    requires
        step > 0,
        d >= 0,
        0 <= k <= d / step,
    ensures
        k * step <= d,
        d - (d / step) * step < step,
{
    let q = d / step;
    let r = d % step;
    assert(d == step * q + r && 0 <= r < step) by {
        vstd::arithmetic::div_mod::lemma_fundamental_div_mod(d, step);
    }
    assert(k * step <= d) by (nonlinear_arith)
        requires
            d == step * q + r,
            0 <= r,
            0 <= k <= q,
            step > 0,
    ;
    assert(q * step == step * q) by (nonlinear_arith);
}

/// The windows of a text that fills at least one window all lie inside the
/// text and hold `chunk_size` characters each.
pub proof fn windows_fit(text: Seq<char>, chunk_size: usize, overlap: usize, k: int)
    requires
        chunk_size > 0,
        text.len() >= chunk_size,
        0 <= k < window_count(text.len() as int, chunk_size as int, overlap as int),
    ensures
        0 <= window_start(k, chunk_size as int, overlap as int),
        window_start(k, chunk_size as int, overlap as int) + chunk_size <= text.len(),
        window(text, k, chunk_size as int, overlap as int).len() == chunk_size,
{
    let step = window_step(chunk_size as int, overlap as int);
    lemma_start_fits(text.len() - chunk_size, step, k);
    assert(k * step >= 0) by (nonlinear_arith)
        requires
            k >= 0,
            step > 0,
    ;
}

/// Asking for an overlap larger than half a chunk is the same as asking for
/// half a chunk: the chunks depend on the overlap only through its clamped
/// value.
pub proof fn overlap_is_clamped(text: Seq<char>, chunk_size: usize, overlap: usize)
    ensures
        effective_overlap(chunk_size as int, overlap as int) <= chunk_size / 2,
        effective_overlap(chunk_size as int, overlap as int) <= overlap,
        overlap >= chunk_size / 2 ==> effective_overlap(chunk_size as int, overlap as int)
            == chunk_size / 2,
        chunk_contents(text, chunk_size as int, overlap as int) == chunk_contents(
            text,
            chunk_size as int,
            effective_overlap(chunk_size as int, overlap as int),
        ),
        chunkable(text, chunk_size as int, overlap as int) == chunkable(
            text,
            chunk_size as int,
            effective_overlap(chunk_size as int, overlap as int),
        ),
{
    let cs = chunk_size as int;
    let ov = overlap as int;
    let e = effective_overlap(cs, ov);
    assert(effective_overlap(cs, e) == e);
    assert(window_count(text.len() as int, cs, ov) == window_count(text.len() as int, cs, e));
    assert(window_step(cs, ov) == window_step(cs, e));
    assert forall|k: int| #[trigger] window(text, k, cs, ov) == window(text, k, cs, e) by {
        assert(window_start(k, cs, ov) == window_start(k, cs, e));
    }
    if chunkable(text, cs, ov) {
        assert forall|k: int|
            0 <= k < window_count(text.len() as int, cs, e) && text.len() >= cs implies !is_blank(
            #[trigger] window(text, k, cs, e),
        ) by {
            assert(window(text, k, cs, ov) == window(text, k, cs, e));
        }
    }
    if chunkable(text, cs, e) {
        assert forall|k: int|
            0 <= k < window_count(text.len() as int, cs, ov) && text.len() >= cs implies !is_blank(
            #[trigger] window(text, k, cs, ov),
        ) by {
            assert(window(text, k, cs, ov) == window(text, k, cs, e));
        }
    }
    assert(chunk_contents(text, cs, ov) =~= chunk_contents(text, cs, e));
}

/// A text shorter than one chunk becomes exactly one chunk: the whole text,
/// trimmed.
pub proof fn short_text_is_one_chunk(text: Seq<char>, chunk_size: usize, overlap: usize)
    requires
        text.len() < chunk_size,
    ensures
        chunk_contents(text, chunk_size as int, overlap as int) == seq![trim(text)],
{
    assert(chunk_contents(text, chunk_size as int, overlap as int) =~= seq![trim(text)]);
}

/// Consecutive windows overlap by exactly the clamped overlap: the last
/// `effective_overlap` characters of window `k` are the first ones of window
/// `k + 1`.
pub proof fn consecutive_windows_overlap(
    text: Seq<char>,
    chunk_size: usize,
    overlap: usize,
    k: int,
)
    requires
        chunk_size > 0,
        text.len() >= chunk_size,
        0 <= k,
        k + 1 < window_count(text.len() as int, chunk_size as int, overlap as int),
    ensures
        window(text, k, chunk_size as int, overlap as int).subrange(
            window_step(chunk_size as int, overlap as int),
            chunk_size as int,
        ) == window(text, k + 1, chunk_size as int, overlap as int).subrange(
            0,
            effective_overlap(chunk_size as int, overlap as int),
        ),
{
    let cs = chunk_size as int;
    let ov = overlap as int;
    let step = window_step(cs, ov);
    windows_fit(text, chunk_size, overlap, k);
    windows_fit(text, chunk_size, overlap, k + 1);
    assert((k + 1) * step == k * step + step) by (nonlinear_arith);
    assert(window(text, k, cs, ov).subrange(step, cs) =~= window(text, k + 1, cs, ov).subrange(
        0,
        effective_overlap(cs, ov),
    ));
}

/// Position `p` of the text lies in some window.
pub open spec fn in_some_window(p: int, n: int, chunk_size: int, overlap: int) -> bool {
    exists|k: int|
        0 <= k < n && window_start(k, chunk_size, overlap) <= p < #[trigger] window_start(
            k,
            chunk_size,
            overlap,
        ) + chunk_size
}

/// The windows leave no gap: every character before the end of the last
/// window lies in some window, and fewer than `window_step` characters follow
/// the last window.
pub proof fn windows_cover_text(text: Seq<char>, chunk_size: usize, overlap: usize)
    requires
        chunk_size > 0,
        text.len() >= chunk_size,
    ensures
        ({
            let cs = chunk_size as int;
            let ov = overlap as int;
            let n = window_count(text.len() as int, cs, ov);
            let end = window_start(n - 1, cs, ov) + cs;
            &&& n >= 1
            &&& end <= text.len()
            &&& text.len() - end < window_step(cs, ov)
            &&& forall|p: int| 0 <= p < end ==> #[trigger] in_some_window(p, n, cs, ov)
        }),
{
    let cs = chunk_size as int;
    let ov = overlap as int;
    let step = window_step(cs, ov);
    let d = text.len() - cs;
    let n = window_count(text.len() as int, cs, ov);
    lemma_start_fits(d, step, n - 1);
    let end = window_start(n - 1, cs, ov) + cs;
    assert forall|p: int| 0 <= p < end implies #[trigger] in_some_window(p, n, cs, ov) by {
        let q = p / step;
        assert(p == step * q + p % step && 0 <= p % step < step) by {
            vstd::arithmetic::div_mod::lemma_fundamental_div_mod(p, step);
        }
        assert(q >= 0) by (nonlinear_arith)
            requires
                p == step * q + p % step,
                0 <= p % step < step,
                p >= 0,
        ;
        if q <= n - 1 {
            assert(q * step <= p < q * step + cs) by (nonlinear_arith)
                requires
                    p == step * q + p % step,
                    0 <= p % step < step,
                    step <= cs,
            ;
            assert(window_start(q, cs, ov) <= p < window_start(q, cs, ov) + cs);
        } else {
            assert((n - 1) * step <= p) by (nonlinear_arith)
                requires
                    p == step * q + p % step,
                    0 <= p % step,
                    q >= n,
                    step > 0,
            ;
            assert(window_start(n - 1, cs, ov) <= p < window_start(n - 1, cs, ov) + cs);
        }
    }
}

/// For a text that fills at least one window, every chunk is its window with
/// the surrounding whitespace removed: non-empty, at most `chunk_size`
/// characters, and beginning and ending with a character that is not
/// whitespace.
pub proof fn chunks_are_trimmed_windows(text: Seq<char>, chunk_size: usize, overlap: usize)
    requires
        chunkable(text, chunk_size as int, overlap as int),
        text.len() >= chunk_size,
    ensures
        forall|k: int|
            0 <= k < window_count(text.len() as int, chunk_size as int, overlap as int) ==> {
                let c = #[trigger] chunk_contents(text, chunk_size as int, overlap as int)[k];
                &&& 0 < c.len() <= chunk_size
                &&& !unicode_whitespace(c[0])
                &&& !unicode_whitespace(c.last())
            },
{
    let cs = chunk_size as int;
    let ov = overlap as int;
    assert forall|k: int|
        0 <= k < window_count(text.len() as int, cs, ov) implies {
        let c = #[trigger] chunk_contents(text, cs, ov)[k];
        &&& 0 < c.len() <= chunk_size
        &&& !unicode_whitespace(c[0])
        &&& !unicode_whitespace(c.last())
    } by {
        let w = window(text, k, cs, ov);
        windows_fit(text, chunk_size, overlap, k);
        trim_is_inner_piece(w);
        assert(!is_blank(w));
    }
}

/// The chunks of a text that fills at least one window are its trimmed
/// windows of `chunk_size` characters, window `k` starting at `k * s`, where
/// `s` is `chunk_size` minus the smaller of `overlap` and `chunk_size / 2`;
/// there are `(len - chunk_size) / s + 1` of them. So consecutive chunks are
/// cut from windows that share `min(overlap, chunk_size / 2)` characters.
pub proof fn chunks_are_overlapping_windows(text: Seq<char>, chunk_size: usize, overlap: usize)
    requires
        chunk_size > 0,
        text.len() >= chunk_size,
    ensures
        ({
            let cs = chunk_size as int;
            let m = if (overlap as int) < cs / 2 {
                overlap as int
            } else {
                cs / 2
            };
            let s = cs - m;
            let chunks = chunk_contents(text, cs, overlap as int);
            &&& 0 < s <= cs
            &&& chunks.len() == (text.len() - cs) / s + 1
            &&& forall|k: int|
                0 <= k < chunks.len() ==> #[trigger] chunks[k] == trim(
                    text.subrange(k * s, k * s + cs),
                )
        }),
{
    let cs = chunk_size as int;
    let ov = overlap as int;
    let m = if ov < cs / 2 {
        ov
    } else {
        cs / 2
    };
    assert(effective_overlap(cs, ov) == m);
    assert(window_step(cs, ov) == cs - m);
}

/// Text after the last whole window changes nothing: appending characters to
/// a text that fills at least one window, without making room for another
/// window, keeps both whether it can be chunked and its chunks.
pub proof fn trailing_text_is_ignored(
    text: Seq<char>,
    tail: Seq<char>,
    chunk_size: usize,
    overlap: usize,
)
    requires
        chunk_size > 0,
        text.len() >= chunk_size,
        ({
            let cs = chunk_size as int;
            let m = if (overlap as int) < cs / 2 {
                overlap as int
            } else {
                cs / 2
            };
            (text.len() + tail.len() - cs) / (cs - m) == (text.len() - cs) / (cs - m)
        }),
    ensures
        chunkable(text + tail, chunk_size as int, overlap as int) == chunkable(
            text,
            chunk_size as int,
            overlap as int,
        ),
        chunk_contents(text + tail, chunk_size as int, overlap as int) == chunk_contents(
            text,
            chunk_size as int,
            overlap as int,
        ),
{
    let cs = chunk_size as int;
    let ov = overlap as int;
    let t = text + tail;
    let n = window_count(text.len() as int, cs, ov);
    assert(window_count(t.len() as int, cs, ov) == n) by {
        chunks_are_overlapping_windows(text, chunk_size, overlap);
    }
    assert forall|k: int| 0 <= k < n implies #[trigger] window(t, k, cs, ov) == window(
        text,
        k,
        cs,
        ov,
    ) by {
        windows_fit(text, chunk_size, overlap, k);
        assert(window(t, k, cs, ov) =~= window(text, k, cs, ov));
    }
    assert(chunk_contents(t, cs, ov) =~= chunk_contents(text, cs, ov)) by {
        assert forall|k: int| 0 <= k < n implies chunk_contents(t, cs, ov)[k] == chunk_contents(
            text,
            cs,
            ov,
        )[k] by {
            assert(window(t, k, cs, ov) == window(text, k, cs, ov));
        }
    }
    if chunkable(text, cs, ov) {
        assert forall|k: int| 0 <= k < n implies !is_blank(#[trigger] window(t, k, cs, ov)) by {
            assert(window(t, k, cs, ov) == window(text, k, cs, ov));
        }
    }
    if chunkable(t, cs, ov) {
        assert forall|k: int| 0 <= k < n implies !is_blank(#[trigger] window(text, k, cs, ov)) by {
            assert(window(t, k, cs, ov) == window(text, k, cs, ov));
        }
    }
}

/// Cuts `text` into overlapping chunks of `chunk_size` characters.
///
/// The overlap is clamped to `chunk_size / 2`. A text shorter than
/// `chunk_size` gives one chunk holding the whole text trimmed. Otherwise
/// chunk `k` holds the characters `k * step .. k * step + chunk_size`,
/// trimmed; characters after the last whole window are not part of any
/// chunk.
pub fn chunk_text(text: &str, chunk_size: usize, overlap: usize) -> (chunks: Vec<Chunk>)
    requires
        chunkable(text@, chunk_size as int, overlap as int),
    ensures
        is_chunking_of(chunks@, text@, chunk_size as int, overlap as int),
{
    let chars = chars_of(text);
    let length = chars.len();
    let ov = if chunk_size / 2 <= overlap {
        chunk_size / 2
    } else {
        overlap
    };
    let step = chunk_size - ov;
    let ghost cs = chunk_size as int;
    let ghost ovi = overlap as int;
    assert(step as int == window_step(cs, ovi));
    if length < chunk_size {
        let (a, b) = trim_bounds(chars.as_slice(), 0, length);
        let content = string_from_chars(chars.as_slice(), a, b);
        assert(chars@.subrange(0, length as int) =~= text@);
        let chunks = vec![Chunk { index: 0, content }];
        assert(contents_of(chunks@) =~= chunk_contents(text@, cs, ovi));
        return chunks;
    }
    let mut chunks: Vec<Chunk> = Vec::new();
    let mut start: usize = 0;
    let mut index: usize = 0;
    while start <= length - chunk_size
        invariant
            chars@ == text@,
            length == text@.len(),
            0 < step <= chunk_size <= length,
            step as int == window_step(cs, ovi),
            cs == chunk_size,
            ovi == overlap,
            start as int == index * step,
            start <= length - chunk_size + step,
            index > 0 ==> (index - 1) * step <= length - chunk_size,
            chunks@.len() == index,
            forall|k: int|
                0 <= k < index ==> (#[trigger] chunks@[k]).index == k && chunks@[k].content@
                    == chunk_content(text@, k, cs, ovi),
        decreases length - chunk_size + step - start,
    {
        let (a, b) = trim_bounds(chars.as_slice(), start, start + chunk_size);
        let content = string_from_chars(chars.as_slice(), a, b);
        assert(chars@.subrange(start as int, start + chunk_size) == window(
            text@,
            index as int,
            cs,
            ovi,
        ));
        chunks.push(Chunk { index, content });
        assert(index <= start) by (nonlinear_arith)
            requires
                start as int == index * step,
                step >= 1,
        ;
        assert((index + 1) * step == index * step + step) by (nonlinear_arith);
        start = start + step;
        index = index + 1;
    }
    proof {
        lemma_count_from_bounds((length - chunk_size) as int, step as int, index as int);
        assert(contents_of(chunks@) =~= chunk_contents(text@, cs, ovi));
    }
    chunks
}

/// Cuts `text` as `chunk_text` does, or gives `None` on the inputs that
/// `chunk_text` refuses: an empty text, a zero chunk size, or a window made of
/// whitespace alone.
pub fn try_chunk_text(text: &str, chunk_size: usize, overlap: usize) -> (r: Option<Vec<Chunk>>)
    ensures
        r is Some <==> chunkable(text@, chunk_size as int, overlap as int),
        r matches Some(chunks) ==> is_chunking_of(
            chunks@,
            text@,
            chunk_size as int,
            overlap as int,
        ),
{
    if text.is_empty() || chunk_size == 0 {
        return None;
    }
    let chars = chars_of(text);
    let length = chars.len();
    let ghost cs = chunk_size as int;
    let ghost ovi = overlap as int;
    if length >= chunk_size {
        let ov = if chunk_size / 2 <= overlap {
            chunk_size / 2
        } else {
            overlap
        };
        let step = chunk_size - ov;
        let mut start: usize = 0;
        let mut index: usize = 0;
        while start <= length - chunk_size
            invariant
                chars@ == text@,
                length == text@.len(),
                0 < step <= chunk_size <= length,
                step as int == window_step(cs, ovi),
                cs == chunk_size,
                ovi == overlap,
                start as int == index * step,
                start <= length - chunk_size + step,
                index > 0 ==> (index - 1) * step <= length - chunk_size,
                forall|k: int|
                    0 <= k < index ==> !is_blank(#[trigger] window(text@, k, cs, ovi)),
            decreases length - chunk_size + step - start,
        {
            assert(chars@.subrange(start as int, start + chunk_size) == window(
                text@,
                index as int,
                cs,
                ovi,
            ));
            if !has_non_whitespace(chars.as_slice(), start, start + chunk_size) {
                proof {
                    lemma_index_below_count((length - chunk_size) as int, step as int, index as int);
                }
                return None;
            }
            assert(index <= start) by (nonlinear_arith)
                requires
                    start as int == index * step,
                    step >= 1,
            ;
            assert((index + 1) * step == index * step + step) by (nonlinear_arith);
            start = start + step;
            index = index + 1;
        }
        proof {
            lemma_count_from_bounds((length - chunk_size) as int, step as int, index as int);
        }
    }
    Some(chunk_text(text, chunk_size, overlap))
}

} // verus!
