//! The digit stream of a text and the search for a pattern in it.
use vstd::prelude::*;

verus! {

broadcast use vstd::string::group_string_axioms;

/// Number of leading characters of a text that never belong to its digit
/// stream (the `2.` before a decimal expansion).
pub const PREFIX_LEN: usize = 2;

/// `c` is one of `'0'` to `'9'`.
pub open spec fn is_decimal_digit(c: char) -> bool {
    '0' <= c && c <= '9'
}

/// The text without its first `PREFIX_LEN` characters.
pub open spec fn after_prefix(text: Seq<char>) -> Seq<char> {
    if text.len() <= PREFIX_LEN {
        Seq::empty()
    } else {
        text.subrange(PREFIX_LEN as int, text.len() as int)
    }
}

/// The digit stream of a text: the decimal digits that follow the prefix, in
/// their order in the text.
pub open spec fn digit_stream(text: Seq<char>) -> Seq<char> {
    after_prefix(text).filter(|c: char| is_decimal_digit(c))
}

/// Taking one more character of the text extends its digit stream by that
/// character exactly when it follows the prefix and is a digit.
proof fn lemma_digit_stream_step(text: Seq<char>, n: int)
    requires
        0 <= n < text.len(),
    ensures
        digit_stream(text.take(n + 1)) == if n >= PREFIX_LEN && is_decimal_digit(text[n]) {
            digit_stream(text.take(n)).push(text[n])
        } else {
            digit_stream(text.take(n))
        },
{
    let pred = |c: char| is_decimal_digit(c);
    if n >= PREFIX_LEN {
        let prev = after_prefix(text.take(n));
        let next = after_prefix(text.take(n + 1));
        assert(next.drop_last() =~= prev);
        reveal(Seq::filter);
        assert(next.last() == text[n]);
        assert(next.filter(pred) == if pred(next.last()) {
            next.drop_last().filter(pred).push(next.last())
        } else {
            next.drop_last().filter(pred)
        });
    } else {
        assert(after_prefix(text.take(n + 1)) =~= Seq::<char>::empty());
        assert(after_prefix(text.take(n)) =~= Seq::<char>::empty());
    }
}

/// Relies on `String::push`: appends one character at the end.
#[verifier::external_body]
fn push_char(s: &mut String, c: char)
    ensures
        final(s)@ == old(s)@.push(c),
{
    s.push(c)
}

/// The digit stream of `text`.
pub fn derive_digit_stream(text: &str) -> (r: String)
    ensures
        r@ == digit_stream(text@),
{
    let mut out = String::new();
    let mut skipped: usize = 0;
    for c in it: text.chars()
        invariant
            it.seq() == text@,
            skipped == if it.index() < PREFIX_LEN { it.index() } else { PREFIX_LEN as int },
            out@ == digit_stream(text@.take(it.index())),
    {
        proof {
            lemma_digit_stream_step(text@, it.index());
        }
        if skipped < PREFIX_LEN {
            skipped = skipped + 1;
        } else if '0' <= c && c <= '9' {
            push_char(&mut out, c);
        }
    }
    assert(text@.take(text@.len() as int) =~= text@);
    out
}

/// `pattern` occurs in `stream` starting at index `i`.
pub open spec fn occurs_at(stream: Seq<char>, pattern: Seq<char>, i: int) -> bool {
    0 <= i && i + pattern.len() <= stream.len() && stream.subrange(i, i + pattern.len())
        == pattern
}

/// `r` is the outcome of searching `stream` for `pattern`: the index of the
/// first occurrence, or `None` when there is none.
pub open spec fn is_search_result(stream: Seq<char>, pattern: Seq<char>, r: Option<usize>) -> bool {
    match r {
        Some(i) => occurs_at(stream, pattern, i as int) && forall|j: int|
            0 <= j < i ==> !occurs_at(stream, pattern, j),
        None => forall|j: int| !occurs_at(stream, pattern, j),
    }
}

/// The characters of `s`, one element each.
fn chars_of(s: &str) -> (v: Vec<char>)
    ensures
        v@ == s@,
{
    let mut v: Vec<char> = Vec::new();
    for c in it: s.chars()
        invariant
            it.seq() == s@,
            v@ == s@.take(it.index()),
    {
        v.push(c);
        assert(s@.take(it.index() + 1) =~= s@.take(it.index()).push(c));
    }
    assert(s@.take(s@.len() as int) =~= s@);
    v
}

/// Whether `pattern` occurs in `stream` at index `i`, by comparing character
/// by character.
fn matches_at(stream: &Vec<char>, pattern: &Vec<char>, i: usize) -> (r: bool)
    requires
        i + pattern@.len() <= stream@.len(),
    ensures
        r == occurs_at(stream@, pattern@, i as int),
{
    let n = stream.len();
    let mut k: usize = 0;
    while k < pattern.len()
        invariant
            n == stream@.len(),
            i + pattern@.len() <= stream@.len(),
            k <= pattern@.len(),
            forall|m: int| 0 <= m < k ==> stream@[i + m] == pattern@[m],
        decreases pattern@.len() - k,
    {
        if stream[i + k] != pattern[k] {
            assert(stream@.subrange(i as int, i + pattern@.len())[k as int] != pattern@[k as int]);
            return false;
        }
        k = k + 1;
    }
    assert(stream@.subrange(i as int, i + pattern@.len()) =~= pattern@);
    true
}

/// Index of the first occurrence of `pattern` in `stream`, scanning every
/// start index at which the whole pattern fits; `None` when it never occurs,
/// in particular when the stream is shorter than the pattern.
pub fn find_pattern(stream: &str, pattern: &str) -> (r: Option<usize>)
    ensures
        is_search_result(stream@, pattern@, r),
{
    let s = chars_of(stream);
    let p = chars_of(pattern);
    if s.len() < p.len() {
        return None;
    }
    let last = s.len() - p.len();
    let mut i: usize = 0;
    loop
        invariant
            s@ == stream@,
            p@ == pattern@,
            last == s@.len() - p@.len(),
            i <= last,
            forall|j: int| 0 <= j < i ==> !occurs_at(stream@, pattern@, j),
        decreases last - i,
    {
        if matches_at(&s, &p, i) {
            return Some(i);
        }
        if i == last {
            assert forall|j: int| !occurs_at(stream@, pattern@, j) by {
                if 0 <= j && j > last {
                    assert(j + pattern@.len() > stream@.len());
                }
            }
            return None;
        }
        i = i + 1;
    }
}

/// The first `max_len` characters of `stream`, or all of it when it is
/// shorter.
pub fn preview(stream: &str, max_len: usize) -> (r: String)
    ensures
        r@ == stream@.take(if stream@.len() < max_len { stream@.len() as int } else { max_len as int }),
{
    let mut out = String::new();
    let mut taken: usize = 0;
    for c in it: stream.chars()
        invariant
            it.seq() == stream@,
            taken == if it.index() < max_len { it.index() } else { max_len as int },
            out@ == stream@.take(taken as int),
    {
        if taken < max_len {
            assert(stream@.take(taken + 1) =~= stream@.take(taken as int).push(c));
            push_char(&mut out, c);
            taken = taken + 1;
        }
    }
    out
}

/// Index of the first occurrence of `pattern` in the digit stream of `text`.
pub fn find_in_text(text: &str, pattern: &str) -> (r: Option<usize>)
    ensures
        is_search_result(digit_stream(text@), pattern@, r),
{
    let stream = derive_digit_stream(text);
    find_pattern(stream.as_str(), pattern)
}

/// Every character of a digit stream is a decimal digit, and every decimal
/// digit that follows the prefix of the text stands in its digit stream.
pub proof fn lemma_digit_stream_only_digits(text: Seq<char>)
    ensures
        forall|i: int| 0 <= i < digit_stream(text).len() ==> is_decimal_digit(
            #[trigger] digit_stream(text)[i],
        ),
        forall|i: int|
            0 <= i < after_prefix(text).len() && is_decimal_digit(#[trigger] after_prefix(text)[i])
                ==> digit_stream(text).contains(after_prefix(text)[i]),
        digit_stream(text).len() <= after_prefix(text).len(),
{
    broadcast use vstd::seq_lib::group_filter_ensures;

}

/// The digit stream depends on the text alone: equal texts give equal
/// streams.
pub proof fn lemma_digit_stream_deterministic(a: Seq<char>, b: Seq<char>)
    requires
        a == b,
    ensures
        digit_stream(a) == digit_stream(b),
{
}

/// Where `pattern` occurs at index `i` and nowhere before, the search
/// returns exactly `i`.
pub proof fn lemma_search_finds_first(stream: Seq<char>, pattern: Seq<char>, i: usize, r: Option<usize>)
    requires
        occurs_at(stream, pattern, i as int),
        forall|j: int| 0 <= j < i ==> !occurs_at(stream, pattern, j),
        is_search_result(stream, pattern, r),
    ensures
        r == Some(i),
{
    if let Some(k) = r {
        if k < i {
            assert(!occurs_at(stream, pattern, k as int));
        } else if k > i {
            assert(!occurs_at(stream, pattern, i as int));
        }
    } else {
        assert(!occurs_at(stream, pattern, i as int));
    }
}

/// Where `pattern` occurs nowhere in `stream`, the search reports that it was
/// not found.
pub proof fn lemma_search_absent(stream: Seq<char>, pattern: Seq<char>, r: Option<usize>)
    requires
        forall|j: int| !occurs_at(stream, pattern, j),
        is_search_result(stream, pattern, r),
    ensures
        r is None,
{
    if let Some(k) = r {
        assert(occurs_at(stream, pattern, k as int));
    }
}

} // verus!
