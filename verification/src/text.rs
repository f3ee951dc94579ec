//! Character-level text utilities with exact specifications over `Seq<char>`.
//!
//! Text is handled as `Vec<char>` inside the library; every function here is
//! specified by a spec function on sequences of characters that follows the
//! documented behaviour of the corresponding `str` operation.

use vstd::prelude::*;

verus! {

// ---------------------------------------------------------------------------
// Specifications
// ---------------------------------------------------------------------------

/// Unicode `White_Space`, the set that `char::is_whitespace` and `str::trim` use.
pub open spec fn is_ws(c: char) -> bool {
    ||| ('\u{9}' <= c && c <= '\u{d}')
    ||| c == ' '
    ||| c == '\u{85}'
    ||| c == '\u{a0}'
    ||| c == '\u{1680}'
    ||| ('\u{2000}' <= c && c <= '\u{200a}')
    ||| c == '\u{2028}'
    ||| c == '\u{2029}'
    ||| c == '\u{202f}'
    ||| c == '\u{205f}'
    ||| c == '\u{3000}'
}

/// The text of an outcome that carries text on both sides.
pub open spec fn text_result(r: Result<String, String>) -> Result<Seq<char>, Seq<char>> {
    match r {
        Ok(s) => Ok(s@),
        Err(e) => Err(e@),
    }
}

/// The text of an optional string.
pub open spec fn option_text(o: Option<String>) -> Option<Seq<char>> {
    match o {
        Some(s) => Some(s@),
        None => None,
    }
}

/// Index of the first occurrence of `c` in `s`, or `s.len()` when absent.
pub open spec fn index_of(s: Seq<char>, c: char) -> int
    decreases s.len(),
{
    if s.len() == 0 {
        0
    } else if s[0] == c {
        0
    } else {
        1 + index_of(s.drop_first(), c)
    }
}

/// `s` with leading white space removed.
pub open spec fn trim_start(s: Seq<char>) -> Seq<char>
    decreases s.len(),
{
    if s.len() > 0 && is_ws(s[0]) {
        trim_start(s.drop_first())
    } else {
        s
    }
}

/// `s` with trailing white space removed.
pub open spec fn trim_end(s: Seq<char>) -> Seq<char>
    decreases s.len(),
{
    if s.len() > 0 && is_ws(s.last()) {
        trim_end(s.drop_last())
    } else {
        s
    }
}

/// `s` with leading and trailing white space removed (`str::trim`).
pub open spec fn trim(s: Seq<char>) -> Seq<char> {
    trim_end(trim_start(s))
}

/// Drops one carriage return that ends a line which was ended by a newline.
pub open spec fn strip_cr(l: Seq<char>) -> Seq<char> {
    if l.len() > 0 && l.last() == '\r' {
        l.drop_last()
    } else {
        l
    }
}

/// The lines of `s` as `str::lines` yields them: split at `\n`, a `\r`
/// directly before a `\n` is dropped, and a final line ending is optional.
pub open spec fn lines(s: Seq<char>) -> Seq<Seq<char>>
    decreases s.len(),
{
    if s.len() == 0 {
        seq![]
    } else {
        let i = index_of(s, '\n');
        if i >= s.len() || i < 0 {
            seq![s]
        } else {
            seq![strip_cr(s.take(i))] + lines(s.skip(i + 1))
        }
    }
}

/// The pieces of `s` between the occurrences of `c` (`str::split` on a char).
pub open spec fn split_on(s: Seq<char>, c: char) -> Seq<Seq<char>>
    decreases s.len(),
{
    let i = index_of(s, c);
    if i >= s.len() || i < 0 {
        seq![s]
    } else {
        seq![s.take(i)] + split_on(s.skip(i + 1), c)
    }
}

/// Index of the first white-space character of `s`, or `s.len()` when none.
pub open spec fn index_ws(s: Seq<char>) -> int
    decreases s.len(),
{
    if s.len() == 0 {
        0
    } else if is_ws(s[0]) {
        0
    } else {
        1 + index_ws(s.drop_first())
    }
}

/// The white-space separated words of `s` (`str::split_whitespace`).
pub open spec fn words(s: Seq<char>) -> Seq<Seq<char>>
    decreases s.len(),
{
    let t = trim_start(s);
    if t.len() == 0 {
        seq![]
    } else {
        let i = index_ws(t);
        if 1 <= i <= t.len() && t.len() <= s.len() {
            seq![t.take(i)] + words(t.skip(i))
        } else {
            seq![t]
        }
    }
}

/// `p` occurs in `s` at position `i`.
pub open spec fn occurs_at(s: Seq<char>, p: Seq<char>, i: int) -> bool {
    0 <= i && i + p.len() <= s.len() && s.subrange(i, i + p.len()) == p
}

/// `p` occurs somewhere in `s` (`str::contains`).
pub open spec fn contains(s: Seq<char>, p: Seq<char>) -> bool {
    exists|i: int| occurs_at(s, p, i)
}

/// `s` begins with `p`.
pub open spec fn starts_with(s: Seq<char>, p: Seq<char>) -> bool {
    p.len() <= s.len() && s.take(p.len() as int) == p
}

/// `s` ends with `p`.
pub open spec fn ends_with(s: Seq<char>, p: Seq<char>) -> bool {
    p.len() <= s.len() && s.skip(s.len() - p.len()) == p
}

/// Position of the first occurrence of `p` in `s` at or after `from`.
pub open spec fn find_from(s: Seq<char>, p: Seq<char>, from: int) -> Option<int>
    decreases s.len() + 1 - from,
{
    if from < 0 || from + p.len() > s.len() {
        None
    } else if s.subrange(from, from + p.len()) == p {
        Some(from)
    } else {
        find_from(s, p, from + 1)
    }
}

/// `str::split_once`: the parts before and after the first occurrence of `p`.
pub open spec fn split_once(s: Seq<char>, p: Seq<char>) -> Option<(Seq<char>, Seq<char>)> {
    match find_from(s, p, 0) {
        Some(i) => Some((s.take(i), s.skip(i + p.len()))),
        None => None,
    }
}

// ---------------------------------------------------------------------------
// Lemmas
// ---------------------------------------------------------------------------

pub proof fn lemma_index_of(s: Seq<char>, c: char)
    ensures
        0 <= index_of(s, c) <= s.len(),
        index_of(s, c) < s.len() ==> s[index_of(s, c)] == c,
        forall|k: int| 0 <= k < index_of(s, c) ==> s[k] != c,
    decreases s.len(),
{
    if s.len() > 0 && s[0] != c {
        lemma_index_of(s.drop_first(), c);
        assert forall|k: int| 0 <= k < index_of(s, c) implies s[k] != c by {
            if k > 0 {
                assert(s[k] == s.drop_first()[k - 1]);
            }
        }
    }
}

/// The first occurrence is found wherever it stands.
pub proof fn lemma_index_of_is(s: Seq<char>, c: char, j: int)
    requires
        0 <= j <= s.len(),
        j < s.len() ==> s[j] == c,
        forall|k: int| 0 <= k < j ==> s[k] != c,
    ensures
        index_of(s, c) == j,
    decreases s.len(),
{
    if s.len() > 0 && j > 0 {
        assert(s[0] != c);
        assert forall|k: int| 0 <= k < j - 1 implies s.drop_first()[k] != c by {
            assert(s.drop_first()[k] == s[k + 1]);
        }
        if j - 1 < s.drop_first().len() {
            assert(s.drop_first()[j - 1] == s[j]);
        }
        lemma_index_of_is(s.drop_first(), c, j - 1);
    }
}


/// The character sequences held by a sequence of character vectors.
pub open spec fn views(s: Seq<Vec<char>>) -> Seq<Seq<char>> {
    s.map_values(|x: Vec<char>| x@)
}

/// `trim_start` drops exactly the leading run of white space.
pub proof fn lemma_trim_start_is(s: Seq<char>, k: int)
    requires
        0 <= k <= s.len(),
        forall|j: int| 0 <= j < k ==> is_ws(s[j]),
        k < s.len() ==> !is_ws(s[k]),
    ensures
        trim_start(s) == s.skip(k),
    decreases k,
{
    if k > 0 {
        assert forall|j: int| 0 <= j < k - 1 implies is_ws(s.drop_first()[j]) by {
            assert(s.drop_first()[j] == s[j + 1]);
        }
        if k - 1 < s.drop_first().len() {
            assert(s.drop_first()[k - 1] == s[k]);
        }
        lemma_trim_start_is(s.drop_first(), k - 1);
        assert(s.drop_first().skip(k - 1) =~= s.skip(k));
    } else {
        assert(s.skip(0) =~= s);
    }
}

/// `trim_end` drops exactly the trailing run of white space.
pub proof fn lemma_trim_end_is(s: Seq<char>, k: int)
    requires
        0 <= k <= s.len(),
        forall|j: int| k <= j < s.len() ==> is_ws(s[j]),
        k > 0 ==> !is_ws(s[k - 1]),
    ensures
        trim_end(s) == s.take(k),
    decreases s.len() - k,
{
    if k < s.len() {
        assert forall|j: int| k <= j < s.drop_last().len() implies is_ws(s.drop_last()[j]) by {
            assert(s.drop_last()[j] == s[j]);
        }
        if k > 0 {
            assert(s.drop_last()[k - 1] == s[k - 1]);
        }
        lemma_trim_end_is(s.drop_last(), k);
        assert(s.drop_last().take(k) =~= s.take(k));
    } else {
        assert(s.take(k) =~= s);
    }
}

pub proof fn lemma_index_ws(s: Seq<char>)
    ensures
        0 <= index_ws(s) <= s.len(),
        index_ws(s) < s.len() ==> is_ws(s[index_ws(s)]),
        forall|k: int| 0 <= k < index_ws(s) ==> !is_ws(s[k]),
    decreases s.len(),
{
    if s.len() > 0 && !is_ws(s[0]) {
        lemma_index_ws(s.drop_first());
        assert forall|k: int| 0 <= k < index_ws(s) implies !is_ws(s[k]) by {
            if k > 0 {
                assert(s[k] == s.drop_first()[k - 1]);
            }
        }
    }
}

pub proof fn lemma_index_ws_is(s: Seq<char>, j: int)
    requires
        0 <= j <= s.len(),
        j < s.len() ==> is_ws(s[j]),
        forall|k: int| 0 <= k < j ==> !is_ws(s[k]),
    ensures
        index_ws(s) == j,
    decreases s.len(),
{
    if s.len() > 0 && j > 0 {
        assert forall|k: int| 0 <= k < j - 1 implies !is_ws(s.drop_first()[k]) by {
            assert(s.drop_first()[k] == s[k + 1]);
        }
        if j - 1 < s.drop_first().len() {
            assert(s.drop_first()[j - 1] == s[j]);
        }
        lemma_index_ws_is(s.drop_first(), j - 1);
    }
}

/// One step of `words`: `k` blanks, then a word of `m` characters.
pub proof fn lemma_words_step(s: Seq<char>, k: int, m: int)
    requires
        0 <= k,
        1 <= m,
        k + m <= s.len(),
        forall|j: int| 0 <= j < k ==> is_ws(s[j]),
        forall|j: int| k <= j < k + m ==> !is_ws(s[j]),
        k + m < s.len() ==> is_ws(s[k + m]),
    ensures
        words(s) == seq![s.subrange(k, k + m)] + words(s.skip(k + m)),
{
    lemma_trim_start_is(s, k);
    let t = s.skip(k);
    assert forall|j: int| 0 <= j < m implies !is_ws(t[j]) by {
        assert(t[j] == s[k + j]);
    }
    if m < t.len() {
        assert(t[m] == s[k + m]);
    }
    lemma_index_ws_is(t, m);
    assert(t.take(m) =~= s.subrange(k, k + m));
    assert(t.skip(m) =~= s.skip(k + m));
}

/// `words` of text that holds only blanks.
pub proof fn lemma_words_blank(s: Seq<char>)
    requires
        forall|j: int| 0 <= j < s.len() ==> is_ws(s[j]),
    ensures
        words(s) == Seq::<Seq<char>>::empty(),
{
    lemma_trim_start_is(s, s.len() as int);
}

/// One step of `lines`: a line that ends at the newline at `j`.
pub proof fn lemma_lines_step(s: Seq<char>, j: int)
    requires
        0 <= j < s.len(),
        s[j] == '\n',
        forall|k: int| 0 <= k < j ==> s[k] != '\n',
    ensures
        lines(s) == seq![strip_cr(s.take(j))] + lines(s.skip(j + 1)),
{
    lemma_index_of_is(s, '\n', j);
}

/// The last line of `lines` when no newline remains.
pub proof fn lemma_lines_last(s: Seq<char>)
    requires
        s.len() > 0,
        forall|k: int| 0 <= k < s.len() ==> s[k] != '\n',
    ensures
        lines(s) == seq![s],
{
    lemma_index_of_is(s, '\n', s.len() as int);
}

/// One step of `split_on`.
pub proof fn lemma_split_step(s: Seq<char>, c: char, j: int)
    requires
        0 <= j < s.len(),
        s[j] == c,
        forall|k: int| 0 <= k < j ==> s[k] != c,
    ensures
        split_on(s, c) == seq![s.take(j)] + split_on(s.skip(j + 1), c),
{
    lemma_index_of_is(s, c, j);
}

/// `split_on` always gives at least one piece.
pub proof fn lemma_split_len(s: Seq<char>, c: char)
    ensures
        split_on(s, c).len() >= 1,
    decreases s.len(),
{
    lemma_index_of(s, c);
    let i = index_of(s, c);
    if i < s.len() {
        lemma_split_len(s.skip(i + 1), c);
    }
}

/// The last piece of `split_on`.
pub proof fn lemma_split_last(s: Seq<char>, c: char)
    requires
        forall|k: int| 0 <= k < s.len() ==> s[k] != c,
    ensures
        split_on(s, c) == seq![s],
{
    lemma_index_of_is(s, c, s.len() as int);
}

/// A text that begins and ends with characters other than white space is
/// its own trim.
pub proof fn lemma_trim_fixed(s: Seq<char>)
    requires
        s.len() > 0 ==> !is_ws(s[0]) && !is_ws(s.last()),
    ensures
        trim(s) == s,
{
    lemma_trim_start_is(s, 0);
    assert(s.skip(0) =~= s);
    lemma_trim_end_is(s, s.len() as int);
    assert(s.take(s.len() as int) =~= s);
}

/// `find_from` finds the first occurrence at or after `from`.
pub proof fn lemma_find_from_is(s: Seq<char>, p: Seq<char>, from: int, j: int)
    requires
        0 <= from <= j,
        occurs_at(s, p, j),
        forall|k: int| from <= k < j ==> !occurs_at(s, p, k),
    ensures
        find_from(s, p, from) == Some(j),
    decreases j - from,
{
    if from < j {
        assert(!occurs_at(s, p, from));
        lemma_find_from_is(s, p, from + 1, j);
    }
}

/// Joining with a newline adds the lines of the second part.
pub proof fn lemma_lines_append(x: Seq<char>, y: Seq<char>)
    requires
        x.len() > 0,
        x.last() != '\n',
        x.last() != '\r',
        forall|k: int| 0 <= k < y.len() ==> y[k] != '\n',
    ensures
        lines(x + seq!['\n'] + y) == lines(x) + (if y.len() == 0 {
            Seq::<Seq<char>>::empty()
        } else {
            seq![y]
        }),
    decreases x.len(),
{
    let s = x + seq!['\n'] + y;
    lemma_index_of(x, '\n');
    let i = index_of(x, '\n');
    if i == x.len() {
        assert forall|k: int| 0 <= k < x.len() implies s[k] != '\n' by {
            assert(s[k] == x[k]);
        }
        lemma_lines_step(s, x.len() as int);
        assert(s.take(x.len() as int) =~= x);
        assert(s.skip(x.len() as int + 1) =~= y);
        lemma_lines_last_or_empty(y);
        lemma_lines_last(x);
    } else {
        let x1 = x.take(i);
        let x2 = x.skip(i + 1);
        assert(x2.len() > 0) by {
            if i == x.len() - 1 {
                assert(x[i] == '\n');
            }
        }
        assert(x2.last() == x.last());
        assert forall|k: int| 0 <= k < i implies s[k] != '\n' by {
            assert(s[k] == x[k]);
        }
        assert(s[i] == x[i]);
        lemma_lines_step(s, i);
        assert(s.take(i) =~= x1);
        assert(s.skip(i + 1) =~= x2 + seq!['\n'] + y);
        lemma_lines_append(x2, y);
        lemma_lines_step(x, i);
    }
}

/// A newline after a complete last line starts the lines of what follows.
pub proof fn lemma_lines_join(x: Seq<char>, r: Seq<char>)
    requires
        x.len() > 0,
        x.last() != '\n',
        x.last() != '\r',
    ensures
        lines(x + seq!['\n'] + r) == lines(x) + lines(r),
    decreases x.len(),
{
    let s = x + seq!['\n'] + r;
    lemma_index_of(x, '\n');
    let i = index_of(x, '\n');
    if i == x.len() {
        assert forall|k: int| 0 <= k < x.len() implies s[k] != '\n' by {
            assert(s[k] == x[k]);
        }
        lemma_lines_step(s, x.len() as int);
        assert(s.take(x.len() as int) =~= x);
        assert(s.skip(x.len() as int + 1) =~= r);
        lemma_lines_last(x);
    } else {
        let x1 = x.take(i);
        let x2 = x.skip(i + 1);
        assert(x2.len() > 0) by {
            if i == x.len() - 1 {
                assert(x[i] == '\n');
            }
        }
        assert(x2.last() == x.last());
        assert forall|k: int| 0 <= k < i implies s[k] != '\n' by {
            assert(s[k] == x[k]);
        }
        assert(s[i] == x[i]);
        lemma_lines_step(s, i);
        assert(s.take(i) =~= x1);
        assert(s.skip(i + 1) =~= x2 + seq!['\n'] + r);
        lemma_lines_join(x2, r);
        lemma_lines_step(x, i);
        assert(seq![strip_cr(x1)] + (lines(x2) + lines(r)) =~= (seq![strip_cr(x1)] + lines(x2))
            + lines(r));
    }
}

/// After a text that ends its last line (or is empty), the lines of what
/// follows come next.
pub proof fn lemma_lines_after_break(x: Seq<char>, r: Seq<char>)
    requires
        x.len() == 0 || x.last() == '\n',
    ensures
        lines(x + r) == lines(x) + lines(r),
    decreases x.len(),
{
    if x.len() == 0 {
        assert(x + r =~= r);
        assert(lines(x) + lines(r) =~= lines(r));
    } else {
        let s = x + r;
        lemma_index_of(x, '\n');
        let i = index_of(x, '\n');
        assert(i < x.len()) by {
            if i == x.len() {
                assert(x[x.len() - 1] != '\n');
            }
        }
        assert forall|k: int| 0 <= k < i implies s[k] != '\n' by {
            assert(s[k] == x[k]);
        }
        assert(s[i] == x[i]);
        lemma_lines_step(s, i);
        lemma_lines_step(x, i);
        let x2 = x.skip(i + 1);
        assert(s.take(i) =~= x.take(i));
        assert(s.skip(i + 1) =~= x2 + r);
        if x2.len() > 0 {
            assert(x2.last() == x.last());
        }
        lemma_lines_after_break(x2, r);
        assert(seq![strip_cr(x.take(i))] + (lines(x2) + lines(r)) =~= (seq![strip_cr(x.take(i))]
            + lines(x2)) + lines(r));
    }
}

/// Trimming the end of a text that starts with a non-white-space character
/// leaves that character.
pub proof fn lemma_trim_end_keeps_first(s: Seq<char>)
    requires
        s.len() > 0,
        !is_ws(s[0]),
    ensures
        trim_end(s).len() > 0,
    decreases s.len(),
{
    if is_ws(s.last()) {
        assert(s.len() >= 2);
        assert(s.drop_last()[0] == s[0]);
        lemma_trim_end_keeps_first(s.drop_last());
    }
}

/// White space added at the end does not change the trimmed end.
pub proof fn lemma_trim_end_drops_ws(x: Seq<char>, w: Seq<char>)
    requires
        forall|k: int| 0 <= k < w.len() ==> is_ws(#[trigger] w[k]),
    ensures
        trim_end(x + w) == trim_end(x),
    decreases w.len(),
{
    if w.len() == 0 {
        assert(x + w =~= x);
    } else {
        assert((x + w).last() == w.last());
        assert((x + w).drop_last() =~= x + w.drop_last());
        assert forall|k: int| 0 <= k < w.drop_last().len() implies is_ws(#[trigger] w.drop_last()[k]) by {
            assert(w.drop_last()[k] == w[k]);
        }
        lemma_trim_end_drops_ws(x, w.drop_last());
    }
}

/// Text without carriage returns: its lines, each followed by a newline, give
/// the text back, with a newline added when it did not end with one.
pub proof fn lemma_join_lines_of_lines(c: Seq<char>)
    requires
        forall|k: int| 0 <= k < c.len() ==> #[trigger] c[k] != '\r',
    ensures
        crate::client::join_lines(lines(c)) == (if c.len() == 0 || c.last() == '\n' {
            c
        } else {
            c + seq!['\n']
        }),
    decreases c.len(),
{
    if c.len() > 0 {
        lemma_index_of(c, '\n');
        let i = index_of(c, '\n');
        if i == c.len() {
            lemma_lines_last(c);
            let ls = seq![c];
            assert(ls[0] == c);
            assert(ls.drop_first() =~= Seq::<Seq<char>>::empty());
            assert(crate::client::join_lines(Seq::<Seq<char>>::empty()) == Seq::<char>::empty());
            assert(c + seq!['\n'] + Seq::<char>::empty() =~= c + seq!['\n']);
        } else {
            lemma_lines_step(c, i);
            let first = c.take(i);
            let rest = c.skip(i + 1);
            assert(first.len() == 0 || first.last() != '\r');
            assert(strip_cr(first) == first);
            assert forall|k: int| 0 <= k < rest.len() implies #[trigger] rest[k] != '\r' by {
                assert(rest[k] == c[k + i + 1]);
            }
            lemma_join_lines_of_lines(rest);
            let ls = seq![first] + lines(rest);
            assert(ls[0] == first);
            assert(ls.drop_first() =~= lines(rest));
            if rest.len() == 0 {
                assert(c =~= first + seq!['\n'] + rest);
                assert(c.last() == '\n');
            } else {
                assert(rest.last() == c.last());
                assert(c =~= first + seq!['\n'] + rest);
                assert(c + seq!['\n'] =~= first + seq!['\n'] + (rest + seq!['\n']));
            }
        }
    }
}

/// `lines` of a text without a newline: none when empty, else the text.
pub proof fn lemma_lines_last_or_empty(y: Seq<char>)
    requires
        forall|k: int| 0 <= k < y.len() ==> y[k] != '\n',
    ensures
        lines(y) == (if y.len() == 0 {
            Seq::<Seq<char>>::empty()
        } else {
            seq![y]
        }),
{
    if y.len() > 0 {
        lemma_lines_last(y);
    }
}

// ---------------------------------------------------------------------------
// Executable functions
// ---------------------------------------------------------------------------

/// Appends one character to a string.
#[verifier::external_body]
pub(crate) fn push_char(s: &mut String, c: char)
    ensures
        final(s)@ == old(s)@.push(c),
{
    s.push(c);
}

/// An owned copy of a string slice.
pub fn owned(s: &str) -> (r: String)
    ensures
        r@ == s@,
{
    s.to_owned()
}

/// The characters of a string slice, in order.
pub fn chars_of(s: &str) -> (v: Vec<char>)
    ensures
        v@ == s@,
{
    let mut v: Vec<char> = Vec::new();
    for c in it: s.chars()
        invariant
            v@ == it.seq().take(it.index()),
    {
        v.push(c);
    }
    v
}

/// A string holding exactly the given characters.
pub fn string_of(v: &Vec<char>) -> (s: String)
    ensures
        s@ == v@,
{
    let mut s = String::new();
    let mut i: usize = 0;
    while i < v.len()
        invariant
            i <= v.len(),
            s@ == v@.take(i as int),
        decreases v.len() - i,
    {
        push_char(&mut s, v[i]);
        assert(v@.take(i + 1) =~= v@.take(i as int).push(v@[i as int]));
        i += 1;
    }
    assert(v@.take(v.len() as int) =~= v@);
    s
}

/// The characters `v[lo..hi]`.
pub fn slice_of(v: &Vec<char>, lo: usize, hi: usize) -> (r: Vec<char>)
    requires
        lo <= hi <= v.len(),
    ensures
        r@ == v@.subrange(lo as int, hi as int),
{
    let mut r: Vec<char> = Vec::new();
    let mut i: usize = lo;
    while i < hi
        invariant
            lo <= i <= hi <= v.len(),
            r@ == v@.subrange(lo as int, i as int),
        decreases hi - i,
    {
        r.push(v[i]);
        assert(v@.subrange(lo as int, i + 1) =~= v@.subrange(lo as int, i as int).push(v@[i as int]));
        i += 1;
    }
    r
}

/// Appends the characters of `src` to `dst`.
pub fn extend(dst: &mut Vec<char>, src: &Vec<char>)
    ensures
        final(dst)@ == old(dst)@ + src@,
{
    let mut i: usize = 0;
    while i < src.len()
        invariant
            i <= src.len(),
            dst@ == old(dst)@ + src@.take(i as int),
        decreases src.len() - i,
    {
        dst.push(src[i]);
        assert(src@.take(i + 1) =~= src@.take(i as int).push(src@[i as int]));
        i += 1;
    }
    assert(src@.take(src.len() as int) =~= src@);
}

/// Appends the characters of a string slice to `dst`.
pub fn extend_str(dst: &mut Vec<char>, src: &str)
    ensures
        final(dst)@ == old(dst)@ + src@,
{
    let v = chars_of(src);
    extend(dst, &v);
}

/// Character-wise equality.
pub fn chars_eq(a: &Vec<char>, b: &Vec<char>) -> (r: bool)
    ensures
        r == (a@ == b@),
{
    if a.len() != b.len() {
        return false;
    }
    let mut i: usize = 0;
    while i < a.len()
        invariant
            i <= a.len() == b.len(),
            forall|k: int| 0 <= k < i ==> a@[k] == b@[k],
        decreases a.len() - i,
    {
        if a[i] != b[i] {
            return false;
        }
        i += 1;
    }
    assert(a@ =~= b@);
    true
}

/// Whether `c` is white space in the sense of `char::is_whitespace`.
pub fn is_whitespace(c: char) -> (r: bool)
    ensures
        r == is_ws(c),
{
    ('\u{9}' <= c && c <= '\u{d}') || c == ' ' || c == '\u{85}' || c == '\u{a0}' || c
        == '\u{1680}' || ('\u{2000}' <= c && c <= '\u{200a}') || c == '\u{2028}' || c
        == '\u{2029}' || c == '\u{202f}' || c == '\u{205f}' || c == '\u{3000}'
}

/// `str::trim_start`.
pub fn trim_start_chars(v: &Vec<char>) -> (r: Vec<char>)
    ensures
        r@ == trim_start(v@),
{
    let mut k: usize = 0;
    while k < v.len() && is_whitespace(v[k])
        invariant
            k <= v.len(),
            forall|j: int| 0 <= j < k ==> is_ws(v@[j]),
        decreases v.len() - k,
    {
        k += 1;
    }
    proof {
        lemma_trim_start_is(v@, k as int);
    }
    slice_of(v, k, v.len())
}

/// `str::trim_end`.
pub fn trim_end_chars(v: &Vec<char>) -> (r: Vec<char>)
    ensures
        r@ == trim_end(v@),
{
    let mut k: usize = v.len();
    while k > 0 && is_whitespace(v[k - 1])
        invariant
            k <= v.len(),
            forall|j: int| k <= j < v.len() ==> is_ws(v@[j]),
        decreases k,
    {
        k -= 1;
    }
    proof {
        lemma_trim_end_is(v@, k as int);
    }
    slice_of(v, 0, k)
}

/// `str::trim`.
pub fn trim_chars(v: &Vec<char>) -> (r: Vec<char>)
    ensures
        r@ == trim(v@),
{
    let t = trim_start_chars(v);
    trim_end_chars(&t)
}

/// `str::lines`.
pub fn lines_of(v: &Vec<char>) -> (r: Vec<Vec<char>>)
    ensures
        views(r@) == lines(v@),
{
    let mut r: Vec<Vec<char>> = Vec::new();
    let mut start: usize = 0;
    let mut j: usize = 0;
    let n = v.len();
    assert(v@.skip(0) =~= v@);
    assert(views(r@) =~= Seq::<Seq<char>>::empty());
    while j < n
        invariant
            n == v.len(),
            start <= j <= n,
            forall|k: int| start <= k < j ==> v@[k] != '\n',
            views(r@) + lines(v@.skip(start as int)) == lines(v@),
        decreases n - j,
    {
        if v[j] == '\n' {
            let mut end = j;
            if end > start && v[end - 1] == '\r' {
                end = end - 1;
            }
            let line = slice_of(v, start, end);
            proof {
                let s = v@.skip(start as int);
                assert forall|k: int| 0 <= k < j - start implies s[k] != '\n' by {
                    assert(s[k] == v@[start + k]);
                }
                lemma_lines_step(s, j - start);
                assert(s.skip(j - start + 1) =~= v@.skip(j + 1));
                assert(strip_cr(s.take(j - start)) =~= line@);
            }
            let ghost old_r = views(r@);
            r.push(line);
            assert(views(r@) =~= old_r.push(line@));
            assert(views(r@) + lines(v@.skip(j + 1)) =~= old_r + lines(v@.skip(start as int)));
            start = j + 1;
        }
        j += 1;
    }
    if start < n {
        let line = slice_of(v, start, n);
        proof {
            let s = v@.skip(start as int);
            assert forall|k: int| 0 <= k < s.len() implies s[k] != '\n' by {
                assert(s[k] == v@[start + k]);
            }
            lemma_lines_last(s);
            assert(line@ =~= s);
        }
        let ghost old_r = views(r@);
        r.push(line);
        assert(views(r@) =~= old_r.push(line@));
        assert(views(r@) =~= old_r + lines(v@.skip(start as int)));
    } else {
        assert(views(r@) =~= views(r@) + lines(v@.skip(start as int)));
    }
    r
}

/// `str::split` on one character.
pub fn split_chars(v: &Vec<char>, c: char) -> (r: Vec<Vec<char>>)
    ensures
        views(r@) == split_on(v@, c),
{
    let mut r: Vec<Vec<char>> = Vec::new();
    let mut start: usize = 0;
    let mut j: usize = 0;
    let n = v.len();
    assert(v@.skip(0) =~= v@);
    assert(views(r@) =~= Seq::<Seq<char>>::empty());
    while j < n
        invariant
            n == v.len(),
            start <= j <= n,
            forall|k: int| start <= k < j ==> v@[k] != c,
            views(r@) + split_on(v@.skip(start as int), c) == split_on(v@, c),
        decreases n - j,
    {
        if v[j] == c {
            let piece = slice_of(v, start, j);
            proof {
                let s = v@.skip(start as int);
                assert forall|k: int| 0 <= k < j - start implies s[k] != c by {
                    assert(s[k] == v@[start + k]);
                }
                lemma_split_step(s, c, j - start);
                assert(s.skip(j - start + 1) =~= v@.skip(j + 1));
                assert(s.take(j - start) =~= piece@);
            }
            let ghost old_r = views(r@);
            r.push(piece);
            assert(views(r@) =~= old_r.push(piece@));
            assert(views(r@) + split_on(v@.skip(j + 1), c) =~= old_r + split_on(
                v@.skip(start as int),
                c,
            ));
            start = j + 1;
        }
        j += 1;
    }
    let piece = slice_of(v, start, n);
    proof {
        let s = v@.skip(start as int);
        assert forall|k: int| 0 <= k < s.len() implies s[k] != c by {
            assert(s[k] == v@[start + k]);
        }
        lemma_split_last(s, c);
        assert(piece@ =~= s);
    }
    let ghost old_r = views(r@);
    r.push(piece);
    assert(views(r@) =~= old_r.push(piece@));
    assert(views(r@) =~= old_r + split_on(v@.skip(start as int), c));
    r
}

/// `str::split_whitespace`.
pub fn words_of(v: &Vec<char>) -> (r: Vec<Vec<char>>)
    ensures
        views(r@) == words(v@),
{
    let mut r: Vec<Vec<char>> = Vec::new();
    let mut pos: usize = 0;
    let n = v.len();
    assert(v@.skip(0) =~= v@);
    assert(views(r@) =~= Seq::<Seq<char>>::empty());
    while pos < n
        invariant
            n == v.len(),
            pos <= n,
            views(r@) + words(v@.skip(pos as int)) == words(v@),
        decreases n - pos,
    {
        let mut k = pos;
        while k < n && is_whitespace(v[k])
            invariant
                pos <= k <= n == v.len(),
                forall|j: int| pos <= j < k ==> is_ws(v@[j]),
            decreases n - k,
        {
            k += 1;
        }
        if k == n {
            proof {
                let s = v@.skip(pos as int);
                assert forall|j: int| 0 <= j < s.len() implies is_ws(s[j]) by {
                    assert(s[j] == v@[pos + j]);
                }
                lemma_words_blank(s);
                assert(views(r@) + words(s) =~= views(r@));
                assert(v@.skip(n as int) =~= Seq::<char>::empty());
                lemma_words_blank(v@.skip(n as int));
                assert(views(r@) + words(v@.skip(n as int)) =~= views(r@));
            }
            pos = n;
        } else {
            let mut e = k;
            while e < n && !is_whitespace(v[e])
                invariant
                    k <= e <= n == v.len(),
                    forall|j: int| k <= j < e ==> !is_ws(v@[j]),
                decreases n - e,
            {
                e += 1;
            }
            let word = slice_of(v, k, e);
            proof {
                let s = v@.skip(pos as int);
                assert forall|j: int| 0 <= j < k - pos implies is_ws(s[j]) by {
                    assert(s[j] == v@[pos + j]);
                }
                assert forall|j: int| k - pos <= j < e - pos implies !is_ws(s[j]) by {
                    assert(s[j] == v@[pos + j]);
                }
                if e < n {
                    assert(s[e - pos] == v@[e as int]);
                }
                lemma_words_step(s, k - pos, e - k);
                assert(s.subrange(k - pos, e - pos) =~= word@);
                assert(s.skip(e - pos) =~= v@.skip(e as int));
            }
            let ghost old_r = views(r@);
            r.push(word);
            assert(views(r@) =~= old_r.push(word@));
            assert(views(r@) + words(v@.skip(e as int)) =~= old_r + words(v@.skip(pos as int)));
            pos = e;
        }
    }
    proof {
        assert(v@.skip(pos as int) =~= Seq::<char>::empty());
        lemma_words_blank(v@.skip(pos as int));
        assert(views(r@) + words(v@.skip(pos as int)) =~= views(r@));
    }
    r
}

/// Whether `p` occurs in `s` at position `i`.
pub fn occurs_at_exec(s: &Vec<char>, p: &Vec<char>, i: usize) -> (r: bool)
    ensures
        r == occurs_at(s@, p@, i as int),
{
    if i > s.len() || p.len() > s.len() - i {
        return false;
    }
    let mut k: usize = 0;
    while k < p.len()
        invariant
            i + p.len() <= s.len(),
            k <= p.len(),
            forall|m: int| 0 <= m < k ==> s@[i + m] == p@[m],
        decreases p.len() - k,
    {
        if s[i + k] != p[k] {
            assert(s@.subrange(i as int, i + p.len())[k as int] != p@[k as int]);
            return false;
        }
        k += 1;
    }
    assert(s@.subrange(i as int, i + p.len()) =~= p@);
    true
}

/// First position at or after `from` where `p` occurs in `s`.
pub fn find_from_exec(s: &Vec<char>, p: &Vec<char>, from: usize) -> (r: Option<usize>)
    ensures
        r matches Some(i) ==> find_from(s@, p@, from as int) == Some(i as int),
        r is None ==> find_from(s@, p@, from as int) is None,
{
    if p.len() == 0 {
        if from <= s.len() {
            assert(s@.subrange(from as int, from as int) =~= p@);
            return Some(from);
        }
        return None;
    }
    let mut i = from;
    while i <= s.len() && p.len() <= s.len() - i
        invariant
            from <= i,
            p.len() > 0,
            find_from(s@, p@, from as int) == find_from(s@, p@, i as int),
        decreases s.len() + 1 - i,
    {
        if occurs_at_exec(s, p, i) {
            return Some(i);
        }
        i += 1;
    }
    None
}

/// `str::contains`.
pub fn contains_chars(s: &Vec<char>, p: &Vec<char>) -> (r: bool)
    ensures
        r == contains(s@, p@),
{
    let found = find_from_exec(s, p, 0);
    proof {
        lemma_find_from_contains(s@, p@, 0);
    }
    found.is_some()
}

/// `str::contains` with a string slice pattern.
pub fn contains_str(s: &Vec<char>, p: &str) -> (r: bool)
    ensures
        r == contains(s@, p@),
{
    let pv = chars_of(p);
    contains_chars(s, &pv)
}

/// `str::starts_with`.
pub fn starts_with_chars(s: &Vec<char>, p: &Vec<char>) -> (r: bool)
    ensures
        r == starts_with(s@, p@),
{
    let r = occurs_at_exec(s, p, 0);
    assert(r ==> s@.take(p@.len() as int) =~= s@.subrange(0, p@.len() as int));
    assert(starts_with(s@, p@) ==> s@.take(p@.len() as int) =~= s@.subrange(0, p@.len() as int));
    r
}

/// `str::starts_with` with a string slice pattern.
pub fn starts_with_str(s: &Vec<char>, p: &str) -> (r: bool)
    ensures
        r == starts_with(s@, p@),
{
    let pv = chars_of(p);
    starts_with_chars(s, &pv)
}

/// `str::ends_with`.
pub fn ends_with_chars(s: &Vec<char>, p: &Vec<char>) -> (r: bool)
    ensures
        r == ends_with(s@, p@),
{
    if p.len() > s.len() {
        return false;
    }
    let r = occurs_at_exec(s, p, s.len() - p.len());
    assert(s@.skip(s@.len() - p@.len()) =~= s@.subrange(s@.len() - p@.len(), s@.len() as int));
    r
}

/// `str::split_once` with a multi-character pattern.
pub fn split_once_chars(s: &Vec<char>, p: &Vec<char>) -> (r: Option<(Vec<char>, Vec<char>)>)
    ensures
        r matches Some(pair) ==> split_once(s@, p@) == Some((pair.0@, pair.1@)),
        r is None ==> split_once(s@, p@) is None,
{
    match find_from_exec(s, p, 0) {
        Some(i) => {
            proof {
                lemma_find_from_bounds(s@, p@, 0);
                assert(occurs_at(s@, p@, i as int));
            }
            let a = slice_of(s, 0, i);
            let b = slice_of(s, i + p.len(), s.len());
            assert(a@ =~= s@.take(i as int));
            assert(b@ =~= s@.skip(i + p@.len()));
            Some((a, b))
        },
        None => None,
    }
}

/// Where `find_from` reports a position, `p` occurs there.
pub proof fn lemma_find_from_bounds(s: Seq<char>, p: Seq<char>, from: int)
    requires
        from >= 0,
    ensures
        find_from(s, p, from) matches Some(i) ==> from <= i && occurs_at(s, p, i),
        find_from(s, p, from) matches Some(i) ==> forall|k: int|
            from <= k < i ==> !occurs_at(s, p, k),
        find_from(s, p, from) is None ==> forall|k: int| from <= k ==> !occurs_at(s, p, k),
    decreases s.len() + 1 - from,
{
    if from < 0 || from + p.len() > s.len() {
    } else if s.subrange(from, from + p.len()) == p {
    } else {
        lemma_find_from_bounds(s, p, from + 1);
    }
}

/// `find_from` from position `from` succeeds exactly when `p` occurs at or after `from`.
pub proof fn lemma_find_from_contains(s: Seq<char>, p: Seq<char>, from: int)
    requires
        from == 0,
    ensures
        find_from(s, p, from) is Some <==> contains(s, p),
{
    lemma_find_from_bounds(s, p, from);
    if find_from(s, p, from) is Some {
        let i = find_from(s, p, from)->0;
        assert(occurs_at(s, p, i));
    }
}

} // verus!
