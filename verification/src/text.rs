//! Character sequences: the operations on text that the document grammar is
//! built from, each with its meaning as a function on `Seq<char>`.

use vstd::prelude::*;
use vstd::std_specs::iter::IteratorSpec;

verus! {

/// The characters of `s`, in order.
pub fn chars_of(s: &str) -> (r: Vec<char>)
    ensures
        r@ == s@,
{
    broadcast use vstd::string::group_string_axioms;

    let mut out: Vec<char> = Vec::new();
    let mut it = s.chars();
    loop
        invariant
            it.obeys_prophetic_iter_laws(),
            out@ + it.remaining() == s@,
        ensures
            out@ == s@,
        decreases s@.len() - out@.len(),
    {
        match it.next() {
            Some(c) => {
                out.push(c);
            },
            None => {
                assert(out@ =~= out@ + it.remaining());
                break ;
            },
        }
    }
    out
}

/// The string whose characters are `v`, in order. Built by std's
/// `String::from_iter`, which collects the characters it is handed; the
/// contract says that none is lost, added or moved.
#[verifier::external_body]
pub(crate) fn string_of(v: &Vec<char>) -> (r: String)
    ensures
        r@ == v@,
{
    String::from_iter(v.iter())
}

/// `pat` stands in `s` at position `i`.
pub open spec fn occurs_at(s: Seq<char>, pat: Seq<char>, i: int) -> bool {
    &&& 0 <= i
    &&& i + pat.len() <= s.len()
    &&& s.subrange(i, i + pat.len()) == pat
}

/// `pat` stands somewhere in `s`.
pub open spec fn contains(s: Seq<char>, pat: Seq<char>) -> bool {
    exists|i: int| occurs_at(s, pat, i)
}

/// `s` with every occurrence of `from` replaced by `to`, the occurrences
/// taken from the left and never overlapping. An empty `from` occurs nowhere.
pub open spec fn replace_all(s: Seq<char>, from: Seq<char>, to: Seq<char>) -> Seq<char>
    decreases s.len(),
{
    if from.len() == 0 || s.len() < from.len() {
        s
    } else if occurs_at(s, from, 0) {
        to + replace_all(s.skip(from.len() as int), from, to)
    } else {
        seq![s[0]] + replace_all(s.skip(1), from, to)
    }
}

/// Whether `pat` stands in `s` at position `i`.
pub fn matches_at(s: &Vec<char>, pat: &Vec<char>, i: usize) -> (r: bool)
    ensures
        r == occurs_at(s@, pat@, i as int),
{
    if pat.len() > s.len() || i > s.len() - pat.len() {
        return false;
    }
    let mut k: usize = 0;
    while k < pat.len()
        invariant
            k <= pat.len(),
            i + pat.len() <= s.len(),
            forall|j: int| 0 <= j < k ==> s@[i + j] == pat@[j],
        decreases pat.len() - k,
    {
        if s[i + k] != pat[k] {
            assert(s@.subrange(i as int, i + pat.len())[k as int] != pat@[k as int]);
            return false;
        }
        k += 1;
    }
    assert(s@.subrange(i as int, i + pat.len()) =~= pat@);
    true
}

/// Whether `pat` stands somewhere in `s`.
pub fn find_in(s: &Vec<char>, pat: &Vec<char>) -> (r: bool)
    ensures
        r == contains(s@, pat@),
{
    if pat.len() > s.len() {
        return false;
    }
    let last: usize = s.len() - pat.len();
    let mut i: usize = 0;
    loop
        invariant
            last == s.len() - pat.len(),
            i <= last,
            forall|j: int| 0 <= j < i ==> !occurs_at(s@, pat@, j),
        ensures
            forall|j: int| !occurs_at(s@, pat@, j),
        decreases last - i,
    {
        if matches_at(s, pat, i) {
            return true;
        }
        if i == last {
            break ;
        }
        i += 1;
    }
    false
}

/// Relates the occurrences of `from` in a suffix of `s` to those in `s`.
proof fn lemma_occurs_in_suffix(s: Seq<char>, from: Seq<char>, i: int)
    requires
        0 <= i <= s.len(),
    ensures
        occurs_at(s.skip(i), from, 0) == occurs_at(s, from, i),
{
    if i + from.len() <= s.len() {
        assert(s.skip(i).subrange(0, from.len() as int) =~= s.subrange(i, i + from.len()));
    }
}

/// `s` with every occurrence of `from` replaced by `to`.
pub fn replace(s: &Vec<char>, from: &Vec<char>, to: &Vec<char>) -> (r: Vec<char>)
    ensures
        r@ == replace_all(s@, from@, to@),
{
    let mut out: Vec<char> = Vec::new();
    let mut i: usize = 0;
    assert(out@ + replace_all(s@.skip(0), from@, to@) =~= replace_all(s@, from@, to@)) by {
        assert(s@.skip(0) =~= s@);
    }
    while i < s.len()
        invariant
            i <= s.len(),
            replace_all(s@, from@, to@) == out@ + replace_all(s@.skip(i as int), from@, to@),
        decreases s.len() - i,
    {
        let ghost rest = s@.skip(i as int);
        proof {
            lemma_occurs_in_suffix(s@, from@, i as int);
        }
        if from.len() > 0 && matches_at(s, from, i) {
            let mut k: usize = 0;
            let ghost before = out@;
            while k < to.len()
                invariant
                    k <= to.len(),
                    out@ == before + to@.take(k as int),
                decreases to.len() - k,
            {
                out.push(to[k]);
                assert(out@ =~= before + to@.take(k + 1));
                k += 1;
            }
            assert(to@.take(to.len() as int) =~= to@);
            assert(rest.skip(from.len() as int) =~= s@.skip(i + from.len()));
            assert(before + to@ + replace_all(rest.skip(from.len() as int), from@, to@) =~= before
                + (to@ + replace_all(rest.skip(from.len() as int), from@, to@)));
            i += from.len();
        } else {
            let ghost before = out@;
            out.push(s[i]);
            proof {
                assert(rest.skip(1) =~= s@.skip(i + 1));
                if from@.len() == 0 || rest.len() < from@.len() {
                    assert(rest =~= seq![rest[0]] + rest.skip(1));
                }
                assert(out@ + replace_all(rest.skip(1), from@, to@) =~= before + (seq![rest[0]]
                    + replace_all(rest.skip(1), from@, to@)));
            }
            i += 1;
        }
    }
    assert(s@.skip(s.len() as int) =~= Seq::<char>::empty());
    assert(out@ + Seq::<char>::empty() =~= out@);
    out
}

/// Replacing what does not occur changes nothing.
pub proof fn lemma_replace_absent(s: Seq<char>, from: Seq<char>, to: Seq<char>)
    requires
        !contains(s, from),
    ensures
        replace_all(s, from, to) == s,
    decreases s.len(),
{
    if from.len() == 0 || s.len() < from.len() {
    } else {
        let rest = s.skip(1);
        assert forall|i: int| !occurs_at(rest, from, i) by {
            if occurs_at(rest, from, i) {
                assert(s.subrange(i + 1, i + 1 + from.len()) =~= rest.subrange(i, i + from.len()));
                assert(occurs_at(s, from, i + 1));
            }
        }
        lemma_replace_absent(rest, from, to);
        assert(seq![s[0]] + rest =~= s);
    }
}

/// What contains `a + b` contains `a`.
pub proof fn lemma_contains_prefix(s: Seq<char>, a: Seq<char>, b: Seq<char>)
    requires
        contains(s, a + b),
    ensures
        contains(s, a),
{
    let i = choose|i: int| occurs_at(s, a + b, i);
    assert(s.subrange(i, i + a.len()) =~= s.subrange(i, i + (a + b).len()).subrange(
        0,
        a.len() as int,
    ));
    assert((a + b).subrange(0, a.len() as int) =~= a);
    assert(occurs_at(s, a, i));
}

/// Whether `c` is white space: a character with the Unicode property
/// `White_Space`. These are the tabs and line ends U+0009 to U+000D, the
/// space, U+0085, U+00A0, U+1680, the spaces U+2000 to U+200A, U+2028,
/// U+2029, U+202F, U+205F and U+3000.
pub open spec fn is_whitespace(c: char) -> bool {
    let n = c as u32;
    ||| 0x09 <= n <= 0x0D
    ||| n == 0x20
    ||| n == 0x85
    ||| n == 0xA0
    ||| n == 0x1680
    ||| 0x2000 <= n <= 0x200A
    ||| n == 0x2028
    ||| n == 0x2029
    ||| n == 0x202F
    ||| n == 0x205F
    ||| n == 0x3000
}

/// Whether `c` is white space.
pub fn char_is_whitespace(c: char) -> (r: bool)
    ensures
        r == is_whitespace(c),
{
    let n: u32 = c as u32;
    (0x09 <= n && n <= 0x0D) || n == 0x20 || n == 0x85 || n == 0xA0 || n == 0x1680 || (0x2000 <= n
        && n <= 0x200A) || n == 0x2028 || n == 0x2029 || n == 0x202F || n == 0x205F || n == 0x3000
}

/// The views of some texts, in order.
pub open spec fn texts(v: Seq<Vec<char>>) -> Seq<Seq<char>> {
    Seq::new(v.len(), |i: int| v[i]@)
}

/// The number of items at the front of `s` that all satisfy `p`.
pub open spec fn prefix_len<T>(s: Seq<T>, p: spec_fn(T) -> bool) -> int
    decreases s.len(),
{
    if s.len() == 0 || !p(s[0]) {
        0
    } else {
        1 + prefix_len(s.skip(1), p)
    }
}

/// The number of characters at the back of `s` that all satisfy `p`.
pub open spec fn suffix_len(s: Seq<char>, p: spec_fn(char) -> bool) -> int
    decreases s.len(),
{
    if s.len() == 0 || !p(s.last()) {
        0
    } else {
        1 + suffix_len(s.drop_last(), p)
    }
}

/// `prefix_len` is the position of the first item that fails `p`.
pub proof fn lemma_prefix_len<T>(s: Seq<T>, p: spec_fn(T) -> bool, k: int)
    requires
        0 <= k <= s.len(),
        forall|j: int| 0 <= j < k ==> p(#[trigger] s[j]),
        k == s.len() || !p(s[k]),
    ensures
        prefix_len(s, p) == k,
    decreases k,
{
    if k > 0 {
        let t = s.skip(1);
        assert forall|j: int| 0 <= j < k - 1 implies p(#[trigger] t[j]) by {
            assert(t[j] == s[j + 1]);
        }
        lemma_prefix_len(t, p, k - 1);
    }
}

/// What `prefix_len` is: every item before it satisfies `p`, and the item at
/// it, where there is one, does not.
pub proof fn lemma_prefix_len_is_first<T>(s: Seq<T>, p: spec_fn(T) -> bool)
    ensures
        0 <= prefix_len(s, p) <= s.len(),
        forall|j: int| 0 <= j < prefix_len(s, p) ==> p(#[trigger] s[j]),
        prefix_len(s, p) < s.len() ==> !p(s[prefix_len(s, p)]),
    decreases s.len(),
{
    if s.len() == 0 || !p(s[0]) {
    } else {
        let rest = s.skip(1);
        lemma_prefix_len_is_first(rest, p);
        assert forall|j: int| 0 <= j < prefix_len(s, p) implies p(#[trigger] s[j]) by {
            if j > 0 {
                assert(s[j] == rest[j - 1]);
            }
        }
        if prefix_len(s, p) < s.len() {
            assert(s[prefix_len(s, p)] == rest[prefix_len(rest, p)]);
        }
    }
}

/// `suffix_len` counts back to the last character that fails `p`.
pub proof fn lemma_suffix_len(s: Seq<char>, p: spec_fn(char) -> bool, k: int)
    requires
        0 <= k <= s.len(),
        forall|j: int| s.len() - k <= j < s.len() ==> p(#[trigger] s[j]),
        k == s.len() || !p(s[s.len() - k - 1]),
    ensures
        suffix_len(s, p) == k,
    decreases k,
{
    if k > 0 {
        let t = s.drop_last();
        assert forall|j: int| t.len() - (k - 1) <= j < t.len() implies p(#[trigger] t[j]) by {
            assert(t[j] == s[j]);
        }
        lemma_suffix_len(t, p, k - 1);
    }
}

/// The characters of `s` from `lo` up to, not including, `hi`.
pub fn slice_of(s: &Vec<char>, lo: usize, hi: usize) -> (r: Vec<char>)
    requires
        lo <= hi <= s.len(),
    ensures
        r@ == s@.subrange(lo as int, hi as int),
{
    let mut out: Vec<char> = Vec::new();
    let mut i: usize = lo;
    while i < hi
        invariant
            lo <= i <= hi <= s.len(),
            out@ == s@.subrange(lo as int, i as int),
        decreases hi - i,
    {
        out.push(s[i]);
        assert(out@ =~= s@.subrange(lo as int, i + 1));
        i += 1;
    }
    out
}

/// `s` without the carriage return that may end it.
pub open spec fn without_cr(s: Seq<char>) -> Seq<char> {
    if s.len() > 0 && s.last() == '\r' {
        s.drop_last()
    } else {
        s
    }
}

/// The lines of `s`. A line ends with a line feed, or with a carriage return
/// and a line feed; neither belongs to the line. What follows the last line
/// feed is a line too, unless it is empty.
pub open spec fn lines(s: Seq<char>) -> Seq<Seq<char>>
    decreases s.len(),
{
    let n = prefix_len(s, |c: char| c != '\n');
    if s.len() == 0 {
        Seq::empty()
    } else if n < 0 || n >= s.len() {
        seq![s]
    } else {
        seq![without_cr(s.take(n))] + lines(s.skip(n + 1))
    }
}

/// The lines of `s`.
pub fn split_lines(s: &Vec<char>) -> (r: Vec<Vec<char>>)
    ensures
        texts(r@) == lines(s@),
{
    let mut out: Vec<Vec<char>> = Vec::new();
    let mut start: usize = 0;
    let mut i: usize = 0;
    assert(texts(out@) + lines(s@.skip(0)) =~= lines(s@)) by {
        assert(s@.skip(0) =~= s@);
    }
    while i < s.len()
        invariant
            start <= i <= s.len(),
            forall|j: int| start <= j < i ==> s@[j] != '\n',
            lines(s@) == texts(out@) + lines(s@.skip(start as int)),
        decreases s.len() - i,
    {
        if s[i] == '\n' {
            let ghost rest = s@.skip(start as int);
            let ghost before = texts(out@);
            let end: usize = if i > start && s[i - 1] == '\r' {
                i - 1
            } else {
                i
            };
            let line = slice_of(s, start, end);
            proof {
                lemma_prefix_len(rest, |c: char| c != '\n', i - start);
                assert(rest.take(i - start) =~= s@.subrange(start as int, i as int));
                assert(line@ =~= without_cr(rest.take(i - start)));
                assert(rest.skip(i - start + 1) =~= s@.skip(i + 1));
            }
            out.push(line);
            assert(texts(out@) =~= before.push(line@));
            assert(before.push(line@) + lines(s@.skip(i + 1)) =~= before + (seq![line@] + lines(
                s@.skip(i + 1),
            )));
            start = i + 1;
        }
        i += 1;
    }
    let ghost rest = s@.skip(start as int);
    let ghost before = texts(out@);
    if start < s.len() {
        let line = slice_of(s, start, s.len());
        proof {
            lemma_prefix_len(rest, |c: char| c != '\n', s.len() - start);
            assert(line@ =~= rest);
        }
        out.push(line);
        assert(texts(out@) =~= before + seq![rest]);
    } else {
        assert(before + Seq::<Seq<char>>::empty() =~= before);
    }
    out
}

/// The items one after the other, with `sep` between each two.
pub open spec fn join(items: Seq<Seq<char>>, sep: Seq<char>) -> Seq<char>
    decreases items.len(),
{
    if items.len() == 0 {
        Seq::empty()
    } else if items.len() == 1 {
        items[0]
    } else {
        join(items.drop_last(), sep) + sep + items.last()
    }
}

/// The lines joined again, with a line feed between each two.
pub open spec fn join_lines(ls: Seq<Seq<char>>) -> Seq<char> {
    join(ls, seq!['\n'])
}

/// The items one after the other, with `sep` between each two.
pub fn join_strings(items: &Vec<String>, sep: &str) -> (r: String)
    ensures
        r@ == join(items.deep_view(), sep@),
{
    let ghost all = items.deep_view();
    let mut out = String::new();
    let mut k: usize = 0;
    assert(all.take(0) =~= Seq::<Seq<char>>::empty());
    while k < items.len()
        invariant
            k <= items.len(),
            all == items.deep_view(),
            out@ == join(all.take(k as int), sep@),
        decreases items.len() - k,
    {
        proof {
            let upto = all.take(k + 1);
            assert(upto.drop_last() =~= all.take(k as int));
            assert(upto.last() == items@[k as int]@);
            if k == 0 {
                assert(Seq::<char>::empty() + items@[k as int]@ =~= items@[k as int]@);
            }
        }
        if k > 0 {
            out = out.concat(sep);
        }
        out = out.concat(items[k].as_str());
        k += 1;
    }
    assert(all.take(items.len() as int) =~= all);
    out
}

/// `s` without the white space at its front and at its back.
pub open spec fn trim(s: Seq<char>) -> Seq<char> {
    let t = s.skip(prefix_len(s, |c: char| is_whitespace(c)));
    t.take(t.len() - suffix_len(t, |c: char| is_whitespace(c)))
}

/// `s` without the white space at its front and at its back.
pub fn trim_chars(s: &Vec<char>) -> (r: Vec<char>)
    ensures
        r@ == trim(s@),
{
    let mut lo: usize = 0;
    while lo < s.len() && char_is_whitespace(s[lo])
        invariant
            lo <= s.len(),
            forall|j: int| 0 <= j < lo ==> is_whitespace(#[trigger] s@[j]),
        decreases s.len() - lo,
    {
        lo += 1;
    }
    let mut hi: usize = s.len();
    while hi > lo && char_is_whitespace(s[hi - 1])
        invariant
            lo <= hi <= s.len(),
            forall|j: int| hi <= j < s.len() ==> is_whitespace(#[trigger] s@[j]),
        decreases hi,
    {
        hi -= 1;
    }
    proof {
        let ws = |c: char| is_whitespace(c);
        lemma_prefix_len(s@, ws, lo as int);
        let t = s@.skip(lo as int);
        assert forall|j: int| t.len() - (s.len() - hi) <= j < t.len() implies ws(#[trigger] t[j]) by {
            assert(t[j] == s@[j + lo]);
        }
        lemma_suffix_len(t, ws, s.len() - hi);
        assert(t.take(t.len() - (s.len() - hi)) =~= s@.subrange(lo as int, hi as int));
    }
    slice_of(s, lo, hi)
}

/// A trimmed text has no white space at its front or at its back, so that
/// trimming it again changes nothing.
pub proof fn lemma_trim_idempotent(s: Seq<char>)
    ensures
        trim(trim(s)) == trim(s),
        trim(s).len() > 0 ==> !is_whitespace(trim(s)[0]) && !is_whitespace(trim(s).last()),
{
    let ws = |c: char| is_whitespace(c);
    lemma_prefix_len_is_first(s, ws);
    let a = prefix_len(s, ws);
    let t = s.skip(a);
    lemma_suffix_len_is_last(t, ws);
    let b = suffix_len(t, ws);
    let r = t.take(t.len() - b);
    assert(r == trim(s));
    if r.len() > 0 {
        assert(r[0] == s[a]);
        assert(r.last() == t[t.len() - b - 1]);
        lemma_prefix_len(r, ws, 0);
        assert(r.skip(0) =~= r);
        lemma_suffix_len(r, ws, 0);
        assert(r.take(r.len() as int) =~= r);
    } else {
        assert(r.skip(0) =~= r);
        assert(r.take(0) =~= r);
    }
}

/// What `suffix_len` is: every item after the place it counts back to
/// satisfies `p`, and the item before that place, where there is one, does
/// not.
pub proof fn lemma_suffix_len_is_last(s: Seq<char>, p: spec_fn(char) -> bool)
    ensures
        0 <= suffix_len(s, p) <= s.len(),
        forall|j: int| s.len() - suffix_len(s, p) <= j < s.len() ==> p(#[trigger] s[j]),
        suffix_len(s, p) < s.len() ==> !p(s[s.len() - suffix_len(s, p) - 1]),
    decreases s.len(),
{
    if s.len() == 0 || !p(s.last()) {
    } else {
        let init = s.drop_last();
        lemma_suffix_len_is_last(init, p);
        assert forall|j: int| s.len() - suffix_len(s, p) <= j < s.len() implies p(
            #[trigger] s[j],
        ) by {
            if j < s.len() - 1 {
                assert(s[j] == init[j]);
            }
        }
        if suffix_len(s, p) < s.len() {
            assert(s[s.len() - suffix_len(s, p) - 1] == init[init.len() - suffix_len(init, p) - 1]);
        }
    }
}

/// The words of `s`: its longest runs of characters that are not white space.
pub open spec fn split_whitespace(s: Seq<char>) -> Seq<Seq<char>>
    decreases s.len(),
{
    let a = prefix_len(s, |c: char| is_whitespace(c));
    let n = prefix_len(s.skip(a), |c: char| !is_whitespace(c));
    if a < 0 || a >= s.len() || n <= 0 || a + n > s.len() {
        Seq::empty()
    } else {
        seq![s.subrange(a, a + n)] + split_whitespace(s.skip(a + n))
    }
}

/// The words of `s`.
pub fn split_words(s: &Vec<char>) -> (r: Vec<Vec<char>>)
    ensures
        texts(r@) == split_whitespace(s@),
{
    let mut out: Vec<Vec<char>> = Vec::new();
    let mut i: usize = 0;
    assert(texts(out@) + split_whitespace(s@.skip(0)) =~= split_whitespace(s@)) by {
        assert(s@.skip(0) =~= s@);
    }
    loop
        invariant
            i <= s.len(),
            split_whitespace(s@) == texts(out@) + split_whitespace(s@.skip(i as int)),
        ensures
            texts(out@) == split_whitespace(s@),
        decreases s.len() - i,
    {
        let ghost rest = s@.skip(i as int);
        let ghost before = texts(out@);
        let mut a: usize = i;
        while a < s.len() && char_is_whitespace(s[a])
            invariant
                i <= a <= s.len(),
                forall|j: int| i <= j < a ==> is_whitespace(#[trigger] s@[j]),
            decreases s.len() - a,
        {
            a += 1;
        }
        proof {
            assert forall|j: int| 0 <= j < a - i implies (|c: char| is_whitespace(c))(
                #[trigger] rest[j],
            ) by {
                assert(rest[j] == s@[j + i]);
            }
            lemma_prefix_len(rest, |c: char| is_whitespace(c), a - i);
        }
        if a >= s.len() {
            assert(before + Seq::<Seq<char>>::empty() =~= before);
            break ;
        }
        let mut b: usize = a;
        while b < s.len() && !char_is_whitespace(s[b])
            invariant
                a <= b <= s.len(),
                forall|j: int| a <= j < b ==> !is_whitespace(#[trigger] s@[j]),
            decreases s.len() - b,
        {
            b += 1;
        }
        let word = slice_of(s, a, b);
        proof {
            let tail = rest.skip(a - i);
            assert(tail =~= s@.skip(a as int));
            assert forall|j: int| 0 <= j < b - a implies (|c: char| !is_whitespace(c))(
                #[trigger] tail[j],
            ) by {
                assert(tail[j] == s@[j + a]);
            }
            lemma_prefix_len(tail, |c: char| !is_whitespace(c), b - a);
            assert(rest.subrange(a - i, (a - i) + (b - a)) =~= word@);
            assert(rest.skip((a - i) + (b - a)) =~= s@.skip(b as int));
        }
        out.push(word);
        assert(texts(out@) =~= before.push(word@));
        assert(before.push(word@) + split_whitespace(s@.skip(b as int)) =~= before + (seq![word@]
            + split_whitespace(s@.skip(b as int))));
        i = b;
    }
    out
}

} // verus!
