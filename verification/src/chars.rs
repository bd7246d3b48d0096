//! Character-level text operations: whitespace, trimming, searching and
//! splitting, each with a mathematical model over `Seq<char>`.

use vstd::prelude::*;
use vstd::slice::slice_subrange;
use vstd::slice::slice_to_vec;

verus! {

/// Whether `c` carries the Unicode `White_Space` property.
pub open spec fn is_space(c: char) -> bool {
    let n = c as u32;
    ||| 0x09 <= n <= 0x0D
    ||| n == 0x20
    ||| n == 0x85
    ||| n == 0xA0
    ||| n == 0x1680
    ||| 0x2000 <= n <= 0x200A
    ||| n == 0x2028
    ||| n == 0x2029
    ||| n == 0x202F
    ||| n == 0x205F
    ||| n == 0x3000
}

/// Whether some character of `s` is whitespace.
pub open spec fn has_space(s: Seq<char>) -> bool {
    exists|i: int| 0 <= i < s.len() && is_space(#[trigger] s[i])
}

/// `s` without its leading whitespace.
pub open spec fn trimmed_start(s: Seq<char>) -> Seq<char>
    decreases s.len(),
{
    if s.len() > 0 && is_space(s[0]) {
        trimmed_start(s.drop_first())
    } else {
        s
    }
}

/// `s` without its trailing whitespace.
pub open spec fn trimmed_end(s: Seq<char>) -> Seq<char>
    decreases s.len(),
{
    if s.len() > 0 && is_space(s.last()) {
        trimmed_end(s.drop_last())
    } else {
        s
    }
}

/// `s` without leading and trailing whitespace.
pub open spec fn trimmed(s: Seq<char>) -> Seq<char> {
    trimmed_end(trimmed_start(s))
}

/// Whether `pat` stands in `s` at position `i`.
pub open spec fn occurs_at(s: Seq<char>, pat: Seq<char>, i: int) -> bool {
    0 <= i && i + pat.len() <= s.len() && s.subrange(i, i + pat.len()) == pat
}

/// Whether `i` is the leftmost position at which `pat` stands in `s`.
pub open spec fn is_first_match(s: Seq<char>, pat: Seq<char>, i: int) -> bool {
    occurs_at(s, pat, i) && forall|j: int| 0 <= j < i ==> !occurs_at(s, pat, j)
}

/// The leftmost position at which `pat` stands in `s`, if there is one.
pub open spec fn first_match(s: Seq<char>, pat: Seq<char>) -> Option<int> {
    if exists|i: int| is_first_match(s, pat, i) {
        Some(choose|i: int| is_first_match(s, pat, i))
    } else {
        None
    }
}

/// What stands before and what stands after the leftmost occurrence of `pat`
/// in `s`, if there is one.
pub open spec fn cut(s: Seq<char>, pat: Seq<char>) -> Option<(Seq<char>, Seq<char>)> {
    match first_match(s, pat) {
        Some(i) => Some((s.take(i), s.skip(i + pat.len()))),
        None => None,
    }
}

/// The maximal runs of non-whitespace characters of `s`, left to right.
///
/// Reading `s` one character at a time: whitespace changes nothing, and any
/// other character either extends the token that the character before it
/// belongs to, or starts a new token.
pub open spec fn tokens(s: Seq<char>) -> Seq<Seq<char>>
    decreases s.len(),
{
    if s.len() == 0 {
        seq![]
    } else {
        let before = tokens(s.drop_last());
        let c = s.last();
        if is_space(c) {
            before
        } else if s.len() >= 2 && !is_space(s[s.len() - 2]) && before.len() > 0 {
            before.drop_last().push(before.last().push(c))
        } else {
            before.push(seq![c])
        }
    }
}

/// The parts of `s` between occurrences of `sep`, left to right. There is
/// always one part more than there are separators; parts may be empty.
pub open spec fn pieces(s: Seq<char>, sep: char) -> Seq<Seq<char>>
    decreases s.len(),
{
    if s.len() == 0 {
        seq![seq![]]
    } else {
        let before = pieces(s.drop_last(), sep);
        let c = s.last();
        if c == sep {
            before.push(seq![])
        } else if before.len() > 0 {
            before.drop_last().push(before.last().push(c))
        } else {
            before
        }
    }
}

/// The parts, with `sep` between each two neighbours.
pub open spec fn joined(parts: Seq<Seq<char>>, sep: char) -> Seq<char>
    decreases parts.len(),
{
    if parts.len() == 0 {
        Seq::empty()
    } else if parts.len() == 1 {
        parts[0]
    } else {
        joined(parts.drop_last(), sep).push(sep) + parts.last()
    }
}

/// The lines, each followed by a line feed.
pub open spec fn stacked(lines: Seq<Seq<char>>) -> Seq<char>
    decreases lines.len(),
{
    if lines.len() == 0 {
        Seq::empty()
    } else {
        stacked(lines.drop_last()) + lines.last().push('\n')
    }
}

/// Whether `c` does not occur in `s`.
pub open spec fn free_of(s: Seq<char>, c: char) -> bool {
    forall|i: int| 0 <= i < s.len() ==> #[trigger] s[i] != c
}

/// The contents of a list of character vectors.
pub open spec fn views(v: Seq<Vec<char>>) -> Seq<Seq<char>> {
    Seq::new(v.len(), |i: int| v[i]@)
}

/// The contents of a list with one more vector are the contents of the list
/// with the contents of that vector.
pub proof fn lemma_views_push(v: Seq<Vec<char>>, w: Vec<char>)
    ensures
        views(v.push(w)) == views(v).push(w@),
{
    assert(views(v.push(w)) =~= views(v).push(w@));
}

/// Every token has at least one character and holds no whitespace.
pub proof fn lemma_tokens_solid(s: Seq<char>)
    ensures
        forall|i: int|
            0 <= i < tokens(s).len() ==> (#[trigger] tokens(s)[i]).len() > 0 && !has_space(
                tokens(s)[i],
            ),
    decreases s.len(),
{
    if s.len() > 0 {
        let before = tokens(s.drop_last());
        let c = s.last();
        lemma_tokens_solid(s.drop_last());
        if is_space(c) {
        } else if s.len() >= 2 && !is_space(s[s.len() - 2]) && before.len() > 0 {
            let grown = before.last().push(c);
            assert forall|j: int| 0 <= j < grown.len() implies !is_space(#[trigger] grown[j]) by {
                if j < grown.len() - 1 {
                    assert(grown[j] == before.last()[j]);
                }
            }
            assert forall|i: int| 0 <= i < tokens(s).len() implies (#[trigger] tokens(s)[i]).len()
                > 0 && !has_space(tokens(s)[i]) by {
                if i < before.len() - 1 {
                    assert(tokens(s)[i] == before[i]);
                }
            }
        } else {
            let fresh = seq![c];
            assert forall|j: int| 0 <= j < fresh.len() implies !is_space(#[trigger] fresh[j]) by {}
            assert forall|i: int| 0 <= i < tokens(s).len() implies (#[trigger] tokens(s)[i]).len()
                > 0 && !has_space(tokens(s)[i]) by {
                if i < before.len() {
                    assert(tokens(s)[i] == before[i]);
                }
            }
        }
    }
}

/// A text that holds a character other than whitespace has a token.
pub proof fn lemma_tokens_exist(s: Seq<char>, i: int)
    requires
        0 <= i < s.len(),
        !is_space(s[i]),
    ensures
        tokens(s).len() > 0,
    decreases s.len(),
{
    if is_space(s.last()) {
        assert(s.drop_last()[i] == s[i]);
        lemma_tokens_exist(s.drop_last(), i);
    }
}

/// What is left after trimming the end does not end in whitespace.
pub proof fn lemma_trimmed_end_solid(s: Seq<char>)
    ensures
        trimmed_end(s).len() > 0 ==> !is_space(trimmed_end(s).last()),
    decreases s.len(),
{
    if s.len() > 0 && is_space(s.last()) {
        lemma_trimmed_end_solid(s.drop_last());
    }
}

/// Splitting always yields at least one part.
pub proof fn lemma_pieces_nonempty(s: Seq<char>, sep: char)
    ensures
        pieces(s, sep).len() >= 1,
    decreases s.len(),
{
    if s.len() > 0 {
        lemma_pieces_nonempty(s.drop_last(), sep);
    }
}

/// No part holds the separator.
pub proof fn lemma_pieces_free(s: Seq<char>, sep: char)
    ensures
        forall|k: int| 0 <= k < pieces(s, sep).len() ==> free_of(#[trigger] pieces(s, sep)[k], sep),
    decreases s.len(),
{
    if s.len() > 0 {
        let before = pieces(s.drop_last(), sep);
        lemma_pieces_free(s.drop_last(), sep);
        lemma_pieces_nonempty(s.drop_last(), sep);
        assert forall|k: int| 0 <= k < pieces(s, sep).len() implies free_of(
            #[trigger] pieces(s, sep)[k],
            sep,
        ) by {
            if k < before.len() - 1 {
                assert(pieces(s, sep)[k] == before[k]);
            } else if s.last() != sep {
                assert(free_of(before.last(), sep));
            } else if k < before.len() {
                assert(pieces(s, sep)[k] == before[k]);
            }
        }
    }
}

/// Joining the parts of a text with the separator gives the text back.
pub proof fn law_pieces_joined(s: Seq<char>, sep: char)
    ensures
        joined(pieces(s, sep), sep) == s,
    decreases s.len(),
{
    if s.len() == 0 {
        assert(joined(pieces(s, sep), sep) =~= s);
    } else {
        let before = pieces(s.drop_last(), sep);
        let now = pieces(s, sep);
        law_pieces_joined(s.drop_last(), sep);
        lemma_pieces_nonempty(s.drop_last(), sep);
        if s.last() == sep {
            assert(now.drop_last() =~= before);
            assert(joined(now, sep) =~= s.drop_last().push(sep));
        } else {
            assert(now.drop_last() =~= before.drop_last());
            assert(joined(now, sep) =~= joined(before, sep).push(s.last()));
        }
        assert(s.drop_last().push(s.last()) =~= s);
    }
}

/// A text without separator, put behind another text, extends the last part
/// of that text.
pub proof fn lemma_pieces_extend(s: Seq<char>, t: Seq<char>, sep: char)
    requires
        free_of(t, sep),
    ensures
        pieces(s + t, sep) == pieces(s, sep).drop_last().push(pieces(s, sep).last() + t),
    decreases t.len(),
{
    let parts = pieces(s, sep);
    lemma_pieces_nonempty(s, sep);
    if t.len() == 0 {
        assert(s + t =~= s);
        assert(parts.last() + t =~= parts.last());
        assert(parts.drop_last().push(parts.last()) =~= parts);
    } else {
        let head = t.drop_last();
        assert forall|i: int| 0 <= i < head.len() implies #[trigger] head[i] != sep by {
            assert(head[i] == t[i]);
        }
        lemma_pieces_extend(s, head, sep);
        assert((s + t).drop_last() =~= s + head);
        assert(t.last() != sep);
        let before = pieces(s + head, sep);
        assert(before.drop_last() =~= parts.drop_last());
        assert((parts.last() + head).push(t.last()) =~= parts.last() + t);
    }
}

/// Lines that hold no line feed are what their stack splits into: its
/// parts are the lines, and one empty part after the last line feed.
pub proof fn lemma_pieces_stacked(lines: Seq<Seq<char>>)
    requires
        forall|k: int| 0 <= k < lines.len() ==> free_of(#[trigger] lines[k], '\n'),
    ensures
        pieces(stacked(lines), '\n') == lines.push(Seq::empty()),
    decreases lines.len(),
{
    if lines.len() == 0 {
        assert(pieces(stacked(lines), '\n') =~= lines.push(Seq::empty()));
    } else {
        let init = lines.drop_last();
        let last = lines.last();
        assert forall|k: int| 0 <= k < init.len() implies free_of(#[trigger] init[k], '\n') by {
            assert(init[k] == lines[k]);
        }
        lemma_pieces_stacked(init);
        lemma_pieces_extend(stacked(init), last, '\n');
        let whole = stacked(lines);
        assert(whole =~= (stacked(init) + last).push('\n'));
        assert(whole.drop_last() =~= stacked(init) + last);
        let parts = pieces(stacked(init), '\n');
        assert(parts.drop_last() =~= init);
        assert(parts.last() + last =~= last);
        assert(init.push(last) =~= lines);
    }
}

/// Trimming brings no character in: what a text is free of, what is left of
/// it is free of too.
pub proof fn lemma_trimmed_free(s: Seq<char>, c: char)
    requires
        free_of(s, c),
    ensures
        free_of(trimmed_start(s), c),
        free_of(trimmed_end(s), c),
    decreases s.len(),
{
    if s.len() > 0 {
        let tail = s.drop_first();
        let init = s.drop_last();
        assert forall|i: int| 0 <= i < tail.len() implies #[trigger] tail[i] != c by {
            assert(tail[i] == s[i + 1]);
        }
        assert forall|i: int| 0 <= i < init.len() implies #[trigger] init[i] != c by {
            assert(init[i] == s[i]);
        }
        lemma_trimmed_free(tail, c);
        lemma_trimmed_free(init, c);
    }
}

/// `trimmed_start` drops exactly the first `n` characters when those are
/// whitespace and the next one, if any, is not.
pub proof fn lemma_trimmed_start(s: Seq<char>, n: int)
    requires
        0 <= n <= s.len(),
        forall|j: int| 0 <= j < n ==> is_space(#[trigger] s[j]),
        n < s.len() ==> !is_space(s[n]),
    ensures
        trimmed_start(s) == s.skip(n),
    decreases n,
{
    if n == 0 {
        assert(s.skip(0) =~= s);
    } else {
        let t = s.drop_first();
        assert forall|j: int| 0 <= j < n - 1 implies is_space(#[trigger] t[j]) by {
            assert(t[j] == s[j + 1]);
        }
        lemma_trimmed_start(t, n - 1);
        assert(t.skip(n - 1) =~= s.skip(n));
    }
}

/// `trimmed_end` keeps exactly the first `n` characters when all later ones
/// are whitespace and the one before, if any, is not.
pub proof fn lemma_trimmed_end(s: Seq<char>, n: int)
    requires
        0 <= n <= s.len(),
        forall|j: int| n <= j < s.len() ==> is_space(#[trigger] s[j]),
        n > 0 ==> !is_space(s[n - 1]),
    ensures
        trimmed_end(s) == s.take(n),
    decreases s.len() - n,
{
    if n == s.len() {
        assert(s.take(n) =~= s);
    } else {
        let t = s.drop_last();
        lemma_trimmed_end(t, n);
        assert(t.take(n) =~= s.take(n));
    }
}

/// A leftmost match is the only leftmost match.
pub proof fn lemma_first_match(s: Seq<char>, pat: Seq<char>, i: int)
    requires
        is_first_match(s, pat, i),
    ensures
        first_match(s, pat) == Some(i),
{
    let k = choose|k: int| is_first_match(s, pat, k);
    assert(is_first_match(s, pat, k));
    if k < i {
        assert(!occurs_at(s, pat, k));
    }
    if i < k {
        assert(!occurs_at(s, pat, i));
    }
}

/// Where nothing matches, there is no leftmost match.
pub proof fn lemma_no_match(s: Seq<char>, pat: Seq<char>)
    requires
        forall|i: int| !occurs_at(s, pat, i),
    ensures
        first_match(s, pat) is None,
{
}

/// Whether `c` is whitespace.
pub fn is_whitespace(c: char) -> (r: bool)
    ensures
        r == is_space(c),
{
    let n: u32 = c as u32;
    (0x09 <= n && n <= 0x0D) || n == 0x20 || n == 0x85 || n == 0xA0 || n == 0x1680 || (0x2000 <= n
        && n <= 0x200A) || n == 0x2028 || n == 0x2029 || n == 0x202F || n == 0x205F || n == 0x3000
}

/// Whether some character of `s` is whitespace.
pub fn contains_whitespace(s: &[char]) -> (r: bool)
    ensures
        r == has_space(s@),
{
    let mut i: usize = 0;
    while i < s.len()
        invariant
            i <= s.len(),
            forall|j: int| 0 <= j < i ==> !is_space(#[trigger] s@[j]),
        decreases s.len() - i,
    {
        if is_whitespace(s[i]) {
            return true;
        }
        i += 1;
    }
    false
}

/// `s` without its leading whitespace.
pub fn trim_start(s: &[char]) -> (r: &[char])
    ensures
        r@ == trimmed_start(s@),
{
    let mut i: usize = 0;
    while i < s.len() && is_whitespace(s[i])
        invariant
            i <= s.len(),
            forall|j: int| 0 <= j < i ==> is_space(#[trigger] s@[j]),
        decreases s.len() - i,
    {
        i += 1;
    }
    proof {
        lemma_trimmed_start(s@, i as int);
    }
    slice_subrange(s, i, s.len())
}

/// `s` without its trailing whitespace.
pub fn trim_end(s: &[char]) -> (r: &[char])
    ensures
        r@ == trimmed_end(s@),
{
    let mut n: usize = s.len();
    while n > 0 && is_whitespace(s[n - 1])
        invariant
            n <= s.len(),
            forall|j: int| n <= j < s.len() ==> is_space(#[trigger] s@[j]),
        decreases n,
    {
        n -= 1;
    }
    proof {
        lemma_trimmed_end(s@, n as int);
    }
    slice_subrange(s, 0, n)
}

/// `s` without leading and trailing whitespace.
pub fn trim(s: &[char]) -> (r: &[char])
    ensures
        r@ == trimmed(s@),
{
    trim_end(trim_start(s))
}

/// Whether `a` and `b` hold the same characters.
pub fn equal(a: &[char], b: &[char]) -> (r: bool)
    ensures
        r == (a@ == b@),
{
    if a.len() != b.len() {
        return false;
    }
    let mut i: usize = 0;
    while i < a.len()
        invariant
            i <= a.len(),
            a.len() == b.len(),
            forall|j: int| 0 <= j < i ==> a@[j] == b@[j],
        decreases a.len() - i,
    {
        if a[i] != b[i] {
            return false;
        }
        i += 1;
    }
    assert(a@ =~= b@);
    true
}

/// Whether `pat` stands in `s` at position `i`.
pub fn matches_at(s: &[char], pat: &[char], i: usize) -> (r: bool)
    ensures
        r == occurs_at(s@, pat@, i as int),
{
    if pat.len() > s.len() || i > s.len() - pat.len() {
        return false;
    }
    let mut k: usize = 0;
    while k < pat.len()
        invariant
            k <= pat.len(),
            i + pat.len() <= s.len(),
            forall|j: int| 0 <= j < k ==> s@[i + j] == pat@[j],
        decreases pat.len() - k,
    {
        if s[i + k] != pat[k] {
            assert(s@.subrange(i as int, i + pat.len())[k as int] != pat@[k as int]);
            return false;
        }
        k += 1;
    }
    assert(s@.subrange(i as int, i + pat.len()) =~= pat@);
    true
}

/// The leftmost position at which `pat` stands in `s`.
pub fn find(s: &[char], pat: &[char]) -> (r: Option<usize>)
    ensures
        match r {
            Some(i) => first_match(s@, pat@) == Some(i as int),
            None => first_match(s@, pat@) is None,
        },
{
    let mut i: usize = 0;
    while i < s.len()
        invariant
            i <= s.len(),
            forall|j: int| 0 <= j < i ==> !occurs_at(s@, pat@, j),
        decreases s.len() - i,
    {
        if matches_at(s, pat, i) {
            proof {
                lemma_first_match(s@, pat@, i as int);
            }
            return Some(i);
        }
        i += 1;
    }
    if matches_at(s, pat, i) {
        proof {
            lemma_first_match(s@, pat@, i as int);
        }
        return Some(i);
    }
    proof {
        lemma_no_match(s@, pat@);
    }
    None
}

/// Splits `s` around the leftmost occurrence of `pat`.
pub fn split_once<'a>(s: &'a [char], pat: &[char]) -> (r: Option<(&'a [char], &'a [char])>)
    ensures
        match r {
            Some((before, after)) => cut(s@, pat@) == Some((before@, after@)),
            None => cut(s@, pat@) is None,
        },
{
    match find(s, pat) {
        Some(i) => {
            assert(is_first_match(s@, pat@, i as int));
            let n = s.len();
            let before = slice_subrange(s, 0, i);
            let after = slice_subrange(s, i + pat.len(), n);
            Some((before, after))
        },
        None => None,
    }
}

/// The tokens of `s`: its maximal runs of non-whitespace characters.
pub fn split_whitespace(s: &[char]) -> (r: Vec<Vec<char>>)
    ensures
        views(r@) == tokens(s@),
{
    let mut out: Vec<Vec<char>> = Vec::new();
    let mut start: usize = 0;
    let mut i: usize = 0;
    assert(views(out@) =~= tokens(s@.take(0)));
    while i < s.len()
        invariant
            start <= i <= s.len(),
            forall|j: int| start <= j < i ==> !is_space(#[trigger] s@[j]),
            start < i ==> tokens(s@.take(i as int)) == views(out@).push(
                s@.subrange(start as int, i as int),
            ),
            start == i ==> tokens(s@.take(i as int)) == views(out@),
            start == i && i > 0 ==> is_space(s@[i - 1]),
        decreases s.len() - i,
    {
        let ghost before = s@.take(i as int);
        let ghost now = s@.take(i + 1);
        assert(now.drop_last() =~= before);
        if is_whitespace(s[i]) {
            if start < i {
                let word = slice_to_vec(slice_subrange(s, start, i));
                proof {
                    lemma_views_push(out@, word);
                }
                out.push(word);
            }
            i += 1;
            start = i;
        } else {
            proof {
                if start < i {
                    let run = s@.subrange(start as int, i as int);
                    assert(views(out@).push(run).drop_last() =~= views(out@));
                    assert(run.push(s@[i as int]) =~= s@.subrange(start as int, i + 1));
                } else {
                    assert(seq![s@[i as int]] =~= s@.subrange(start as int, i + 1));
                    if i > 0 {
                        assert(now[now.len() - 2] == s@[i - 1]);
                    }
                }
            }
            i += 1;
        }
    }
    assert(s@.take(s.len() as int) =~= s@);
    if start < i {
        let word = slice_to_vec(slice_subrange(s, start, i));
        proof {
            lemma_views_push(out@, word);
        }
        out.push(word);
    }
    out
}

/// The parts of `s` between occurrences of `sep`.
pub fn split(s: &[char], sep: char) -> (r: Vec<Vec<char>>)
    ensures
        views(r@) == pieces(s@, sep),
{
    let mut out: Vec<Vec<char>> = Vec::new();
    let mut start: usize = 0;
    let mut i: usize = 0;
    proof {
        assert(s@.take(0).len() == 0);
        assert(s@.subrange(0, 0) =~= seq![]);
        assert(views(out@) =~= seq![]);
        assert(views(out@).push(s@.subrange(0, 0)) =~= seq![seq![]]);
    }
    while i < s.len()
        invariant
            start <= i <= s.len(),
            pieces(s@.take(i as int), sep) == views(out@).push(s@.subrange(start as int, i as int)),
        decreases s.len() - i,
    {
        let ghost before = s@.take(i as int);
        let ghost now = s@.take(i + 1);
        let ghost run = s@.subrange(start as int, i as int);
        assert(now.drop_last() =~= before);
        assert(views(out@).push(run).drop_last() =~= views(out@));
        if s[i] == sep {
            let part = slice_to_vec(slice_subrange(s, start, i));
            proof {
                lemma_views_push(out@, part);
                assert(s@.subrange(i + 1, i + 1) =~= seq![]);
            }
            out.push(part);
            i += 1;
            start = i;
        } else {
            proof {
                assert(run.push(s@[i as int]) =~= s@.subrange(start as int, i + 1));
            }
            i += 1;
        }
    }
    assert(s@.take(s.len() as int) =~= s@);
    let part = slice_to_vec(slice_subrange(s, start, i));
    proof {
        lemma_views_push(out@, part);
    }
    out.push(part);
    out
}

/// Appends the parts to `out`, with `sep` between each two neighbours.
pub fn push_joined(out: &mut Vec<char>, parts: &Vec<Vec<char>>, sep: char)
    ensures
        final(out)@ == old(out)@ + joined(views(parts@), sep),
{
    let ghost all = views(parts@);
    let mut i: usize = 0;
    assert(out@ =~= old(out)@ + joined(all.take(0), sep));
    while i < parts.len()
        invariant
            i <= parts.len(),
            all == views(parts@),
            out@ == old(out)@ + joined(all.take(i as int), sep),
        decreases parts.len() - i,
    {
        let ghost before = all.take(i as int);
        let ghost now = all.take(i + 1);
        assert(now.drop_last() =~= before);
        assert(now.last() == parts@[i as int]@);
        if i > 0 {
            out.push(sep);
        }
        push_chars(out, parts[i].as_slice());
        proof {
            if i > 0 {
                assert(out@ =~= old(out)@ + (joined(before, sep).push(sep) + now.last()));
            } else {
                assert(joined(before, sep) =~= Seq::<char>::empty());
                assert(out@ =~= old(out)@ + now.last());
            }
        }
        i += 1;
    }
    assert(all.take(parts.len() as int) =~= all);
}

/// Whether the characters of `a` are those of the string `b`.
pub fn spells(a: &[char], b: &str) -> (r: bool)
    ensures
        r == (a@ == b@),
{
    let mut i: usize = 0;
    for c in it: b.chars()
        invariant
            it.seq() == b@,
            i == it.index(),
            i <= a.len(),
            forall|j: int| 0 <= j < i ==> a@[j] == b@[j],
    {
        if i >= a.len() || a[i] != c {
            return false;
        }
        i += 1;
    }
    if i == a.len() {
        assert(a@ =~= b@);
        true
    } else {
        false
    }
}

/// Appends the characters of `s` to `out`.
pub fn push_chars(out: &mut Vec<char>, s: &[char])
    ensures
        final(out)@ == old(out)@ + s@,
{
    let mut i: usize = 0;
    while i < s.len()
        invariant
            i <= s.len(),
            out@ == old(out)@ + s@.take(i as int),
        decreases s.len() - i,
    {
        out.push(s[i]);
        i += 1;
        assert(out@ =~= old(out)@ + s@.take(i as int));
    }
    assert(s@.take(s.len() as int) =~= s@);
}

/// Appends the characters of the string `s` to `out`.
pub fn push_str(out: &mut Vec<char>, s: &str)
    ensures
        final(out)@ == old(out)@ + s@,
{
    for c in it: s.chars()
        invariant
            it.seq() == s@,
            out@ == old(out)@ + s@.take(it.index() as int),
    {
        out.push(c);
        assert(out@ =~= old(out)@ + s@.take(it.index() + 1));
    }
    assert(s@.take(s@.len() as int) =~= s@);
}

/// `String::push` appends one character to the string.
pub assume_specification[ String::push ](s: &mut String, ch: char)
    ensures
        final(s)@ == old(s)@.push(ch),
;

/// The characters of `s`.
pub fn to_chars(s: &str) -> (v: Vec<char>)
    ensures
        v@ == s@,
{
    let mut v: Vec<char> = Vec::new();
    for c in it: s.chars()
        invariant
            it.seq() == s@,
            v@ == it.seq().take(it.index() as int),
    {
        v.push(c);
    }
    v
}

/// A string made of the characters of `v`.
pub fn to_string(v: &[char]) -> (s: String)
    ensures
        s@ == v@,
{
    let mut s = String::new();
    let mut i: usize = 0;
    while i < v.len()
        invariant
            i <= v.len(),
            s@ == v@.take(i as int),
        decreases v.len() - i,
    {
        s.push(v[i]);
        i += 1;
    }
    s
}

} // verus!
