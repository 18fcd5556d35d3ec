//! Character-level text routines shared by the parsers and the renderers.
//!
//! Every routine is specified over `Seq<char>`, the view of `str` and
//! `String`; the executable versions work on `Vec<char>` so that a character
//! can be read by its index.

use vstd::prelude::*;
use vstd::utf8::{decode_utf8, encode_utf8, encode_utf8_decode_utf8, valid_utf8};
use crate::order::{
    lemma_inserted_at, lemma_lex_connected, lemma_lex_irreflexive, lemma_lex_skip,
    lemma_lex_transitive, lex_less, sorted, strict_total,
};

verus! {

/// `std::str::Utf8Error`, the error of `std::str::from_utf8`. Nothing is
/// said of what it holds.
#[verifier::external_type_specification]
#[verifier::external_body]
pub struct ExUtf8Error(std::str::Utf8Error);

/// `std::str::from_utf8` accepts exactly the byte sequences that are
/// well-formed UTF-8, and gives the text that is encoded by them.
pub assume_specification[ std::str::from_utf8 ](bytes: &[u8]) -> (text: Result<
    &str,
    std::str::Utf8Error,
>)
    ensures
        text is Ok <==> valid_utf8(bytes@),
        text matches Ok(s) ==> encode_utf8(s@) == bytes@,
;

/// `String::push` appends one character.
pub assume_specification[ String::push ](s: &mut String, c: char)
    ensures
        final(s)@ == old(s)@.push(c),
;

/// The views of the elements of `items`, in order.
pub open spec fn views<T: View>(items: Seq<T>) -> Seq<T::V> {
    Seq::new(items.len(), |i: int| items[i]@)
}

/// The views of both halves of each pair of `items`, in order.
pub open spec fn pair_views(items: Seq<(String, String)>) -> Seq<(Seq<char>, Seq<char>)> {
    Seq::new(items.len(), |i: int| (items[i].0@, items[i].1@))
}

/// The characters of `s`, in order.
pub fn chars_of(s: &str) -> (out: Vec<char>)
    ensures
        out@ == s@,
{
    let mut out: Vec<char> = Vec::new();
    for c in it: s.chars()
        invariant
            out@ == it.seq().take(it.index()),
            it.seq() == s@,
    {
        out.push(c);
    }
    out
}

/// The text made of the characters `cs[from..to]`.
pub fn string_of(cs: &Vec<char>, from: usize, to: usize) -> (out: String)
    requires
        from <= to <= cs.len(),
    ensures
        out@ == cs@.subrange(from as int, to as int),
{
    let mut out = String::new();
    let mut i: usize = from;
    while i < to
        invariant
            from <= i <= to <= cs.len(),
            out@ == cs@.subrange(from as int, i as int),
        decreases to - i,
    {
        out.push(cs[i]);
        i += 1;
    }
    out
}

/// A copy of the characters `cs[from..to]`.
pub fn slice_of(cs: &Vec<char>, from: usize, to: usize) -> (out: Vec<char>)
    requires
        from <= to <= cs.len(),
    ensures
        out@ == cs@.subrange(from as int, to as int),
{
    let mut out: Vec<char> = Vec::new();
    let mut i: usize = from;
    while i < to
        invariant
            from <= i <= to <= cs.len(),
            out@ == cs@.subrange(from as int, i as int),
        decreases to - i,
    {
        out.push(cs[i]);
        i += 1;
    }
    out
}

/// Whether `c` has the Unicode property White_Space.
pub open spec fn is_space(c: char) -> bool {
    let u = c as u32;
    ||| 0x09 <= u <= 0x0D
    ||| u == 0x20
    ||| u == 0x85
    ||| u == 0xA0
    ||| u == 0x1680
    ||| 0x2000 <= u <= 0x200A
    ||| u == 0x2028
    ||| u == 0x2029
    ||| u == 0x202F
    ||| u == 0x205F
    ||| u == 0x3000
}

/// Whether `c` is white space.
pub fn is_whitespace(c: char) -> (b: bool)
    ensures
        b == is_space(c),
{
    let u: u32 = c as u32;
    (0x09 <= u && u <= 0x0D) || u == 0x20 || u == 0x85 || u == 0xA0 || u == 0x1680 || (0x2000 <= u
        && u <= 0x200A) || u == 0x2028 || u == 0x2029 || u == 0x202F || u == 0x205F || u == 0x3000
}

/// The number of white-space characters at the start of `s`.
pub open spec fn leading_spaces(s: Seq<char>) -> nat
    decreases s.len(),
{
    if s.len() > 0 && is_space(s[0]) {
        1 + leading_spaces(s.skip(1))
    } else {
        0
    }
}

/// The number of white-space characters at the end of `s`.
pub open spec fn trailing_spaces(s: Seq<char>) -> nat
    decreases s.len(),
{
    if s.len() > 0 && is_space(s.last()) {
        1 + trailing_spaces(s.drop_last())
    } else {
        0
    }
}

/// `s` without the white space at its start.
pub open spec fn trimmed_start(s: Seq<char>) -> Seq<char> {
    s.skip(leading_spaces(s) as int)
}

/// `s` without the white space at its end.
pub open spec fn trimmed_end(s: Seq<char>) -> Seq<char> {
    s.take(s.len() - trailing_spaces(s))
}

/// `s` without the white space at either end.
pub open spec fn trimmed(s: Seq<char>) -> Seq<char> {
    trimmed_end(trimmed_start(s))
}

/// The leading white space is no longer than the text, and ends at the
/// first character that is not white space.
pub proof fn lemma_leading_spaces(s: Seq<char>)
    ensures
        leading_spaces(s) <= s.len(),
        forall|i: int| 0 <= i < leading_spaces(s) ==> is_space(#[trigger] s[i]),
        leading_spaces(s) < s.len() ==> !is_space(s[leading_spaces(s) as int]),
    decreases s.len(),
{
    if s.len() > 0 && is_space(s[0]) {
        let t = s.skip(1);
        lemma_leading_spaces(t);
        assert forall|i: int| 0 <= i < leading_spaces(s) implies is_space(#[trigger] s[i]) by {
            if i > 0 {
                assert(s[i] == t[i - 1]);
            }
        }
        if leading_spaces(s) < s.len() {
            assert(s[leading_spaces(s) as int] == t[leading_spaces(t) as int]);
        }
    }
}

/// A run of `k` white-space characters followed by something else, or by
/// the end of the text, is the whole leading white space.
pub proof fn lemma_leading_spaces_is(s: Seq<char>, k: nat)
    requires
        k <= s.len(),
        forall|i: int| 0 <= i < k ==> is_space(#[trigger] s[i]),
        k < s.len() ==> !is_space(s[k as int]),
    ensures
        leading_spaces(s) == k,
    decreases k,
{
    if k > 0 {
        let t = s.skip(1);
        assert forall|i: int| 0 <= i < k - 1 implies is_space(#[trigger] t[i]) by {
            assert(t[i] == s[i + 1]);
        }
        lemma_leading_spaces_is(t, (k - 1) as nat);
    }
}

/// A run of `k` white-space characters at the end, preceded by something
/// else or by the start of the text, is the whole trailing white space.
pub proof fn lemma_trailing_spaces_is(s: Seq<char>, k: nat)
    requires
        k <= s.len(),
        forall|i: int| s.len() - k <= i < s.len() ==> is_space(#[trigger] s[i]),
        k < s.len() ==> !is_space(s[s.len() - k - 1]),
    ensures
        trailing_spaces(s) == k,
    decreases k,
{
    if k > 0 {
        let t = s.drop_last();
        assert forall|i: int| t.len() - (k - 1) <= i < t.len() implies is_space(
            #[trigger] t[i],
        ) by {
            assert(t[i] == s[i]);
        }
        lemma_trailing_spaces_is(t, (k - 1) as nat);
    }
}

/// The bounds `(from, to)` of `cs` without the white space at either end.
pub fn trim_bounds(cs: &Vec<char>) -> (bounds: (usize, usize))
    ensures
        bounds.0 <= bounds.1 <= cs.len(),
        bounds.0 == leading_spaces(cs@),
        cs@.subrange(bounds.0 as int, bounds.1 as int) == trimmed(cs@),
{
    let from = skip_whitespace(cs, 0);
    let mut to: usize = cs.len();
    while to > from && is_whitespace(cs[to - 1])
        invariant
            from <= to <= cs.len(),
            forall|i: int| to <= i < cs.len() ==> is_space(#[trigger] cs@[i]),
        decreases to,
    {
        to -= 1;
    }
    proof {
        let s = cs@;
        let t = trimmed_start(s);
        lemma_leading_spaces(s);
        assert(s.skip(0) =~= s);
        assert(t == s.skip(from as int));
        let k = (cs.len() - to) as nat;
        assert forall|i: int| t.len() - k <= i < t.len() implies is_space(#[trigger] t[i]) by {
            assert(t[i] == s[i + from]);
        }
        if k < t.len() {
            assert(t[t.len() - k - 1] == s[to - 1]);
        }
        lemma_trailing_spaces_is(t, k);
        assert(s.subrange(from as int, to as int) =~= trimmed_end(t));
    }
    (from, to)
}

/// The index of the first character at or after `from` that is not white
/// space, or the length of `cs`.
pub fn skip_whitespace(cs: &Vec<char>, from: usize) -> (at: usize)
    requires
        from <= cs.len(),
    ensures
        at == from + leading_spaces(cs@.skip(from as int)),
        from <= at <= cs.len(),
{
    let mut at: usize = from;
    while at < cs.len() && is_whitespace(cs[at])
        invariant
            from <= at <= cs.len(),
            forall|i: int| from <= i < at ==> is_space(#[trigger] cs@[i]),
        decreases cs.len() - at,
    {
        at += 1;
    }
    proof {
        let t = cs@.skip(from as int);
        assert forall|i: int| 0 <= i < at - from implies is_space(#[trigger] t[i]) by {
            assert(t[i] == cs@[i + from]);
        }
        lemma_leading_spaces_is(t, (at - from) as nat);
    }
    at
}

/// The index of the first `c` in `s`, or the length of `s` where it has none.
pub open spec fn first_index(s: Seq<char>, c: char) -> nat
    decreases s.len(),
{
    if s.len() == 0 || s[0] == c {
        0
    } else {
        1 + first_index(s.skip(1), c)
    }
}

/// `first_index` lies within the text, no earlier character is `c`, and
/// the character it points at is.
pub proof fn lemma_first_index(s: Seq<char>, c: char)
    ensures
        first_index(s, c) <= s.len(),
        forall|i: int| 0 <= i < first_index(s, c) ==> #[trigger] s[i] != c,
        first_index(s, c) < s.len() ==> s[first_index(s, c) as int] == c,
    decreases s.len(),
{
    if !(s.len() == 0 || s[0] == c) {
        let t = s.skip(1);
        lemma_first_index(t, c);
        assert forall|i: int| 0 <= i < first_index(s, c) implies #[trigger] s[i] != c by {
            if i > 0 {
                assert(s[i] == t[i - 1]);
            }
        }
        if first_index(s, c) < s.len() {
            assert(s[first_index(s, c) as int] == t[first_index(t, c) as int]);
        }
    }
}

/// An index with no `c` before it, which holds `c` or is the length of the
/// text, is `first_index`.
pub proof fn lemma_first_index_is(s: Seq<char>, c: char, k: int)
    requires
        0 <= k <= s.len(),
        forall|i: int| 0 <= i < k ==> #[trigger] s[i] != c,
        k < s.len() ==> s[k] == c,
    ensures
        first_index(s, c) == k,
    decreases k,
{
    if k > 0 {
        let t = s.skip(1);
        assert forall|i: int| 0 <= i < k - 1 implies #[trigger] t[i] != c by {
            assert(t[i] == s[i + 1]);
        }
        lemma_first_index_is(t, c, k - 1);
    }
}

/// The index of the first `c` in `cs` at or after `from`, or the length of
/// `cs`.
pub fn find_char(cs: &Vec<char>, c: char, from: usize) -> (at: usize)
    requires
        from <= cs.len(),
    ensures
        from <= at <= cs.len(),
        at == from + first_index(cs@.skip(from as int), c),
{
    let mut at: usize = from;
    while at < cs.len() && cs[at] != c
        invariant
            from <= at <= cs.len(),
            forall|i: int| from <= i < at ==> #[trigger] cs@[i] != c,
        decreases cs.len() - at,
    {
        at += 1;
    }
    proof {
        let t = cs@.skip(from as int);
        assert forall|i: int| 0 <= i < at - from implies #[trigger] t[i] != c by {
            assert(t[i] == cs@[i + from]);
        }
        lemma_first_index_is(t, c, at - from);
    }
    at
}

/// Whether `pat` stands in `cs` at index `at`.
pub fn starts_with_at(cs: &Vec<char>, at: usize, pat: &Vec<char>) -> (b: bool)
    requires
        at <= cs.len(),
    ensures
        b == pat@.is_prefix_of(cs@.skip(at as int)),
{
    if pat.len() > cs.len() - at {
        return false;
    }
    let mut i: usize = 0;
    while i < pat.len()
        invariant
            at + pat.len() <= cs.len(),
            i <= pat.len(),
            forall|j: int| 0 <= j < i ==> cs@[at + j] == #[trigger] pat@[j],
        decreases pat.len() - i,
    {
        if cs[at + i] != pat[i] {
            proof {
                let t = cs@.skip(at as int);
                assert(t.subrange(0, pat@.len() as int)[i as int] == cs@[at + i]);
            }
            return false;
        }
        i += 1;
    }
    proof {
        let t = cs@.skip(at as int);
        assert(t.subrange(0, pat@.len() as int) =~= pat@);
    }
    true
}

/// The index of the first place where `pat` stands in `s`, or the length
/// of `s` where it stands nowhere.
pub open spec fn first_match(s: Seq<char>, pat: Seq<char>) -> nat
    decreases s.len(),
{
    if s.len() == 0 || pat.is_prefix_of(s) {
        0
    } else {
        1 + first_match(s.skip(1), pat)
    }
}

/// The index of the first place at or after `from` where `pat` stands in
/// `cs`, or the length of `cs`.
pub fn find_text(cs: &Vec<char>, pat: &Vec<char>, from: usize) -> (at: usize)
    requires
        from <= cs.len(),
    ensures
        from <= at <= cs.len(),
        at == from + first_match(cs@.skip(from as int), pat@),
{
    let mut at: usize = from;
    while at < cs.len()
        invariant
            from <= at <= cs.len(),
            first_match(cs@.skip(from as int), pat@) == (at - from) + first_match(
                cs@.skip(at as int),
                pat@,
            ),
        decreases cs.len() - at,
    {
        if starts_with_at(cs, at, pat) {
            return at;
        }
        proof {
            assert(cs@.skip(at as int).skip(1) =~= cs@.skip(at + 1));
        }
        at += 1;
    }
    at
}

/// `s` with every occurrence of `from`, taken from left to right without
/// overlap, replaced by `to`; `s` itself where `from` is empty.
pub open spec fn replaced(s: Seq<char>, from: Seq<char>, to: Seq<char>) -> Seq<char>
    decreases s.len(),
{
    if s.len() == 0 || from.len() == 0 {
        s
    } else if from.is_prefix_of(s) {
        to + replaced(s.skip(from.len() as int), from, to)
    } else {
        seq![s[0]] + replaced(s.skip(1), from, to)
    }
}

/// `cs` with every occurrence of `from` replaced by `to`; a copy of `cs`
/// where `from` is empty.
pub fn replace(cs: &Vec<char>, from: &Vec<char>, to: &Vec<char>) -> (out: Vec<char>)
    ensures
        out@ == replaced(cs@, from@, to@),
{
    if from.len() == 0 {
        proof {
            assert(cs@.subrange(0, cs.len() as int) =~= cs@);
        }
        return slice_of(cs, 0, cs.len());
    }
    let mut out: Vec<char> = Vec::new();
    let mut at: usize = 0;
    proof {
        assert(cs@.skip(0) =~= cs@);
    }
    while at < cs.len()
        invariant
            at <= cs.len(),
            from.len() > 0,
            replaced(cs@, from@, to@) == out@ + replaced(cs@.skip(at as int), from@, to@),
        decreases cs.len() - at,
    {
        let ghost rest = cs@.skip(at as int);
        if starts_with_at(cs, at, from) {
            let mut k: usize = 0;
            let ghost before = out@;
            while k < to.len()
                invariant
                    k <= to.len(),
                    out@ == before + to@.take(k as int),
                decreases to.len() - k,
            {
                out.push(to[k]);
                k += 1;
            }
            proof {
                assert(to@.take(to.len() as int) =~= to@);
                assert(rest.skip(from.len() as int) =~= cs@.skip(at + from.len()));
                assert(out@ + replaced(cs@.skip(at + from.len()), from@, to@) =~= before + (to@
                    + replaced(rest.skip(from.len() as int), from@, to@)));
            }
            at += from.len();
        } else {
            let ghost before = out@;
            out.push(cs[at]);
            proof {
                assert(rest.skip(1) =~= cs@.skip(at + 1));
                assert(out@ + replaced(cs@.skip(at + 1), from@, to@) =~= before + (seq![rest[0]]
                    + replaced(rest.skip(1), from@, to@)));
            }
            at += 1;
        }
    }
    proof {
        assert(out@ + Seq::<char>::empty() =~= out@);
    }
    out
}

/// `line` without a carriage return at its end.
pub open spec fn without_cr(line: Seq<char>) -> Seq<char> {
    if line.len() > 0 && line.last() == '\r' {
        line.drop_last()
    } else {
        line
    }
}

/// The lines of `s`. A line ends at a line feed, or at a carriage return
/// directly followed by one; neither is part of the line. What follows the
/// last line feed is a line of its own unless it is empty.
pub open spec fn lines_of(s: Seq<char>) -> Seq<Seq<char>>
    decreases s.len(),
{
    if s.len() == 0 {
        Seq::empty()
    } else {
        let n = first_index(s, '\n');
        if n >= s.len() {
            seq![s]
        } else {
            seq![without_cr(s.take(n as int))] + lines_of(s.skip(n as int + 1))
        }
    }
}

/// Appending an item appends its view.
pub proof fn lemma_views_push<T: View>(items: Seq<T>, item: T)
    ensures
        views(items.push(item)) == views(items).push(item@),
{
    assert(views(items.push(item)) =~= views(items).push(item@));
}

/// Appending a pair appends its views.
pub proof fn lemma_pair_views_push(items: Seq<(String, String)>, item: (String, String))
    ensures
        pair_views(items.push(item)) == pair_views(items).push((item.0@, item.1@)),
{
    assert(pair_views(items.push(item)) =~= pair_views(items).push((item.0@, item.1@)));
}

/// The lines of `cs`.
pub fn lines(cs: &Vec<char>) -> (out: Vec<Vec<char>>)
    ensures
        views(out@) == lines_of(cs@),
{
    let mut out: Vec<Vec<char>> = Vec::new();
    let mut start: usize = 0;
    proof {
        assert(cs@.skip(0) =~= cs@);
        assert(views(out@) =~= Seq::<Seq<char>>::empty());
    }
    while start < cs.len()
        invariant
            start <= cs.len(),
            lines_of(cs@) == views(out@) + lines_of(cs@.skip(start as int)),
        decreases cs.len() - start,
    {
        let ghost rest = cs@.skip(start as int);
        let ghost before = out@;
        let nl = find_char(cs, '\n', start);
        proof {
            lemma_first_index(rest, '\n');
        }
        if nl == cs.len() {
            let line = slice_of(cs, start, nl);
            out.push(line);
            proof {
                lemma_views_push(before, line);
                assert(line@ =~= rest);
                assert(lines_of(cs@.skip(nl as int)) =~= Seq::<Seq<char>>::empty());
                assert(views(out@) + lines_of(cs@.skip(nl as int)) =~= views(before) + seq![rest]);
            }
            start = nl;
        } else {
            let end = if nl > start && cs[nl - 1] == '\r' {
                nl - 1
            } else {
                nl
            };
            let line = slice_of(cs, start, end);
            out.push(line);
            proof {
                lemma_views_push(before, line);
                let n = nl - start;
                assert(rest.take(n) =~= cs@.subrange(start as int, nl as int));
                assert(line@ =~= without_cr(rest.take(n)));
                assert(rest.skip(n + 1) =~= cs@.skip(nl + 1));
                assert(views(out@) + lines_of(cs@.skip(nl + 1)) =~= views(before) + (seq![
                    without_cr(rest.take(n)),
                ] + lines_of(rest.skip(n + 1))));
            }
            start = nl + 1;
        }
    }
    proof {
        assert(views(out@) + Seq::<Seq<char>>::empty() =~= views(out@));
    }
    out
}

/// The `parts` in order, with `sep` between each two neighbours.
pub open spec fn joined(parts: Seq<Seq<char>>, sep: Seq<char>) -> Seq<char>
    decreases parts.len(),
{
    if parts.len() == 0 {
        Seq::empty()
    } else if parts.len() == 1 {
        parts[0]
    } else {
        joined(parts.drop_last(), sep) + sep + parts.last()
    }
}

/// What is joined is at least as long as each of its parts.
pub proof fn lemma_joined_covers(parts: Seq<Seq<char>>, sep: Seq<char>, i: int)
    requires
        0 <= i < parts.len(),
    ensures
        joined(parts, sep).len() >= parts[i].len(),
    decreases parts.len(),
{
    if parts.len() > 1 {
        if i < parts.len() - 1 {
            lemma_joined_covers(parts.drop_last(), sep, i);
        }
    }
}

/// The `parts` in order, with `sep` between each two neighbours.
pub fn join(parts: &Vec<String>, sep: &str) -> (out: String)
    ensures
        out@ == joined(views(parts@), sep@),
{
    let mut out = String::new();
    let mut i: usize = 0;
    while i < parts.len()
        invariant
            i <= parts.len(),
            out@ == joined(views(parts@).take(i as int), sep@),
        decreases parts.len() - i,
    {
        if i > 0 {
            out.append(sep);
        }
        out.append(parts[i].as_str());
        proof {
            let all = views(parts@);
            assert(all.take(i + 1).drop_last() =~= all.take(i as int));
            assert(all.take(i + 1).last() == parts@[i as int]@);
            if i == 0 {
                assert(out@ =~= parts@[0]@);
            }
        }
        i += 1;
    }
    proof {
        assert(views(parts@).take(parts.len() as int) =~= views(parts@));
    }
    out
}

/// The character that stands for the digit `d`.
pub open spec fn digit(d: int) -> char {
    if d == 0 {
        '0'
    } else if d == 1 {
        '1'
    } else if d == 2 {
        '2'
    } else if d == 3 {
        '3'
    } else if d == 4 {
        '4'
    } else if d == 5 {
        '5'
    } else if d == 6 {
        '6'
    } else if d == 7 {
        '7'
    } else if d == 8 {
        '8'
    } else {
        '9'
    }
}

/// `n` in decimal notation, without leading zeros.
pub open spec fn decimal(n: nat) -> Seq<char>
    decreases n,
{
    if n < 10 {
        seq![digit(n as int)]
    } else {
        decimal(n / 10).push(digit((n % 10) as int))
    }
}

/// The character that stands for the digit `d`.
fn digit_char(d: usize) -> (c: char)
    requires
        d < 10,
    ensures
        c == digit(d as int),
{
    if d == 0 {
        '0'
    } else if d == 1 {
        '1'
    } else if d == 2 {
        '2'
    } else if d == 3 {
        '3'
    } else if d == 4 {
        '4'
    } else if d == 5 {
        '5'
    } else if d == 6 {
        '6'
    } else if d == 7 {
        '7'
    } else if d == 8 {
        '8'
    } else {
        '9'
    }
}

/// `n` in decimal notation.
pub fn decimal_string(n: usize) -> (out: String)
    ensures
        out@ == decimal(n as nat),
{
    // The digits come out last first.
    let mut reversed: Vec<char> = Vec::new();
    let mut rest: usize = n;
    while rest >= 10
        invariant
            decimal(n as nat) == decimal(rest as nat) + reversed@.reverse(),
        decreases rest,
    {
        let c = digit_char(rest % 10);
        proof {
            let r = reversed@;
            assert(r.push(c).reverse() =~= seq![c] + r.reverse());
            assert(decimal((rest / 10) as nat) + r.push(c).reverse() =~= decimal(rest as nat)
                + r.reverse());
        }
        reversed.push(c);
        rest = rest / 10;
    }
    let first = digit_char(rest);
    let mut out = String::new();
    out.push(first);
    let mut i: usize = reversed.len();
    while i > 0
        invariant
            i <= reversed.len(),
            out@ == seq![first] + reversed@.reverse().take(reversed.len() - i),
        decreases i,
    {
        i -= 1;
        out.push(reversed[i]);
        proof {
            let rv = reversed@.reverse();
            assert(rv.take(reversed.len() - i) =~= rv.take(reversed.len() - i - 1).push(
                reversed@[i as int],
            ));
        }
    }
    proof {
        let rv = reversed@.reverse();
        assert(rv.take(reversed.len() as int) =~= rv);
        assert(decimal(rest as nat) + rv =~= seq![first] + rv);
    }
    out
}

/// `s` followed by as many spaces as it takes to reach `width`
/// characters; `s` itself where it is at least that long.
pub open spec fn padded(s: Seq<char>, width: nat) -> Seq<char> {
    if s.len() >= width {
        s
    } else {
        s + Seq::new((width - s.len()) as nat, |i: int| ' ')
    }
}

/// `s` filled up with spaces to `width` characters.
pub fn pad(s: &str, width: usize) -> (out: String)
    ensures
        out@ == padded(s@, width as nat),
{
    let mut out = String::from_str(s);
    let have = s.unicode_len();
    let mut n: usize = have;
    while n < width
        invariant
            have == s@.len(),
            have <= n,
            n <= width || n == have,
            out@ == s@ + Seq::new((n - have) as nat, |i: int| ' '),
        decreases width - n,
    {
        out.push(' ');
        n += 1;
        proof {
            assert(s@ + Seq::new((n - have) as nat, |i: int| ' ') =~= (s@ + Seq::new(
                (n - 1 - have) as nat,
                |i: int| ' ',
            )).push(' '));
        }
    }
    proof {
        if have >= width {
            assert(out@ =~= s@);
        }
    }
    out
}

/// The text that `bytes` encode in UTF-8, if they encode one.
pub open spec fn decoded(bytes: Seq<u8>) -> Option<Seq<char>> {
    if valid_utf8(bytes) {
        Some(decode_utf8(bytes))
    } else {
        None
    }
}

/// The characters that `bytes` encode in UTF-8; `None` where `bytes` are
/// not well-formed UTF-8.
pub fn decode(bytes: &[u8]) -> (out: Option<Vec<char>>)
    ensures
        out is Some <==> decoded(bytes@) is Some,
        out matches Some(cs) ==> Some(cs@) == decoded(bytes@),
{
    match std::str::from_utf8(bytes) {
        Ok(s) => {
            proof {
                encode_utf8_decode_utf8(s@);
            }
            Some(chars_of(s))
        },
        Err(_) => None,
    }
}

/// Whether `a` and `b` hold the same characters.
pub fn same_text(a: &Vec<char>, b: &Vec<char>) -> (same: bool)
    ensures
        same == (a@ == b@),
{
    if a.len() != b.len() {
        return false;
    }
    let mut i: usize = 0;
    while i < a.len()
        invariant
            a.len() == b.len(),
            i <= a.len(),
            forall|j: int| 0 <= j < i ==> a@[j] == b@[j],
        decreases a.len() - i,
    {
        if a[i] != b[i] {
            return false;
        }
        i += 1;
    }
    proof {
        assert(a@ =~= b@);
    }
    true
}

/// The order of characters by their code points.
pub open spec fn by_char() -> spec_fn(char, char) -> bool {
    |x: char, y: char| (x as u32) < (y as u32)
}

/// Whether `a` comes before `b` in the lexicographic order of code
/// points, which is the order of `str`.
pub open spec fn text_less(a: Seq<char>, b: Seq<char>) -> bool {
    lex_less(a, b, by_char())
}

/// The order of texts.
pub open spec fn by_text() -> spec_fn(Seq<char>, Seq<char>) -> bool {
    |a: Seq<char>, b: Seq<char>| text_less(a, b)
}

/// The order of characters is a strict total order.
pub proof fn lemma_char_order()
    ensures
        strict_total(by_char()),
{
    let less = by_char();
    assert forall|x: char, y: char| x != y implies #[trigger] less(x, y) || less(y, x) by {
        vstd::utf8::char_u32_cast(x, x as u32);
        vstd::utf8::char_u32_cast(y, y as u32);
    }
}

/// The order of texts is a strict total order.
pub proof fn lemma_text_order()
    ensures
        strict_total(by_text()),
{
    lemma_char_order();
    let less = by_text();
    assert forall|x: Seq<char>| !#[trigger] less(x, x) by {
        lemma_lex_irreflexive(x, by_char());
    }
    assert forall|x: Seq<char>, y: Seq<char>, z: Seq<char>| #[trigger]
        less(x, y) && #[trigger] less(y, z) implies less(x, z) by {
        lemma_lex_transitive(x, y, z, by_char());
    }
    assert forall|x: Seq<char>, y: Seq<char>| x != y implies #[trigger] less(x, y) || less(
        y,
        x,
    ) by {
        lemma_lex_connected(x, y, by_char());
    }
}

/// Whether `a` comes before `b` in the order of texts.
pub fn text_before(a: &Vec<char>, b: &Vec<char>) -> (less: bool)
    ensures
        less == text_less(a@, b@),
{
    let mut i: usize = 0;
    proof {
        assert(a@.take(0) =~= b@.take(0));
    }
    while i < a.len() && i < b.len()
        invariant
            i <= a.len(),
            i <= b.len(),
            a@.take(i as int) == b@.take(i as int),
        decreases a.len() - i,
    {
        if a[i] != b[i] {
            proof {
                lemma_lex_skip(a@, b@, i as int, by_char());
                assert(a@.skip(i as int)[0] == a@[i as int]);
                assert(b@.skip(i as int)[0] == b@[i as int]);
            }
            return (a[i] as u32) < (b[i] as u32);
        }
        proof {
            assert(a@.take(i + 1) =~= a@.take(i as int).push(a@[i as int]));
            assert(b@.take(i + 1) =~= b@.take(i as int).push(b@[i as int]));
        }
        i += 1;
    }
    proof {
        lemma_lex_skip(a@, b@, i as int, by_char());
    }
    i < b.len()
}

/// The texts `items` in ascending order.
pub fn sort_texts(items: &Vec<Vec<char>>) -> (out: Vec<Vec<char>>)
    ensures
        views(out@) == sorted(views(items@), by_text()),
{
    let ghost all = views(items@);
    let mut out: Vec<Vec<char>> = Vec::new();
    let mut i: usize = 0;
    proof {
        assert(views(out@) =~= sorted(all.take(0), by_text()));
    }
    while i < items.len()
        invariant
            i <= items.len(),
            all == views(items@),
            views(out@) == sorted(all.take(i as int), by_text()),
        decreases items.len() - i,
    {
        let x = slice_of(&items[i], 0, items[i].len());
        let mut at: usize = out.len();
        while at > 0 && text_before(&x, &out[at - 1])
            invariant
                at <= out.len(),
                forall|j: int| at <= j < out.len() ==> by_text()(x@, #[trigger] views(out@)[j]),
            decreases at,
        {
            at -= 1;
        }
        proof {
            let before = views(out@);
            assert(x@ =~= items@[i as int]@);
            lemma_inserted_at(before, x@, at as int, by_text());
            assert(views(out@.insert(at as int, x)) =~= before.take(at as int).push(x@)
                + before.skip(at as int));
            assert(all.take(i + 1).drop_last() =~= all.take(i as int));
            assert(all.take(i + 1).last() == x@);
        }
        out.insert(at, x);
        i += 1;
    }
    proof {
        assert(all.take(items.len() as int) =~= all);
    }
    out
}

} // verus!
