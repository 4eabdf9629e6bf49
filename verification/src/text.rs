//! Characters, words and fields of a line of text.

use vstd::prelude::*;
use vstd::slice::slice_subrange;
use vstd::string::*;

verus! {

/// Whether `c` has the Unicode property `White_Space`.
pub open spec fn is_space(c: char) -> bool {
    ||| '\u{9}' <= c <= '\u{d}'
    ||| c == ' '
    ||| c == '\u{85}'
    ||| c == '\u{a0}'
    ||| c == '\u{1680}'
    ||| '\u{2000}' <= c <= '\u{200a}'
    ||| c == '\u{2028}'
    ||| c == '\u{2029}'
    ||| c == '\u{202f}'
    ||| c == '\u{205f}'
    ||| c == '\u{3000}'
}

/// Whether `c` is white space in the sense of Unicode.
pub fn is_whitespace(c: char) -> (r: bool)
    ensures
        r == is_space(c),
{
    ('\u{9}' <= c && c <= '\u{d}') || c == ' ' || c == '\u{85}' || c == '\u{a0}' || c == '\u{1680}'
        || ('\u{2000}' <= c && c <= '\u{200a}') || c == '\u{2028}' || c == '\u{2029}' || c
        == '\u{202f}' || c == '\u{205f}' || c == '\u{3000}'
}

/// `s` without the white space that it begins with.
pub open spec fn trim_start(s: Seq<char>) -> Seq<char>
    decreases s.len(),
{
    if s.len() > 0 && is_space(s[0]) {
        trim_start(s.drop_first())
    } else {
        s
    }
}

/// `s` without the white space that it ends with.
pub open spec fn trim_end(s: Seq<char>) -> Seq<char>
    decreases s.len(),
{
    if s.len() > 0 && is_space(s.last()) {
        trim_end(s.drop_last())
    } else {
        s
    }
}

/// `s` without the white space at both ends.
pub open spec fn trimmed(s: Seq<char>) -> Seq<char> {
    trim_end(trim_start(s))
}

/// The number of characters before the first white space of `s`.
pub open spec fn word_len(s: Seq<char>) -> nat
    decreases s.len(),
{
    if s.len() > 0 && !is_space(s[0]) {
        1 + word_len(s.drop_first())
    } else {
        0
    }
}

/// The first of the words of `s` that white space separates, and what follows it.
pub open spec fn first_word(s: Seq<char>) -> Option<(Seq<char>, Seq<char>)> {
    let t = trim_start(s);
    if t.len() == 0 {
        None
    } else {
        Some((t.take(word_len(t) as int), t.skip(word_len(t) as int)))
    }
}

/// The index of the first `c` in `s`.
pub open spec fn position(s: Seq<char>, c: char) -> Option<int>
    decreases s.len(),
{
    if s.len() == 0 {
        None
    } else if s[0] == c {
        Some(0)
    } else {
        match position(s.drop_first(), c) {
            Some(i) => Some(i + 1),
            None => None,
        }
    }
}

/// The pieces of `s` between the occurrences of `c`: one more than there are occurrences.
pub open spec fn pieces(s: Seq<char>, c: char) -> Seq<Seq<char>>
    decreases s.len(),
    via pieces_decreases
{
    match position(s, c) {
        Some(i) => seq![s.take(i)] + pieces(s.skip(i + 1), c),
        None => seq![s],
    }
}

#[via_fn]
proof fn pieces_decreases(s: Seq<char>, c: char) {
    lemma_position(s, c);
}

/// What `position` gives is the least index at which `c` stands.
pub proof fn lemma_position(s: Seq<char>, c: char)
    ensures
        position(s, c) matches Some(i) ==> 0 <= i < s.len() && s[i] == c && forall|j: int|
            0 <= j < i ==> s[j] != c,
        position(s, c) is None ==> forall|j: int| 0 <= j < s.len() ==> s[j] != c,
    decreases s.len(),
{
    if s.len() > 0 && s[0] != c {
        let t = s.drop_first();
        lemma_position(t, c);
        match position(t, c) {
            Some(i) => {
                assert forall|j: int| 0 <= j < i + 1 implies s[j] != c by {
                    if j > 0 {
                        assert(t[j - 1] == s[j]);
                    }
                }
            },
            None => {
                assert forall|j: int| 0 <= j < s.len() implies s[j] != c by {
                    if j > 0 {
                        assert(t[j - 1] == s[j]);
                    }
                }
            },
        }
    }
}

/// The least index at which `c` stands is what `position` gives.
pub proof fn lemma_position_unique(s: Seq<char>, c: char, i: int)
    requires
        0 <= i < s.len(),
        s[i] == c,
        forall|j: int| 0 <= j < i ==> s[j] != c,
    ensures
        position(s, c) == Some(i),
{
    lemma_position(s, c);
}

/// The characters of `s`.
pub fn chars_of(s: &str) -> (r: Vec<char>)
    ensures
        r@ == s@,
{
    let mut out: Vec<char> = Vec::new();
    for c in it: s.chars()
        invariant
            it.seq() == s@,
            out@ == s@.take(it.index()),
    {
        out.push(c);
        assert(out@ =~= s@.take(it.index() + 1));
    }
    assert(s@.take(s@.len() as int) =~= s@);
    out
}

/// Where the text of `s` begins after its leading white space.
fn start_of_text(s: &[char]) -> (r: usize)
    ensures
        r <= s@.len(),
        s@.skip(r as int) == trim_start(s@),
{
    let mut i: usize = 0;
    assert(s@.skip(0) =~= s@);
    while i < s.len() && is_whitespace(s[i])
        invariant
            i <= s@.len(),
            trim_start(s@.skip(i as int)) == trim_start(s@),
        decreases s@.len() - i,
    {
        assert(s@.skip(i as int).drop_first() =~= s@.skip(i + 1));
        i += 1;
    }
    i
}

/// The bounds of `s` without the white space at both ends.
pub fn trim_bounds(s: &[char]) -> (r: (usize, usize))
    ensures
        r.0 <= r.1 <= s@.len(),
        s@.subrange(r.0 as int, r.1 as int) == trimmed(s@),
{
    let from: usize = start_of_text(s);
    let mut to: usize = s.len();
    assert(s@.subrange(from as int, to as int) =~= s@.skip(from as int));
    while from < to && is_whitespace(s[to - 1])
        invariant
            from <= to <= s@.len(),
            trim_end(s@.subrange(from as int, to as int)) == trimmed(s@),
        decreases to,
    {
        assert(s@.subrange(from as int, to as int).drop_last() =~= s@.subrange(
            from as int,
            to - 1,
        ));
        to -= 1;
    }
    (from, to)
}

/// `s` without the white space at both ends.
pub fn trim(s: &[char]) -> (r: &[char])
    ensures
        r@ == trimmed(s@),
{
    let (from, to) = trim_bounds(s);
    slice_subrange(s, from, to)
}

/// The first word of `s`, as white space separates words, and what follows it.
pub fn next_word(s: &[char]) -> (r: Option<(&[char], &[char])>)
    ensures
        match r {
            Some((word, rest)) => first_word(s@) == Some((word@, rest@)),
            None => first_word(s@) is None,
        },
{
    let from: usize = start_of_text(s);
    let t = slice_subrange(s, from, s.len());
    assert(t@ =~= trim_start(s@));
    if t.len() == 0 {
        return None;
    }
    let mut n: usize = 0;
    assert(t@.skip(0) =~= t@);
    while n < t.len() && !is_whitespace(t[n])
        invariant
            n <= t@.len(),
            word_len(t@) == n + word_len(t@.skip(n as int)),
        decreases t@.len() - n,
    {
        assert(t@.skip(n as int).drop_first() =~= t@.skip(n + 1));
        n += 1;
    }
    let word = slice_subrange(t, 0, n);
    let rest = slice_subrange(t, n, t.len());
    assert(word@ =~= t@.take(n as int));
    assert(rest@ =~= t@.skip(n as int));
    Some((word, rest))
}

/// The index of the first `c` in `s`.
pub fn find(s: &[char], c: char) -> (r: Option<usize>)
    ensures
        match r {
            Some(i) => position(s@, c) == Some(i as int),
            None => position(s@, c) is None,
        },
{
    let mut i: usize = 0;
    while i < s.len()
        invariant
            i <= s@.len(),
            forall|j: int| 0 <= j < i ==> s@[j] != c,
        decreases s@.len() - i,
    {
        if s[i] == c {
            proof {
                lemma_position_unique(s@, c, i as int);
            }
            return Some(i);
        }
        i += 1;
    }
    proof {
        lemma_position(s@, c);
    }
    None
}

/// The contents of each of `slices`.
pub open spec fn contents_of(slices: Seq<&[char]>) -> Seq<Seq<char>> {
    Seq::new(slices.len(), |i: int| slices[i]@)
}

/// The pieces of `s` between the occurrences of `c`.
pub fn split(s: &[char], c: char) -> (r: Vec<&[char]>)
    ensures
        contents_of(r@) == pieces(s@, c),
{
    let mut out: Vec<&[char]> = Vec::new();
    let mut rest = s;
    assert(contents_of(out@) + pieces(s@, c) =~= pieces(s@, c));
    loop
        invariant
            contents_of(out@) + pieces(rest@, c) == pieces(s@, c),
        decreases rest@.len(),
    {
        let ghost before = out@;
        match find(rest, c) {
            Some(i) => {
                proof {
                    lemma_position(rest@, c);
                }
                let len: usize = rest.len();
                let head = slice_subrange(rest, 0, i);
                let tail = slice_subrange(rest, i + 1, len);
                out.push(head);
                assert(head@ =~= rest@.take(i as int));
                assert(tail@ =~= rest@.skip(i + 1));
                assert(contents_of(out@) =~= contents_of(before).push(head@));
                assert(contents_of(before) + (seq![head@] + pieces(tail@, c)) =~= contents_of(out@)
                    + pieces(tail@, c));
                rest = tail;
            },
            None => {
                out.push(rest);
                assert(contents_of(out@) =~= contents_of(before) + seq![rest@]);
                return out;
            },
        }
    }
}

/// What follows `prefix` in `s`, where `s` begins with it.
pub fn strip_prefix<'a>(s: &'a [char], prefix: &str) -> (r: Option<&'a [char]>)
    ensures
        match r {
            Some(rest) => prefix@.is_prefix_of(s@) && rest@ == s@.skip(prefix@.len() as int),
            None => !prefix@.is_prefix_of(s@),
        },
{
    let p: Vec<char> = chars_of(prefix);
    if s.len() < p.len() {
        return None;
    }
    let mut i: usize = 0;
    while i < p.len()
        invariant
            i <= p@.len() <= s@.len(),
            p@ == prefix@,
            forall|j: int| 0 <= j < i ==> s@[j] == p@[j],
        decreases p@.len() - i,
    {
        if s[i] != p[i] {
            assert(s@[i as int] != prefix@[i as int]);
            assert(s@.subrange(0, prefix@.len() as int)[i as int] == s@[i as int]);
            return None;
        }
        i += 1;
    }
    assert(s@.subrange(0, prefix@.len() as int) =~= prefix@);
    let rest = slice_subrange(s, p.len(), s.len());
    assert(rest@ =~= s@.skip(prefix@.len() as int));
    Some(rest)
}

/// Whether `a` and `b` are the same text.
pub fn same_text(a: &[char], b: &[char]) -> (r: bool)
    ensures
        r == (a@ == b@),
{
    if a.len() != b.len() {
        return false;
    }
    let mut i: usize = 0;
    while i < a.len()
        invariant
            i <= a@.len() == b@.len(),
            forall|j: int| 0 <= j < i ==> a@[j] == b@[j],
        decreases a@.len() - i,
    {
        if a[i] != b[i] {
            return false;
        }
        i += 1;
    }
    assert(a@ =~= b@);
    true
}

/// The part of `s` from character `from` up to character `to`.
pub fn substring(s: &str, from: usize, to: usize) -> (r: String)
    requires
        from <= to <= s@.len(),
    ensures
        r@ == s@.subrange(from as int, to as int),
{
    s.substring_char(from, to).to_owned()
}

/// Whether `s` holds nothing but white space.
pub open spec fn all_spaces(s: Seq<char>) -> bool {
    forall|i: int| 0 <= i < s.len() ==> is_space(#[trigger] s[i])
}

/// Whether `s` holds no white space.
pub open spec fn no_spaces(s: Seq<char>) -> bool {
    forall|i: int| 0 <= i < s.len() ==> !is_space(#[trigger] s[i])
}

proof fn lemma_trim_start_gap(gap: Seq<char>, s: Seq<char>)
    requires
        all_spaces(gap),
    ensures
        trim_start(gap + s) == trim_start(s),
    decreases gap.len(),
{
    if gap.len() == 0 {
        assert(gap + s =~= s);
    } else {
        let rest = gap.drop_first();
        assert forall|i: int| 0 <= i < rest.len() implies is_space(#[trigger] rest[i]) by {
            assert(rest[i] == gap[i + 1]);
        }
        lemma_trim_start_gap(rest, s);
        assert((gap + s).drop_first() =~= rest + s);
        assert(is_space(gap[0]));
    }
}

proof fn lemma_word_len(word: Seq<char>, rest: Seq<char>)
    requires
        no_spaces(word),
        rest.len() == 0 || is_space(rest[0]),
    ensures
        word_len(word + rest) == word.len(),
    decreases word.len(),
{
    if word.len() == 0 {
        assert(word + rest =~= rest);
    } else {
        let tail = word.drop_first();
        assert forall|i: int| 0 <= i < tail.len() implies !is_space(#[trigger] tail[i]) by {
            assert(tail[i] == word[i + 1]);
        }
        lemma_word_len(tail, rest);
        assert((word + rest).drop_first() =~= tail + rest);
        assert(!is_space(word[0]));
    }
}

/// The first word of a text is found behind any white space, and ends before the next.
pub proof fn theorem_first_word(gap: Seq<char>, word: Seq<char>, rest: Seq<char>)
    requires
        all_spaces(gap),
        no_spaces(word),
        word.len() > 0,
        rest.len() == 0 || is_space(rest[0]),
    ensures
        first_word(gap + word + rest) == Some((word, rest)),
{
    let t = word + rest;
    assert(gap + word + rest =~= gap + t);
    lemma_trim_start_gap(gap, t);
    assert(!is_space(word[0]));
    assert(t[0] == word[0]);
    lemma_word_len(word, rest);
    assert(t.take(word.len() as int) =~= word);
    assert(t.skip(word.len() as int) =~= rest);
}

/// The given pieces, with `c` between them.
pub open spec fn joined(parts: Seq<Seq<char>>, c: char) -> Seq<char>
    decreases parts.len(),
{
    if parts.len() == 0 {
        seq![]
    } else if parts.len() == 1 {
        parts[0]
    } else {
        parts[0].push(c) + joined(parts.drop_first(), c)
    }
}

/// Splitting undoes joining, where the separator is in none of the pieces.
pub proof fn theorem_split_undoes_join(parts: Seq<Seq<char>>, c: char)
    requires
        parts.len() > 0,
        forall|i: int| 0 <= i < parts.len() ==> !(#[trigger] parts[i]).contains(c),
    ensures
        pieces(joined(parts, c), c) == parts,
    decreases parts.len(),
{
    let s = joined(parts, c);
    let head = parts[0];
    assert forall|j: int| 0 <= j < head.len() implies head[j] != c by {
        assert(!head.contains(c));
    }
    if parts.len() == 1 {
        lemma_position(s, c);
        assert(seq![s] =~= parts);
    } else {
        let tail = parts.drop_first();
        assert forall|i: int| 0 <= i < tail.len() implies !(#[trigger] tail[i]).contains(c) by {
            assert(tail[i] == parts[i + 1]);
        }
        theorem_split_undoes_join(tail, c);
        assert(s[head.len() as int] == c);
        lemma_position_unique(s, c, head.len() as int);
        assert(s.take(head.len() as int) =~= head);
        assert(s.skip(head.len() as int + 1) =~= joined(tail, c));
        assert(seq![head] + tail =~= parts);
    }
}

/// White space is what Unicode counts as such, by the numbers of the characters.
pub proof fn theorem_white_space(c: char)
    ensures
        is_space(c) <==> {
            let n = c as u32;
            ||| 9 <= n <= 13
            ||| n == 32
            ||| n == 0x85
            ||| n == 0xa0
            ||| n == 0x1680
            ||| 0x2000 <= n <= 0x200a
            ||| n == 0x2028
            ||| n == 0x2029
            ||| n == 0x202f
            ||| n == 0x205f
            ||| n == 0x3000
        },
{
}

proof fn lemma_trim_end_gap(s: Seq<char>, gap: Seq<char>)
    requires
        all_spaces(gap),
    ensures
        trim_end(s + gap) == trim_end(s),
    decreases gap.len(),
{
    if gap.len() == 0 {
        assert(s + gap =~= s);
    } else {
        let shorter = gap.drop_last();
        assert forall|i: int| 0 <= i < shorter.len() implies is_space(#[trigger] shorter[i]) by {
            assert(shorter[i] == gap[i]);
        }
        lemma_trim_end_gap(s, shorter);
        assert((s + gap).drop_last() =~= s + shorter);
        assert(is_space(gap[gap.len() - 1]));
    }
}

/// Trimming takes off the white space at both ends, and nothing else.
pub proof fn theorem_trimmed(before: Seq<char>, core: Seq<char>, after: Seq<char>)
    requires
        all_spaces(before),
        all_spaces(after),
        core.len() == 0 || (!is_space(core[0]) && !is_space(core.last())),
    ensures
        trimmed(before + core + after) == core,
{
    let t = core + after;
    assert(before + core + after =~= before + t);
    lemma_trim_start_gap(before, t);
    if core.len() == 0 {
        assert(t =~= after + core);
        lemma_trim_start_gap(after, core);
    } else {
        assert(t[0] == core[0]);
        lemma_trim_end_gap(core, after);
    }
}

proof fn lemma_trim_start_cut(s: Seq<char>) -> (n: int)
    ensures
        0 <= n <= s.len(),
        trim_start(s) == s.skip(n),
        all_spaces(s.take(n)),
        n < s.len() ==> !is_space(s[n]),
    decreases s.len(),
{
    if s.len() > 0 && is_space(s[0]) {
        let n = lemma_trim_start_cut(s.drop_first()) + 1;
        assert(s.drop_first().skip(n - 1) =~= s.skip(n));
        assert forall|i: int| 0 <= i < n implies is_space(#[trigger] s.take(n)[i]) by {
            if i > 0 {
                assert(s.drop_first().take(n - 1)[i - 1] == s[i]);
            }
        }
        n
    } else {
        assert(s.skip(0) =~= s);
        0
    }
}

proof fn lemma_trim_end_cut(s: Seq<char>) -> (n: int)
    ensures
        0 <= n <= s.len(),
        trim_end(s) == s.take(n),
        all_spaces(s.skip(n)),
        n > 0 ==> !is_space(s[n - 1]),
    decreases s.len(),
{
    if s.len() > 0 && is_space(s.last()) {
        let n = lemma_trim_end_cut(s.drop_last());
        assert(s.drop_last().take(n) =~= s.take(n));
        assert forall|i: int| 0 <= i < s.len() - n implies is_space(#[trigger] s.skip(n)[i]) by {
            if i < s.len() - n - 1 {
                assert(s.drop_last().skip(n)[i] == s[n + i]);
            }
        }
        n
    } else {
        assert(s.take(s.len() as int) =~= s);
        s.len() as int
    }
}

/// Every text is its trimmed text with white space before and after.
pub proof fn theorem_trimmed_is_core(s: Seq<char>) -> (parts: (Seq<char>, Seq<char>))
    ensures
        s == parts.0 + trimmed(s) + parts.1,
        all_spaces(parts.0),
        all_spaces(parts.1),
        trimmed(s).len() == 0 || (!is_space(trimmed(s)[0]) && !is_space(trimmed(s).last())),
{
    let from = lemma_trim_start_cut(s);
    let t = s.skip(from);
    let to = lemma_trim_end_cut(t);
    let before = s.take(from);
    let after = t.skip(to);
    assert(s =~= before + t.take(to) + after);
    (before, after)
}

/// A text of white space alone has no word.
pub proof fn theorem_no_word(s: Seq<char>)
    requires
        all_spaces(s),
    ensures
        first_word(s) is None,
{
    assert(s + Seq::<char>::empty() =~= s);
    lemma_trim_start_gap(s, Seq::empty());
}

/// The pieces of a text hold no separator, and joining them gives the text back.
pub proof fn theorem_join_undoes_split(s: Seq<char>, c: char)
    ensures
        pieces(s, c).len() > 0,
        forall|i: int| 0 <= i < pieces(s, c).len() ==> !(#[trigger] pieces(s, c)[i]).contains(c),
        joined(pieces(s, c), c) == s,
    decreases s.len(),
{
    lemma_position(s, c);
    let all = pieces(s, c);
    match position(s, c) {
        Some(i) => {
            let tail = s.skip(i + 1);
            theorem_join_undoes_split(tail, c);
            assert(all.drop_first() =~= pieces(tail, c));
            assert forall|k: int| 0 <= k < all.len() implies !(#[trigger] all[k]).contains(c) by {
                if k > 0 {
                    assert(all[k] == pieces(tail, c)[k - 1]);
                }
            }
            assert(s.take(i).push(c) + tail =~= s);
        },
        None => {},
    }
}

/// The contents of slices are those of each, in their order.
pub proof fn theorem_contents_of(slices: Seq<&[char]>, i: int)
    requires
        0 <= i < slices.len(),
    ensures
        contents_of(slices).len() == slices.len(),
        contents_of(slices)[i] == slices[i]@,
{
}

} // verus!
