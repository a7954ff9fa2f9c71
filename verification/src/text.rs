//! Character-level text handling: Unicode whitespace, trimming, collapsing
//! runs of whitespace, splitting on a separator and searching for a pattern.
//! Every operation works on the `Seq<char>` view of a string.

use vstd::prelude::*;

verus! {

broadcast use vstd::string::group_string_axioms;

// ---------------------------------------------------------------------------
// Specifications
// ---------------------------------------------------------------------------

/// Unicode `White_Space`: the characters that `char::is_whitespace`,
/// `str::trim` and `str::split_whitespace` treat as whitespace.
pub open spec fn is_space(c: char) -> bool {
    let u = c as u32;
    ||| 0x09 <= u <= 0x0d
    ||| u == 0x20
    ||| u == 0x85
    ||| u == 0xa0
    ||| u == 0x1680
    ||| 0x2000 <= u <= 0x200a
    ||| u == 0x2028
    ||| u == 0x2029
    ||| u == 0x202f
    ||| u == 0x205f
    ||| u == 0x3000
}

/// The maximal runs of non-whitespace characters of `s`, in order
/// (what `str::split_whitespace` yields).
pub open spec fn words(s: Seq<char>) -> Seq<Seq<char>>
    decreases s.len(),
{
    if s.len() == 0 {
        seq![]
    } else {
        let rest = words(s.drop_last());
        let c = s.last();
        if is_space(c) {
            rest
        } else if s.len() >= 2 && !is_space(s[s.len() - 2]) {
            rest.update(rest.len() - 1, rest.last().push(c))
        } else {
            rest.push(seq![c])
        }
    }
}

/// The pieces of `parts` joined with `sep` between consecutive pieces.
pub open spec fn join(parts: Seq<Seq<char>>, sep: Seq<char>) -> Seq<char>
    decreases parts.len(),
{
    if parts.len() == 0 {
        seq![]
    } else if parts.len() == 1 {
        parts[0]
    } else {
        join(parts.drop_last(), sep) + sep + parts.last()
    }
}

/// Every run of whitespace collapsed to one space, with no leading or
/// trailing whitespace.
pub open spec fn collapse(s: Seq<char>) -> Seq<char> {
    join(words(s), seq![' '])
}

/// `s` without its leading whitespace.
pub open spec fn trim_start(s: Seq<char>) -> Seq<char>
    decreases s.len(),
{
    if s.len() > 0 && is_space(s[0]) {
        trim_start(s.drop_first())
    } else {
        s
    }
}

/// `s` without its trailing whitespace.
pub open spec fn trim_end(s: Seq<char>) -> Seq<char>
    decreases s.len(),
{
    if s.len() > 0 && is_space(s.last()) {
        trim_end(s.drop_last())
    } else {
        s
    }
}

/// `s` without leading and trailing whitespace (`str::trim`).
pub open spec fn trim(s: Seq<char>) -> Seq<char> {
    trim_end(trim_start(s))
}


/// ", ": what lists of names are joined with.
pub open spec fn comma_space() -> Seq<char> {
    seq![',', ' ']
}

/// The character sequences of a list of strings.
pub open spec fn string_views(v: Seq<String>) -> Seq<Seq<char>> {
    v.map_values(|s: String| s@)
}

/// The pieces of `s` between occurrences of `d` (`str::split` on a
/// character); there is always at least one piece.
pub open spec fn split_on(s: Seq<char>, d: char) -> Seq<Seq<char>>
    decreases s.len(),
{
    if s.len() == 0 {
        seq![seq![]]
    } else {
        let rest = split_on(s.drop_last(), d);
        if s.last() == d {
            rest.push(seq![])
        } else {
            rest.update(rest.len() - 1, rest.last().push(s.last()))
        }
    }
}

/// Whether `pat` occurs in `s` starting at index `i`.
pub open spec fn occurs_at(s: Seq<char>, pat: Seq<char>, i: int) -> bool {
    0 <= i && i + pat.len() <= s.len() && s.subrange(i, i + pat.len()) == pat
}

/// The first index at or after `i` where `pat` occurs in `s`.
pub open spec fn find_from(s: Seq<char>, pat: Seq<char>, i: int) -> Option<int>
    decreases s.len() + 1 - i,
{
    if i < 0 || i + pat.len() > s.len() {
        None
    } else if s.subrange(i, i + pat.len()) == pat {
        Some(i)
    } else {
        find_from(s, pat, i + 1)
    }
}

/// The first index where `pat` occurs in `s` (`str::find`, counted in
/// characters).
pub open spec fn find(s: Seq<char>, pat: Seq<char>) -> Option<int> {
    find_from(s, pat, 0)
}

/// Whether `c` is an ASCII decimal digit.
pub open spec fn is_digit(c: char) -> bool {
    48 <= (c as u32) <= 57
}

/// Whether every character is ASCII.
pub open spec fn is_ascii_text(s: Seq<char>) -> bool {
    forall|i: int| 0 <= i < s.len() ==> (#[trigger] s[i] as u32) < 128
}

/// ASCII upper-case letters mapped to lower case, everything else kept.
pub open spec fn ascii_lower(c: char) -> char {
    if 65 <= (c as u32) <= 90 {
        ((c as u32) + 32) as char
    } else {
        c
    }
}

/// What `str::to_lowercase` returns for a given string (full Unicode
/// case mapping).
pub uninterp spec fn lowercase(s: Seq<char>) -> Seq<char>;

// ---------------------------------------------------------------------------
// Lemmas
// ---------------------------------------------------------------------------

/// Every word is non-empty and free of whitespace.
pub proof fn lemma_words_wf(s: Seq<char>)
    ensures
        forall|i: int| 0 <= i < words(s).len() ==> #[trigger] words(s)[i].len() > 0,
        forall|i: int, j: int|
            0 <= i < words(s).len() && 0 <= j < words(s)[i].len() ==> !is_space(
                #[trigger] words(s)[i][j],
            ),
        s.len() > 0 && !is_space(s.last()) ==> words(s).len() > 0,
    decreases s.len(),
{
    if s.len() > 0 {
        lemma_words_wf(s.drop_last());
        if !is_space(s.last()) && s.len() >= 2 && !is_space(s[s.len() - 2]) {
            assert(s.drop_last().last() == s[s.len() - 2]);
        }
    }
}

/// Joining after extending the last piece extends the joined text.
pub proof fn lemma_join_extend_last(parts: Seq<Seq<char>>, sep: Seq<char>, c: char)
    requires
        parts.len() > 0,
    ensures
        join(parts.update(parts.len() - 1, parts.last().push(c)), sep) == join(parts, sep).push(c),
{
    let p2 = parts.update(parts.len() - 1, parts.last().push(c));
    if parts.len() > 1 {
        assert(p2.drop_last() =~= parts.drop_last());
    }
    assert(join(p2, sep) =~= join(parts, sep).push(c));
}

/// Joining after appending a piece.
pub proof fn lemma_join_push(parts: Seq<Seq<char>>, sep: Seq<char>, w: Seq<char>)
    ensures
        join(parts.push(w), sep) == (if parts.len() == 0 {
            w
        } else {
            join(parts, sep) + sep + w
        }),
{
    assert(parts.push(w).drop_last() =~= parts);
}

/// The joined text is empty only when there is nothing to join (pieces
/// being non-empty).
pub proof fn lemma_join_empty(parts: Seq<Seq<char>>, sep: Seq<char>)
    requires
        forall|i: int| 0 <= i < parts.len() ==> #[trigger] parts[i].len() > 0,
    ensures
        (join(parts, sep).len() == 0) == (parts.len() == 0),
    decreases parts.len(),
{
    if parts.len() > 1 {
        lemma_join_empty(parts.drop_last(), sep);
        assert(parts.last() == parts[parts.len() - 1]);
    } else if parts.len() == 1 {
        assert(parts[0].len() > 0);
    }
}


/// There is always at least one piece.
pub proof fn lemma_split_on_nonempty(s: Seq<char>, d: char)
    ensures
        split_on(s, d).len() > 0,
    decreases s.len(),
{
    if s.len() > 0 {
        lemma_split_on_nonempty(s.drop_last(), d);
    }
}

/// What a found occurrence guarantees.
pub proof fn lemma_find_from_found(s: Seq<char>, pat: Seq<char>, j: int, i: int)
    requires
        find_from(s, pat, j) == Some(i),
    ensures
        j <= i,
        occurs_at(s, pat, i),
    decreases s.len() + 1 - j,
{
    if !(j < 0 || j + pat.len() > s.len()) && s.subrange(j, j + pat.len()) != pat {
        lemma_find_from_found(s, pat, j + 1, i);
    }
}

/// Trimming the start of a prefix of whitespace.
pub proof fn lemma_trim_start_skip(s: Seq<char>, a: int)
    requires
        0 <= a < s.len(),
        is_space(s[a]),
    ensures
        trim_start(s.skip(a)) == trim_start(s.skip(a + 1)),
{
    assert(s.skip(a).drop_first() =~= s.skip(a + 1));
}

/// Trimming the end of a slice ending in whitespace.
pub proof fn lemma_trim_end_sub(s: Seq<char>, a: int, b: int)
    requires
        0 <= a < b <= s.len(),
        is_space(s[b - 1]),
    ensures
        trim_end(s.subrange(a, b)) == trim_end(s.subrange(a, b - 1)),
{
    assert(s.subrange(a, b).drop_last() =~= s.subrange(a, b - 1));
}

/// Whitespace in a text is only single spaces strictly inside it, each
/// between two non-whitespace characters.
pub open spec fn single_spaced(r: Seq<char>) -> bool {
    forall|i: int|
        0 <= i < r.len() && is_space(#[trigger] r[i]) ==> r[i] == ' ' && 0 < i < r.len() - 1
            && !is_space(r[i - 1]) && !is_space(r[i + 1])
}

proof fn lemma_join_single_spaced(parts: Seq<Seq<char>>)
    requires
        forall|i: int| 0 <= i < parts.len() ==> #[trigger] parts[i].len() > 0,
        forall|i: int, j: int|
            0 <= i < parts.len() && 0 <= j < parts[i].len() ==> !is_space(#[trigger] parts[i][j]),
    ensures
        single_spaced(join(parts, seq![' '])),
        parts.len() > 0 ==> join(parts, seq![' ']).len() > 0 && !is_space(
            join(parts, seq![' '])[0],
        ) && !is_space(join(parts, seq![' ']).last()),
    decreases parts.len(),
{
    let r = join(parts, seq![' ']);
    if parts.len() == 1 {
        assert(r == parts[0]);
        assert forall|i: int| 0 <= i < r.len() && is_space(#[trigger] r[i]) implies false by {
            assert(r[i] == parts[0][i]);
        }
        assert(r[r.len() - 1] == parts[0][r.len() - 1]);
    } else if parts.len() > 1 {
        let front = parts.drop_last();
        let w = parts.last();
        lemma_join_single_spaced(front);
        let j = join(front, seq![' ']);
        assert(r == j + seq![' '] + w);
        assert(w == parts[parts.len() - 1]);
        assert(j[j.len() - 1] == j.last());
        assert forall|i: int| 0 <= i < r.len() && is_space(#[trigger] r[i]) implies r[i] == ' '
            && 0 < i < r.len() - 1 && !is_space(r[i - 1]) && !is_space(r[i + 1]) by {
            if i < j.len() {
                assert(r[i] == j[i]);
                assert(is_space(j[i]));
                assert(r[i - 1] == j[i - 1]);
                assert(r[i + 1] == j[i + 1]);
            } else if i == j.len() {
                assert(r[i - 1] == j.last());
                assert(r[i + 1] == w[0]);
            } else {
                assert(r[i] == w[i - j.len() - 1]);
            }
        }
        assert(r[0] == j[0]);
        assert(r.last() == w[w.len() - 1]);
    }
}

/// Appending a word after nothing or after whitespace adds it as a word.
proof fn lemma_words_append_word(t: Seq<char>, w: Seq<char>)
    requires
        w.len() > 0,
        forall|j: int| 0 <= j < w.len() ==> !is_space(#[trigger] w[j]),
        t.len() == 0 || is_space(t.last()),
    ensures
        words(t + w) == words(t).push(w),
    decreases w.len(),
{
    let s = t + w;
    assert(s.last() == w[w.len() - 1]);
    if w.len() == 1 {
        assert(s.drop_last() =~= t);
        if s.len() >= 2 {
            assert(s[s.len() - 2] == t.last());
        }
        assert(w =~= seq![w[0]]);
    } else {
        let w1 = w.drop_last();
        assert forall|j: int| 0 <= j < w1.len() implies !is_space(#[trigger] w1[j]) by {
            assert(w1[j] == w[j]);
        }
        lemma_words_append_word(t, w1);
        assert(s.drop_last() =~= t + w1);
        assert(s[s.len() - 2] == w[w.len() - 2]);
        let rest = words(t).push(w1);
        assert(w1.push(w.last()) =~= w);
        assert(rest.last() == w1);
        assert(rest.update(rest.len() - 1, rest.last().push(w.last())) =~= words(t).push(w));
    }
}

/// Splitting words that were joined with single spaces gives them back.
proof fn lemma_words_join(parts: Seq<Seq<char>>)
    requires
        forall|i: int| 0 <= i < parts.len() ==> #[trigger] parts[i].len() > 0,
        forall|i: int, j: int|
            0 <= i < parts.len() && 0 <= j < parts[i].len() ==> !is_space(#[trigger] parts[i][j]),
    ensures
        words(join(parts, seq![' '])) == parts,
    decreases parts.len(),
{
    if parts.len() == 0 {
        assert(words(join(parts, seq![' '])) =~= parts);
    } else {
        let w = parts.last();
        assert(w == parts[parts.len() - 1]);
        assert forall|j: int| 0 <= j < w.len() implies !is_space(#[trigger] w[j]) by {
            assert(w[j] == parts[parts.len() - 1][j]);
        }
        if parts.len() == 1 {
            let e = Seq::<char>::empty();
            lemma_words_append_word(e, w);
            assert(e + w =~= w);
            assert(seq![w] =~= parts);
        } else {
            let front = parts.drop_last();
            assert forall|i: int| 0 <= i < front.len() implies #[trigger] front[i].len() > 0 by {
                assert(front[i] == parts[i]);
            }
            assert forall|i: int, j: int|
                0 <= i < front.len() && 0 <= j < front[i].len() implies !is_space(
                #[trigger] front[i][j],
            ) by {
                assert(front[i] == parts[i]);
            }
            lemma_words_join(front);
            let t = join(front, seq![' ']) + seq![' '];
            lemma_words_append_word(t, w);
            assert(t.drop_last() =~= join(front, seq![' ']));
            assert(t.last() == ' ');
            assert(words(t) == words(t.drop_last()));
            assert(join(parts, seq![' ']) == t + w);
            assert(front.push(w) =~= parts);
        }
    }
}

/// The result of collapsing is in normal form: no whitespace but single
/// spaces between non-whitespace characters, so nothing leading or
/// trailing; collapsing it again changes nothing.
pub proof fn law_collapse_single_spaced(s: Seq<char>)
    ensures
        single_spaced(collapse(s)),
        collapse(s).len() > 0 ==> !is_space(collapse(s)[0]) && !is_space(collapse(s).last()),
        collapse(collapse(s)) == collapse(s),
{
    lemma_words_wf(s);
    lemma_join_single_spaced(words(s));
    lemma_join_empty(words(s), seq![' ']);
    lemma_words_join(words(s));
}

proof fn lemma_trim_start_shape(s: Seq<char>)
    ensures
        trim_start(s).is_suffix_of(s),
        trim_start(s).len() > 0 ==> !is_space(trim_start(s)[0]),
    decreases s.len(),
{
    if s.len() > 0 && is_space(s[0]) {
        lemma_trim_start_shape(s.drop_first());
        let t = trim_start(s.drop_first());
        assert forall|i: int| 0 <= i < t.len() implies t[i] == s[s.len() - t.len() + i] by {
            assert(t[i] == s.drop_first()[s.drop_first().len() - t.len() + i]);
        }
        assert(s.subrange(s.len() - t.len(), s.len() as int) =~= t);
    } else {
        assert(s.subrange(0, s.len() as int) =~= s);
    }
}

proof fn lemma_trim_end_shape(s: Seq<char>)
    ensures
        trim_end(s).is_prefix_of(s),
        trim_end(s).len() > 0 ==> !is_space(trim_end(s).last()),
        s.len() > 0 && !is_space(s[0]) ==> trim_end(s).len() > 0 && trim_end(s)[0] == s[0],
    decreases s.len(),
{
    if s.len() > 0 && is_space(s.last()) {
        lemma_trim_end_shape(s.drop_last());
        assert(s.drop_last().len() > 0 ==> s.drop_last()[0] == s[0]);
    } else {
        assert(s.subrange(0, s.len() as int) =~= s);
    }
}

/// `trim` removes whitespace at both ends and nothing else: the result is a
/// slice of the text that neither starts nor ends with whitespace.
pub proof fn law_trim(s: Seq<char>)
    ensures
        exists|a: int, b: int| 0 <= a <= b <= s.len() && trim(s) == s.subrange(a, b),
        trim(s).len() > 0 ==> !is_space(trim(s)[0]) && !is_space(trim(s).last()),
{
    lemma_trim_start_shape(s);
    let t = trim_start(s);
    lemma_trim_end_shape(t);
    let a = s.len() - t.len();
    let b = a + trim_end(t).len();
    assert(t =~= s.subrange(a, s.len() as int));
    assert(trim(s) =~= s.subrange(a, b));
}

// ---------------------------------------------------------------------------
// Executable operations
// ---------------------------------------------------------------------------

/// The characters of a string slice, in order.
pub fn chars_of(s: &str) -> (v: Vec<char>)
    ensures
        v@ == s@,
{
    let mut v: Vec<char> = Vec::new();
    for c in it: s.chars()
        invariant
            v@ == it.seq().take(it.index() as int),
            it.seq() == s@,
    {
        v.push(c);
    }
    v
}

/// A `String` holding exactly the given characters (std's
/// `FromIterator<&char>` for `String`, through `Iterator::collect`).
#[verifier::external_body]
pub(crate) fn string_from_chars(v: &[char]) -> (s: String)
    ensures
        s@ == v@,
{
    v.iter().collect()
}

/// Whether `c` is Unicode whitespace.
pub fn is_space_char(c: char) -> (b: bool)
    ensures
        b == is_space(c),
{
    let u = c as u32;
    (0x09 <= u && u <= 0x0d) || u == 0x20 || u == 0x85 || u == 0xa0 || u == 0x1680 || (0x2000
        <= u && u <= 0x200a) || u == 0x2028 || u == 0x2029 || u == 0x202f || u == 0x205f || u
        == 0x3000
}

/// Collapse every run of whitespace to a single space and trim both ends.
pub fn collapse_chars(cs: &Vec<char>) -> (out: Vec<char>)
    ensures
        out@ == collapse(cs@),
{
    let n = cs.len();
    let mut out: Vec<char> = Vec::new();
    let mut i: usize = 0;
    while i < n
        invariant
            n == cs@.len(),
            i <= n,
            out@ == collapse(cs@.take(i as int)),
        decreases n - i,
    {
        let c = cs[i];
        let ghost pre = cs@.take(i as int);
        let ghost cur = cs@.take(i as int + 1);
        assert(cur.drop_last() =~= pre);
        assert(cur.last() == c);
        proof {
            lemma_words_wf(pre);
            lemma_join_empty(words(pre), seq![' ']);
        }
        if !is_space_char(c) {
            if i > 0 && !is_space_char(cs[i - 1]) {
                assert(cur[cur.len() - 2] == cs@[i - 1]);
                assert(pre.last() == cs@[i - 1]);
                proof {
                    lemma_join_extend_last(words(pre), seq![' '], c);
                }
                out.push(c);
            } else {
                proof {
                    if i > 0 {
                        assert(cur[cur.len() - 2] == cs@[i - 1]);
                    }
                    lemma_join_push(words(pre), seq![' '], seq![c]);
                }
                if out.len() > 0 {
                    out.push(' ');
                }
                out.push(c);
                assert(out@ =~= collapse(cur));
            }
        }
        i = i + 1;
    }
    assert(cs@.take(n as int) =~= cs@);
    out
}

/// Remove leading and trailing whitespace.
pub fn trim_chars(cs: &Vec<char>) -> (out: Vec<char>)
    ensures
        out@ == trim(cs@),
{
    let n = cs.len();
    let mut a: usize = 0;
    assert(cs@.skip(0) =~= cs@);
    while a < n && is_space_char(cs[a])
        invariant
            n == cs@.len(),
            a <= n,
            trim_start(cs@) == trim_start(cs@.skip(a as int)),
        decreases n - a,
    {
        proof {
            lemma_trim_start_skip(cs@, a as int);
        }
        a = a + 1;
    }
    assert(trim_start(cs@) == cs@.subrange(a as int, n as int)) by {
        assert(cs@.skip(a as int) =~= cs@.subrange(a as int, n as int));
    }
    let mut b: usize = n;
    while b > a && is_space_char(cs[b - 1])
        invariant
            n == cs@.len(),
            a <= b <= n,
            trim(cs@) == trim_end(cs@.subrange(a as int, b as int)),
        decreases b,
    {
        proof {
            lemma_trim_end_sub(cs@, a as int, b as int);
        }
        b = b - 1;
    }
    let mut out: Vec<char> = Vec::new();
    let mut k: usize = a;
    while k < b
        invariant
            n == cs@.len(),
            a <= k <= b <= n,
            out@ == cs@.subrange(a as int, k as int),
        decreases b - k,
    {
        out.push(cs[k]);
        k = k + 1;
        assert(out@ =~= cs@.subrange(a as int, k as int));
    }
    out
}

/// `str::trim`: the string without leading and trailing whitespace.
pub fn trim_str(s: &str) -> (out: String)
    ensures
        out@ == trim(s@),
{
    let cs = chars_of(s);
    let t = trim_chars(&cs);
    string_from_chars(t.as_slice())
}

/// The last piece of `cs` split on `d`: everything after the last `d`, or
/// all of `cs` when there is none (`str::rsplit(d).next()`).
pub fn last_piece(cs: &Vec<char>, d: char) -> (out: Vec<char>)
    ensures
        out@ == split_on(cs@, d).last(),
{
    let n = cs.len();
    let mut seg: Vec<char> = Vec::new();
    let mut i: usize = 0;
    while i < n
        invariant
            n == cs@.len(),
            i <= n,
            seg@ == split_on(cs@.take(i as int), d).last(),
        decreases n - i,
    {
        let ghost pre = cs@.take(i as int);
        let ghost cur = cs@.take(i as int + 1);
        assert(cur.drop_last() =~= pre);
        proof {
            lemma_split_on_nonempty(pre, d);
        }
        if cs[i] == d {
            seg = Vec::new();
            assert(seg@ =~= split_on(cur, d).last());
        } else {
            seg.push(cs[i]);
        }
        i = i + 1;
    }
    assert(cs@.take(n as int) =~= cs@);
    seg
}

/// The characters of `cs` from index `start` on.
pub fn skip_chars(cs: &Vec<char>, start: usize) -> (out: Vec<char>)
    requires
        start <= cs@.len(),
    ensures
        out@ == cs@.skip(start as int),
{
    let n = cs.len();
    let mut out: Vec<char> = Vec::new();
    let mut k: usize = start;
    while k < n
        invariant
            n == cs@.len(),
            start <= k <= n,
            out@ == cs@.subrange(start as int, k as int),
        decreases n - k,
    {
        out.push(cs[k]);
        k = k + 1;
        assert(out@ =~= cs@.subrange(start as int, k as int));
    }
    assert(out@ =~= cs@.skip(start as int));
    out
}

/// Whether `pat` occurs in `cs` at index `i`.
pub fn occurs_at_exec(cs: &Vec<char>, pat: &Vec<char>, i: usize) -> (b: bool)
    requires
        i + pat@.len() <= cs@.len(),
    ensures
        b == (cs@.subrange(i as int, i + pat@.len()) == pat@),
{
    let m = pat.len();
    let n = cs.len();
    let mut k: usize = 0;
    while k < m
        invariant
            m == pat@.len(),
            n == cs@.len(),
            i + m <= n,
            k <= m,
            cs@.subrange(i as int, i + k) == pat@.take(k as int),
        decreases m - k,
    {
        if cs[i + k] != pat[k] {
            assert(cs@.subrange(i as int, i + m)[k as int] != pat@[k as int]);
            return false;
        }
        k = k + 1;
        assert(cs@.subrange(i as int, i + k) =~= pat@.take(k as int));
    }
    assert(pat@.take(m as int) =~= pat@);
    true
}

/// The first index where `pat` occurs in `cs`.
pub fn find_chars(cs: &Vec<char>, pat: &Vec<char>) -> (r: Option<usize>)
    ensures
        r matches Some(i) ==> find(cs@, pat@) == Some(i as int) && occurs_at(cs@, pat@, i as int),
        r is None ==> find(cs@, pat@) is None,
{
    let n = cs.len();
    let m = pat.len();
    if m > n {
        return None;
    }
    if m == 0 {
        assert(cs@.subrange(0, 0) =~= pat@);
        return Some(0);
    }
    let mut i: usize = 0;
    while i <= n - m
        invariant
            n == cs@.len(),
            m == pat@.len(),
            1 <= m <= n,
            i <= n - m + 1,
            find(cs@, pat@) == find_from(cs@, pat@, i as int),
        decreases n - i,
    {
        if occurs_at_exec(cs, pat, i) {
            proof {
                lemma_find_from_found(cs@, pat@, i as int, i as int);
            }
            return Some(i);
        }
        i = i + 1;
    }
    None
}

/// `str::to_lowercase`.  Its contract names the full Unicode mapping and
/// states what it does on ASCII text: upper-case letters become lower case,
/// every other character is kept.
#[verifier::external_body]
pub(crate) fn to_lowercase(s: &str) -> (r: String)
    ensures
        r@ == lowercase(s@),
        is_ascii_text(s@) ==> r@ == s@.map_values(|c: char| ascii_lower(c)),
{
    s.to_lowercase()
}

/// Append `cs` to `out`.
pub fn append_chars(out: &mut Vec<char>, cs: &Vec<char>)
    ensures
        final(out)@ == old(out)@ + cs@,
{
    let n = cs.len();
    let mut i: usize = 0;
    while i < n
        invariant
            n == cs@.len(),
            i <= n,
            out@ == old(out)@ + cs@.take(i as int),
        decreases n - i,
    {
        out.push(cs[i]);
        i = i + 1;
        assert(out@ =~= old(out)@ + cs@.take(i as int));
    }
    assert(cs@.take(n as int) =~= cs@);
}

/// The strings of `parts` joined with `sep` between consecutive ones.
pub fn join_strings(parts: &Vec<String>, sep: &Vec<char>) -> (out: Vec<char>)
    ensures
        out@ == join(string_views(parts@), sep@),
{
    let n = parts.len();
    let mut out: Vec<char> = Vec::new();
    let mut i: usize = 0;
    while i < n
        invariant
            n == parts@.len(),
            i <= n,
            out@ == join(string_views(parts@.take(i as int)), sep@),
        decreases n - i,
    {
        let ghost before = string_views(parts@.take(i as int));
        assert(string_views(parts@.take(i as int + 1)) =~= before.push(parts@[i as int]@));
        proof {
            lemma_join_push(before, sep@, parts@[i as int]@);
        }
        if i > 0 {
            append_chars(&mut out, sep);
        }
        let cs = chars_of(parts[i].as_str());
        append_chars(&mut out, &cs);
        i = i + 1;
    }
    assert(parts@.take(n as int) =~= parts@);
    out
}

/// Collapse all runs of whitespace to single spaces and trim.
pub fn collapse_whitespace(s: &str) -> (out: String)
    ensures
        out@ == collapse(s@),
{
    let cs = chars_of(s);
    let out = collapse_chars(&cs);
    string_from_chars(out.as_slice())
}

} // verus!
