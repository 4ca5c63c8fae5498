//! Character-level text handling: whitespace, trimming, words, lines and
//! substring search, each with the mathematical definition that the
//! executable code is proved against.
use vstd::prelude::*;

verus! {

// ---------------------------------------------------------------------
// Specifications
// ---------------------------------------------------------------------

/// Unicode `White_Space`, the definition that `char::is_whitespace`,
/// `str::trim` and `str::split_whitespace` document.
pub open spec fn is_white_space(c: char) -> bool {
    let u = c as u32;
    ||| 0x09 <= u <= 0x0D
    ||| u == 0x20
    ||| u == 0x85
    ||| u == 0xA0
    ||| u == 0x1680
    ||| 0x2000 <= u <= 0x200A
    ||| u == 0x2028
    ||| u == 0x2029
    ||| u == 0x202F
    ||| u == 0x205F
    ||| u == 0x3000
}

/// `s` with its leading whitespace removed.
pub open spec fn trim_start(s: Seq<char>) -> Seq<char>
    decreases s.len(),
{
    if s.len() > 0 && is_white_space(s[0]) {
        trim_start(s.drop_first())
    } else {
        s
    }
}

/// `s` with its trailing whitespace removed.
pub open spec fn trim_end(s: Seq<char>) -> Seq<char>
    decreases s.len(),
{
    if s.len() > 0 && is_white_space(s.last()) {
        trim_end(s.drop_last())
    } else {
        s
    }
}

/// `s` with leading and trailing whitespace removed (`str::trim`).
pub open spec fn trim(s: Seq<char>) -> Seq<char> {
    trim_end(trim_start(s))
}

/// Length of the run of non-whitespace characters that starts `s`.
pub open spec fn token_len(s: Seq<char>) -> nat
    decreases s.len(),
{
    if s.len() == 0 || is_white_space(s[0]) {
        0
    } else {
        1 + token_len(s.drop_first())
    }
}

/// The whitespace-separated words of `s` (`str::split_whitespace`).
pub open spec fn words(s: Seq<char>) -> Seq<Seq<char>>
    decreases s.len(),
{
    if s.len() == 0 {
        Seq::empty()
    } else if is_white_space(s[0]) {
        words(s.drop_first())
    } else {
        let k = token_len(s);
        proof {
            lemma_token_len_bounds(s);
        }
        seq![s.subrange(0, k as int)] + words(s.subrange(k as int, s.len() as int))
    }
}

/// Index of the first `'\n'` in `s`, or its length when there is none.
pub open spec fn newline_pos(s: Seq<char>) -> nat
    decreases s.len(),
{
    if s.len() == 0 || s[0] == '\n' {
        0
    } else {
        1 + newline_pos(s.drop_first())
    }
}

/// A line that ended in `'\n'`, without a `'\r'` that closed it.
pub open spec fn strip_cr(s: Seq<char>) -> Seq<char> {
    if s.len() > 0 && s.last() == '\r' {
        s.drop_last()
    } else {
        s
    }
}

/// The lines of `s` (`str::lines`): split at `'\n'` or `"\r\n"`; the final
/// line ending is optional and a text that ends in one yields no empty last
/// line.
pub open spec fn lines(s: Seq<char>) -> Seq<Seq<char>>
    decreases s.len(),
{
    if s.len() == 0 {
        Seq::empty()
    } else {
        let k = newline_pos(s);
        proof {
            lemma_newline_pos_bounds(s);
        }
        if k == s.len() {
            seq![s]
        } else {
            seq![strip_cr(s.subrange(0, k as int))] + lines(s.subrange((k + 1) as int, s.len() as int))
        }
    }
}

/// `p` is a prefix of `s`.
pub open spec fn starts_with<A>(s: Seq<A>, p: Seq<A>) -> bool {
    p.len() <= s.len() && s.subrange(0, p.len() as int) == p
}

/// `p` occurs in `s` at position `i`.
pub open spec fn occurs_at<A>(s: Seq<A>, p: Seq<A>, i: int) -> bool {
    0 <= i && i + p.len() <= s.len() && s.subrange(i, i + p.len()) == p
}

/// `p` occurs somewhere in `s`.
pub open spec fn contains<A>(s: Seq<A>, p: Seq<A>) -> bool {
    exists|i: int| occurs_at(s, p, i)
}

/// Index of the first occurrence of `c` in `s`, if any (`str::find` with a
/// character, counted in characters).
pub open spec fn find_char(s: Seq<char>, c: char) -> Option<int>
    decreases s.len(),
{
    if s.len() == 0 {
        None
    } else if s[0] == c {
        Some(0)
    } else {
        match find_char(s.drop_first(), c) {
            Some(i) => Some(i + 1),
            None => None,
        }
    }
}

/// Number of bytes that `c` takes in UTF-8.
pub open spec fn utf8_width(c: char) -> nat {
    let u = c as u32;
    if u < 0x80 {
        1
    } else if u < 0x800 {
        2
    } else if u < 0x10000 {
        3
    } else {
        4
    }
}

/// Number of bytes of a text in its UTF-8 encoding.
pub open spec fn byte_len(s: Seq<char>) -> nat {
    vstd::utf8::encode_utf8(s).len()
}

/// Number of bytes that `s` takes in UTF-8 (`str::len`).
pub open spec fn utf8_len(s: Seq<char>) -> nat
    decreases s.len(),
{
    if s.len() == 0 {
        0
    } else {
        utf8_width(s[0]) + utf8_len(s.drop_first())
    }
}

// ---------------------------------------------------------------------
// Lemmas
// ---------------------------------------------------------------------

pub proof fn lemma_token_len_bounds(s: Seq<char>)
    ensures
        token_len(s) <= s.len(),
        s.len() > 0 && !is_white_space(s[0]) ==> token_len(s) >= 1,
    decreases s.len(),
{
    if s.len() > 0 && !is_white_space(s[0]) {
        lemma_token_len_bounds(s.drop_first());
    }
}

pub proof fn lemma_newline_pos_bounds(s: Seq<char>)
    ensures
        newline_pos(s) <= s.len(),
        newline_pos(s) < s.len() ==> s[newline_pos(s) as int] == '\n',
        forall|i: int| 0 <= i < newline_pos(s) ==> s[i] != '\n',
    decreases s.len(),
{
    if s.len() > 0 && s[0] != '\n' {
        lemma_newline_pos_bounds(s.drop_first());
        assert forall|i: int| 0 <= i < newline_pos(s) implies s[i] != '\n' by {
            if i > 0 {
                assert(s[i] == s.drop_first()[i - 1]);
            }
        }
    }
}

/// A run that is exactly `k` non-whitespace characters long has `token_len` `k`.
pub proof fn lemma_token_len_exact(s: Seq<char>, k: int)
    requires
        0 <= k <= s.len(),
        forall|i: int| 0 <= i < k ==> !is_white_space(#[trigger] s[i]),
        k < s.len() ==> is_white_space(s[k]),
    ensures
        token_len(s) == k,
    decreases k,
{
    if k > 0 {
        let t = s.drop_first();
        assert forall|i: int| 0 <= i < k - 1 implies !is_white_space(#[trigger] t[i]) by {
            assert(t[i] == s[i + 1]);
        }
        if k < s.len() {
            assert(t[k - 1] == s[k]);
        }
        lemma_token_len_exact(t, k - 1);
    }
}

/// The position of the first newline is exactly `k` when the first `k`
/// characters are not newlines and the next one is (or there is none).
pub proof fn lemma_newline_pos_exact(s: Seq<char>, k: int)
    requires
        0 <= k <= s.len(),
        forall|i: int| 0 <= i < k ==> #[trigger] s[i] != '\n',
        k < s.len() ==> s[k] == '\n',
    ensures
        newline_pos(s) == k,
    decreases k,
{
    if k > 0 {
        let t = s.drop_first();
        assert forall|i: int| 0 <= i < k - 1 implies #[trigger] t[i] != '\n' by {
            assert(t[i] == s[i + 1]);
        }
        if k < s.len() {
            assert(t[k - 1] == s[k]);
        }
        lemma_newline_pos_exact(t, k - 1);
    }
}

pub proof fn lemma_find_char_none(s: Seq<char>, c: char)
    requires
        forall|i: int| 0 <= i < s.len() ==> #[trigger] s[i] != c,
    ensures
        find_char(s, c) == None::<int>,
    decreases s.len(),
{
    if s.len() > 0 {
        let t = s.drop_first();
        assert forall|i: int| 0 <= i < t.len() implies #[trigger] t[i] != c by {
            assert(t[i] == s[i + 1]);
        }
        lemma_find_char_none(t, c);
    }
}

pub proof fn lemma_find_char_some(s: Seq<char>, c: char, k: int)
    requires
        0 <= k < s.len(),
        s[k] == c,
        forall|i: int| 0 <= i < k ==> #[trigger] s[i] != c,
    ensures
        find_char(s, c) == Some(k),
    decreases k,
{
    if k > 0 {
        let t = s.drop_first();
        assert forall|i: int| 0 <= i < k - 1 implies #[trigger] t[i] != c by {
            assert(t[i] == s[i + 1]);
        }
        assert(t[k - 1] == s[k]);
        lemma_find_char_some(t, c, k - 1);
    }
}

pub proof fn lemma_utf8_len_append(s: Seq<char>, c: char)
    ensures
        utf8_len(s.push(c)) == utf8_len(s) + utf8_width(c),
    decreases s.len(),
{
    if s.len() == 0 {
        assert(s.push(c).drop_first() =~= s);
    } else {
        assert(s.push(c).drop_first() =~= s.drop_first().push(c));
        lemma_utf8_len_append(s.drop_first(), c);
    }
}

pub proof fn lemma_utf8_len_prefix_mono(s: Seq<char>, i: int)
    requires
        0 <= i <= s.len(),
    ensures
        utf8_len(s.subrange(0, i)) <= utf8_len(s),
    decreases s.len() - i,
{
    if i < s.len() {
        assert(s.subrange(0, i + 1) =~= s.subrange(0, i).push(s[i]));
        lemma_utf8_len_append(s.subrange(0, i), s[i]);
        lemma_utf8_len_prefix_mono(s, i + 1);
    } else {
        assert(s.subrange(0, i) =~= s);
    }
}

pub proof fn lemma_trim_end_len(s: Seq<char>)
    ensures
        trim_end(s).len() <= s.len(),
        trim_end(s) == s.subrange(0, trim_end(s).len() as int),
    decreases s.len(),
{
    if s.len() > 0 && is_white_space(s.last()) {
        lemma_trim_end_len(s.drop_last());
        assert(s.drop_last().subrange(0, trim_end(s).len() as int) =~= s.subrange(
            0,
            trim_end(s).len() as int,
        ));
    } else {
        assert(s.subrange(0, s.len() as int) =~= s);
    }
}

pub proof fn lemma_trim_start_suffix(s: Seq<char>)
    ensures
        trim_start(s).len() <= s.len(),
        trim_start(s) == s.subrange(s.len() - trim_start(s).len(), s.len() as int),
    decreases s.len(),
{
    if s.len() > 0 && is_white_space(s[0]) {
        lemma_trim_start_suffix(s.drop_first());
        let n = trim_start(s).len();
        assert(s.drop_first().subrange(s.len() - 1 - n, s.len() - 1) =~= s.subrange(
            s.len() - n,
            s.len() as int,
        ));
    } else {
        assert(s.subrange(0, s.len() as int) =~= s);
    }
}

/// A trimmed text neither starts nor ends with whitespace.
pub proof fn lemma_trim_edges(s: Seq<char>)
    ensures
        trim(s).len() > 0 ==> !is_white_space(trim(s)[0]) && !is_white_space(trim(s).last()),
    decreases s.len(),
{
    lemma_trim_start_edge(s);
    let t = trim_start(s);
    lemma_trim_end_edge(t);
    lemma_trim_end_len(t);
    if trim(s).len() > 0 {
        assert(trim(s)[0] == t[0]);
    }
}

pub proof fn lemma_trim_start_edge(s: Seq<char>)
    ensures
        trim_start(s).len() > 0 ==> !is_white_space(trim_start(s)[0]),
    decreases s.len(),
{
    if s.len() > 0 && is_white_space(s[0]) {
        lemma_trim_start_edge(s.drop_first());
    }
}

pub proof fn lemma_trim_end_edge(s: Seq<char>)
    ensures
        trim_end(s).len() > 0 ==> !is_white_space(trim_end(s).last()),
    decreases s.len(),
{
    if s.len() > 0 && is_white_space(s.last()) {
        lemma_trim_end_edge(s.drop_last());
    }
}

// ---------------------------------------------------------------------
// Executable functions
// ---------------------------------------------------------------------

/// The characters of `s`.
pub fn chars_of(s: &str) -> (r: Vec<char>)
    ensures
        r@ == s@,
{
    let mut r: Vec<char> = Vec::new();
    for c in it: s.chars()
        invariant
            r@ == it.seq().take(it.index() as int),
    {
        r.push(c);
    }
    r
}

/// Appends `c` to `s` (`String::push`).
#[verifier::external_body]
pub(crate) fn string_push(s: &mut String, c: char)
    ensures
        final(s)@ == old(s)@.push(c),
{
    s.push(c);
}

/// A string holding the characters `v[lo..hi]`.
pub fn string_of(v: &[char], lo: usize, hi: usize) -> (r: String)
    requires
        lo <= hi <= v@.len(),
    ensures
        r@ == v@.subrange(lo as int, hi as int),
{
    let mut r = String::new();
    let mut i = lo;
    while i < hi
        invariant
            lo <= i <= hi <= v@.len(),
            r@ == v@.subrange(lo as int, i as int),
        decreases hi - i,
    {
        string_push(&mut r, v[i]);
        assert(v@.subrange(lo as int, i + 1) =~= v@.subrange(lo as int, i as int).push(v@[i as int]));
        i = i + 1;
    }
    r
}

/// `char::is_whitespace`.
pub fn is_white_space_char(c: char) -> (r: bool)
    ensures
        r == is_white_space(c),
{
    let u = c as u32;
    (0x09 <= u && u <= 0x0D) || u == 0x20 || u == 0x85 || u == 0xA0 || u == 0x1680 || (0x2000 <= u
        && u <= 0x200A) || u == 0x2028 || u == 0x2029 || u == 0x202F || u == 0x205F || u == 0x3000
}

/// Bounds of the trimmed part of `v[lo..hi]`.
pub fn trim_range(v: &[char], lo: usize, hi: usize) -> (r: (usize, usize))
    requires
        lo <= hi <= v@.len(),
    ensures
        lo <= r.0 <= r.1 <= hi,
        v@.subrange(r.0 as int, r.1 as int) == trim(v@.subrange(lo as int, hi as int)),
{
    let mut i = lo;
    while i < hi && is_white_space_char(v[i])
        invariant
            lo <= i <= hi <= v@.len(),
            trim_start(v@.subrange(lo as int, hi as int)) == trim_start(
                v@.subrange(i as int, hi as int),
            ),
        decreases hi - i,
    {
        assert(v@.subrange(i as int, hi as int).drop_first() =~= v@.subrange(i + 1, hi as int));
        i = i + 1;
    }
    assert(trim_start(v@.subrange(i as int, hi as int)) == v@.subrange(i as int, hi as int));
    let mut j = hi;
    while j > i && is_white_space_char(v[j - 1])
        invariant
            lo <= i <= j <= hi <= v@.len(),
            trim_end(v@.subrange(i as int, hi as int)) == trim_end(
                v@.subrange(i as int, j as int),
            ),
        decreases j - i,
    {
        assert(v@.subrange(i as int, j as int).drop_last() =~= v@.subrange(i as int, j - 1));
        j = j - 1;
    }
    (i, j)
}

/// Position just past the run of non-whitespace characters starting at `i`.
fn token_end(v: &[char], i: usize, hi: usize) -> (r: usize)
    requires
        i <= hi <= v@.len(),
    ensures
        i <= r <= hi,
        token_len(v@.subrange(i as int, hi as int)) == r - i,
{
    let mut j = i;
    while j < hi && !is_white_space_char(v[j])
        invariant
            i <= j <= hi <= v@.len(),
            forall|m: int| i <= m < j ==> !is_white_space(#[trigger] v@[m]),
        decreases hi - j,
    {
        j = j + 1;
    }
    let ghost t = v@.subrange(i as int, hi as int);
    assert forall|m: int| 0 <= m < j - i implies !is_white_space(#[trigger] t[m]) by {
        assert(t[m] == v@[i + m]);
    }
    proof {
        lemma_token_len_exact(t, j - i);
    }
    j
}

/// The whitespace-separated words of `v[lo..hi]`, as character ranges.
pub fn word_ranges(v: &[char], lo: usize, hi: usize) -> (r: Vec<(usize, usize)>)
    requires
        lo <= hi <= v@.len(),
    ensures
        r@.len() == words(v@.subrange(lo as int, hi as int)).len(),
        forall|k: int|
            0 <= k < r@.len() ==> {
                &&& lo <= (#[trigger] r@[k]).0 <= r@[k].1 <= hi
                &&& v@.subrange(r@[k].0 as int, r@[k].1 as int) == words(
                    v@.subrange(lo as int, hi as int),
                )[k]
            },
{
    let mut r: Vec<(usize, usize)> = Vec::new();
    let ghost whole = words(v@.subrange(lo as int, hi as int));
    let mut i = lo;
    while i < hi
        invariant
            lo <= i <= hi <= v@.len(),
            whole == words(v@.subrange(lo as int, hi as int)),
            r@.len() + words(v@.subrange(i as int, hi as int)).len() == whole.len(),
            forall|k: int|
                0 <= k < r@.len() ==> {
                    &&& lo <= (#[trigger] r@[k]).0 <= r@[k].1 <= hi
                    &&& v@.subrange(r@[k].0 as int, r@[k].1 as int) == whole[k]
                },
            forall|k: int|
                0 <= k < words(v@.subrange(i as int, hi as int)).len() ==> whole[r@.len() + k]
                    == #[trigger] words(v@.subrange(i as int, hi as int))[k],
        decreases hi - i,
    {
        let ghost cur = v@.subrange(i as int, hi as int);
        if is_white_space_char(v[i]) {
            assert(cur.drop_first() =~= v@.subrange(i + 1, hi as int));
            i = i + 1;
        } else {
            let j = token_end(v, i, hi);
            proof {
                lemma_token_len_bounds(cur);
            }
            assert(cur.subrange(0, (j - i) as int) =~= v@.subrange(i as int, j as int));
            assert(cur.subrange((j - i) as int, cur.len() as int) =~= v@.subrange(
                j as int,
                hi as int,
            ));
            let ghost rest = words(v@.subrange(j as int, hi as int));
            assert(words(cur) =~= seq![v@.subrange(i as int, j as int)] + rest);
            assert(whole[r@.len() as int] == words(cur)[0]);
            assert forall|k: int| 0 <= k < rest.len() implies whole[r@.len() + 1 + k]
                == #[trigger] rest[k] by {
                assert(words(cur)[k + 1] == rest[k]);
            }
            r.push((i, j));
            i = j;
        }
    }
    assert(v@.subrange(i as int, hi as int).len() == 0);
    r
}

/// The lines of `v`, as character ranges.
pub fn line_ranges(v: &[char]) -> (r: Vec<(usize, usize)>)
    ensures
        r@.len() == lines(v@).len(),
        forall|k: int|
            0 <= k < r@.len() ==> {
                &&& (#[trigger] r@[k]).0 <= r@[k].1 <= v@.len()
                &&& v@.subrange(r@[k].0 as int, r@[k].1 as int) == lines(v@)[k]
            },
{
    let mut r: Vec<(usize, usize)> = Vec::new();
    let ghost whole = lines(v@);
    let n = v.len();
    assert(v@.subrange(0, n as int) =~= v@);
    let mut i: usize = 0;
    while i < n
        invariant
            i <= n == v@.len(),
            whole == lines(v@),
            r@.len() + lines(v@.subrange(i as int, n as int)).len() == whole.len(),
            forall|k: int|
                0 <= k < r@.len() ==> {
                    &&& (#[trigger] r@[k]).0 <= r@[k].1 <= n
                    &&& v@.subrange(r@[k].0 as int, r@[k].1 as int) == whole[k]
                },
            forall|k: int|
                0 <= k < lines(v@.subrange(i as int, n as int)).len() ==> whole[r@.len() + k]
                    == #[trigger] lines(v@.subrange(i as int, n as int))[k],
        decreases n - i,
    {
        let ghost cur = v@.subrange(i as int, n as int);
        let mut j = i;
        while j < n && v[j] != '\n'
            invariant
                i <= j <= n == v@.len(),
                forall|m: int| i <= m < j ==> #[trigger] v@[m] != '\n',
            decreases n - j,
        {
            j = j + 1;
        }
        assert forall|m: int| 0 <= m < j - i implies #[trigger] cur[m] != '\n' by {
            assert(cur[m] == v@[i + m]);
        }
        proof {
            lemma_newline_pos_exact(cur, (j - i) as int);
        }
        if j == n {
            assert(cur =~= v@.subrange(i as int, j as int));
            assert(lines(cur) =~= seq![cur]);
            assert(whole[r@.len() as int] == lines(cur)[0]);
            r.push((i, j));
            i = n;
            assert(v@.subrange(i as int, n as int).len() == 0);
            assert(lines(v@.subrange(i as int, n as int)).len() == 0);
        } else {
            let mut e = j;
            if e > i && v[e - 1] == '\r' {
                e = e - 1;
            }
            assert(cur.subrange(0, (j - i) as int) =~= v@.subrange(i as int, j as int));
            assert(strip_cr(v@.subrange(i as int, j as int)) =~= v@.subrange(i as int, e as int));
            assert(cur.subrange((j - i) + 1, cur.len() as int) =~= v@.subrange(
                j + 1,
                n as int,
            ));
            let ghost rest = lines(v@.subrange(j + 1, n as int));
            assert(lines(cur) =~= seq![v@.subrange(i as int, e as int)] + rest);
            assert(whole[r@.len() as int] == lines(cur)[0]);
            assert forall|k: int| 0 <= k < rest.len() implies whole[r@.len() + 1 + k]
                == #[trigger] rest[k] by {
                assert(lines(cur)[k + 1] == rest[k]);
            }
            r.push((i, e));
            i = j + 1;
        }
    }
    assert(v@.subrange(i as int, n as int).len() == 0);
    r
}

/// Whether `p` occurs at position `i` of `v`.
pub fn chars_match_at(v: &[char], p: &[char], i: usize) -> (r: bool)
    ensures
        r == occurs_at(v@, p@, i as int),
{
    if i > v.len() || p.len() > v.len() - i {
        return false;
    }
    let mut k: usize = 0;
    while k < p.len()
        invariant
            i + p@.len() <= v@.len(),
            v@.len() == v.len(),
            k <= p@.len(),
            forall|m: int| 0 <= m < k ==> v@[i + m] == p@[m],
        decreases p@.len() - k,
    {
        if v[i + k] != p[k] {
            assert(v@.subrange(i as int, i + p@.len())[k as int] != p@[k as int]);
            return false;
        }
        k = k + 1;
    }
    assert(v@.subrange(i as int, i + p@.len()) =~= p@);
    true
}

/// Whether `p` occurs anywhere in `v`.
pub fn chars_contain(v: &[char], p: &[char]) -> (r: bool)
    ensures
        r == contains(v@, p@),
{
    let mut i: usize = 0;
    while i < v.len()
        invariant
            i <= v@.len(),
            forall|m: int| 0 <= m < i ==> !occurs_at(v@, p@, m),
        decreases v@.len() - i,
    {
        if chars_match_at(v, p, i) {
            return true;
        }
        i = i + 1;
    }
    if chars_match_at(v, p, i) {
        return true;
    }
    assert forall|m: int| !occurs_at(v@, p@, m) by {
        if m > i {
            assert(!(m + p@.len() <= v@.len()));
        }
    }
    false
}

/// Whether `v` starts with `p`.
pub fn chars_start_with(v: &[char], p: &[char]) -> (r: bool)
    ensures
        r == starts_with(v@, p@),
{
    chars_match_at(v, p, 0)
}

/// Whether `v[lo..hi]` is exactly `p`.
pub fn range_equals(v: &[char], lo: usize, hi: usize, p: &[char]) -> (r: bool)
    requires
        lo <= hi <= v@.len(),
    ensures
        r == (v@.subrange(lo as int, hi as int) == p@),
{
    if hi - lo != p.len() {
        return false;
    }
    let b = chars_match_at(v, p, lo);
    assert(b ==> v@.subrange(lo as int, hi as int) =~= p@);
    b
}

/// Whether `v[lo..hi]` starts with `p`.
pub fn range_starts_with(v: &[char], lo: usize, hi: usize, p: &[char]) -> (r: bool)
    requires
        lo <= hi <= v@.len(),
    ensures
        r == starts_with(v@.subrange(lo as int, hi as int), p@),
{
    if p.len() > hi - lo {
        return false;
    }
    let b = chars_match_at(v, p, lo);
    assert(v@.subrange(lo as int, hi as int).subrange(0, p@.len() as int) =~= v@.subrange(
        lo as int,
        lo + p@.len(),
    ));
    b
}

/// Position of the first `c` in `v[lo..hi]`, counted from `lo`.
pub fn find_char_in(v: &[char], lo: usize, hi: usize, c: char) -> (r: Option<usize>)
    requires
        lo <= hi <= v@.len(),
    ensures
        match r {
            Some(i) => find_char(v@.subrange(lo as int, hi as int), c) == Some(i as int) && lo
                + i < hi,
            None => find_char(v@.subrange(lo as int, hi as int), c) == None::<int>,
        },
{
    let ghost t = v@.subrange(lo as int, hi as int);
    let mut i = lo;
    while i < hi
        invariant
            lo <= i <= hi <= v@.len(),
            t == v@.subrange(lo as int, hi as int),
            forall|m: int| 0 <= m < i - lo ==> #[trigger] t[m] != c,
        decreases hi - i,
    {
        if v[i] == c {
            assert(t[i - lo] == c);
            proof {
                lemma_find_char_some(t, c, i - lo);
            }
            return Some(i - lo);
        }
        assert(t[i - lo] == v@[i as int]);
        i = i + 1;
    }
    proof {
        lemma_find_char_none(t, c);
    }
    None
}

/// Whether `v[lo..hi]` takes fewer than `n` bytes in UTF-8.
pub fn utf8_len_below(v: &[char], lo: usize, hi: usize, n: usize) -> (r: bool)
    requires
        lo <= hi <= v@.len(),
    ensures
        r == (utf8_len(v@.subrange(lo as int, hi as int)) < n),
{
    let ghost t = v@.subrange(lo as int, hi as int);
    if n == 0 {
        return false;
    }
    let mut total: usize = 0;
    let mut i = lo;
    while i < hi
        invariant
            lo <= i <= hi <= v@.len(),
            t == v@.subrange(lo as int, hi as int),
            total == utf8_len(t.subrange(0, i - lo)),
            total < n,
        decreases hi - i,
    {
        let c = v[i];
        let u = c as u32;
        let w: usize = if u < 0x80 {
            1
        } else if u < 0x800 {
            2
        } else if u < 0x10000 {
            3
        } else {
            4
        };
        proof {
            assert(t.subrange(0, i + 1 - lo) =~= t.subrange(0, i - lo).push(c));
            lemma_utf8_len_append(t.subrange(0, i - lo), c);
        }
        if w >= n - total {
            proof {
                lemma_utf8_len_prefix_mono(t, i + 1 - lo);
            }
            return false;
        }
        total = total + w;
        i = i + 1;
    }
    assert(t.subrange(0, i - lo) =~= t);
    true
}

/// Appends the characters `p` to `v`.
pub fn push_chars(v: &mut Vec<char>, p: &[char])
    ensures
        final(v)@ == old(v)@ + p@,
{
    let mut i: usize = 0;
    while i < p.len()
        invariant
            i <= p@.len(),
            v@ == old(v)@ + p@.subrange(0, i as int),
        decreases p@.len() - i,
    {
        v.push(p[i]);
        assert(p@.subrange(0, i + 1) =~= p@.subrange(0, i as int).push(p@[i as int]));
        i = i + 1;
    }
    assert(p@.subrange(0, i as int) =~= p@);
}

/// The decimal digit `d`.
pub open spec fn digit_char(d: nat) -> char {
    (d + 48) as char
}

/// The decimal representation of `n`, without leading zeros (as `{}`
/// formats an unsigned integer).
pub open spec fn decimal(n: nat) -> Seq<char>
    decreases n,
{
    if n < 10 {
        seq![digit_char(n)]
    } else {
        decimal(n / 10).push(digit_char(n % 10))
    }
}

fn digit(d: u64) -> (r: char)
    requires
        d < 10,
    ensures
        r == digit_char(d as nat),
{
    if d == 0 {
        '0'
    } else if d == 1 {
        '1'
    } else if d == 2 {
        '2'
    } else if d == 3 {
        '3'
    } else if d == 4 {
        '4'
    } else if d == 5 {
        '5'
    } else if d == 6 {
        '6'
    } else if d == 7 {
        '7'
    } else if d == 8 {
        '8'
    } else {
        '9'
    }
}

/// Appends the decimal representation of `n`.
pub fn push_decimal(v: &mut Vec<char>, n: u64)
    ensures
        final(v)@ == old(v)@ + decimal(n as nat),
    decreases n,
{
    if n >= 10 {
        push_decimal(v, n / 10);
        v.push(digit(n % 10));
        assert(decimal(n as nat) == decimal((n / 10) as nat).push(digit_char((n % 10) as nat)));
        assert(v@ =~= old(v)@ + decimal(n as nat));
    } else {
        v.push(digit(n));
        assert(decimal(n as nat) =~= seq![digit_char(n as nat)]);
        assert(v@ =~= old(v)@ + decimal(n as nat));
    }
}

/// Appends the characters of `s`.
pub fn push_str(v: &mut Vec<char>, s: &str)
    ensures
        final(v)@ == old(v)@ + s@,
{
    let c = chars_of(s);
    push_chars(v, &c);
}

/// The string of all characters of `v`.
pub fn string_of_all(v: &[char]) -> (r: String)
    ensures
        r@ == v@,
{
    assert(v@.subrange(0, v@.len() as int) =~= v@);
    string_of(v, 0, v.len())
}

} // verus!
