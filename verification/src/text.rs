//! Character-level helpers over `&str`, each stated over the string's
//! sequence of chars.

use vstd::prelude::*;

verus! {

/// The Unicode `White_Space` characters: the set that `char::is_whitespace`
/// and `str::trim` recognise.
pub open spec fn is_ws(c: char) -> bool {
    ||| c == '\t'
    ||| c == '\n'
    ||| c == '\u{0B}'
    ||| c == '\u{0C}'
    ||| c == '\r'
    ||| c == ' '
    ||| c == '\u{85}'
    ||| c == '\u{A0}'
    ||| c == '\u{1680}'
    ||| ('\u{2000}' <= c && c <= '\u{200A}')
    ||| c == '\u{2028}'
    ||| c == '\u{2029}'
    ||| c == '\u{202F}'
    ||| c == '\u{205F}'
    ||| c == '\u{3000}'
}

pub open spec fn trim_start(s: Seq<char>) -> Seq<char>
    decreases s.len(),
{
    if s.len() > 0 && is_ws(s[0]) {
        trim_start(s.drop_first())
    } else {
        s
    }
}

pub open spec fn trim_end(s: Seq<char>) -> Seq<char>
    decreases s.len(),
{
    if s.len() > 0 && is_ws(s.last()) {
        trim_end(s.drop_last())
    } else {
        s
    }
}

/// What `str::trim` gives: leading and trailing whitespace removed.
pub open spec fn trim(s: Seq<char>) -> Seq<char> {
    trim_end(trim_start(s))
}

/// What `str::trim_end_matches(c)` gives for a single char `c`.
pub open spec fn trim_end_char(s: Seq<char>, c: char) -> Seq<char>
    decreases s.len(),
{
    if s.len() > 0 && s.last() == c {
        trim_end_char(s.drop_last(), c)
    } else {
        s
    }
}

/// The pieces that `str::split(d)` yields for a single char `d`.
pub open spec fn split_on(s: Seq<char>, d: char) -> Seq<Seq<char>>
    decreases s.len(),
{
    if s.len() == 0 {
        seq![Seq::<char>::empty()]
    } else {
        let r = split_on(s.drop_last(), d);
        if s.last() == d {
            r.push(Seq::<char>::empty())
        } else {
            r.update(r.len() - 1, r.last().push(s.last()))
        }
    }
}

/// The number of occurrences of `c` in `s`.
pub open spec fn count_char(s: Seq<char>, c: char) -> nat
    decreases s.len(),
{
    if s.len() == 0 {
        0
    } else {
        count_char(s.drop_last(), c) + if s.last() == c { 1nat } else { 0nat }
    }
}

/// `pat` occurs in `s` at position `i`.
pub open spec fn occurs_at(s: Seq<char>, pat: Seq<char>, i: int) -> bool {
    0 <= i && i + pat.len() <= s.len() && s.subrange(i, i + pat.len()) == pat
}

/// The first position at or after `i` at which `pat` occurs in `s`.
pub open spec fn first_occurrence_from(s: Seq<char>, pat: Seq<char>, i: int) -> Option<int>
    decreases s.len() + 1 - i,
{
    if i < 0 || i + pat.len() > s.len() {
        None
    } else if occurs_at(s, pat, i) {
        Some(i)
    } else {
        first_occurrence_from(s, pat, i + 1)
    }
}

/// The first position at which `pat` occurs in `s` (what `str::find` gives).
pub open spec fn first_occurrence(s: Seq<char>, pat: Seq<char>) -> Option<int> {
    first_occurrence_from(s, pat, 0)
}

pub proof fn lemma_first_occurrence_from(s: Seq<char>, pat: Seq<char>, i: int)
    requires
        0 <= i,
    ensures
        first_occurrence_from(s, pat, i) matches Some(k) ==> i <= k && occurs_at(s, pat, k)
            && forall|j: int| i <= j < k ==> !occurs_at(s, pat, j),
        first_occurrence_from(s, pat, i) is None ==> forall|j: int| i <= j ==> !occurs_at(s, pat, j),
    decreases s.len() + 1 - i,
{
    if i + pat.len() <= s.len() && !occurs_at(s, pat, i) {
        lemma_first_occurrence_from(s, pat, i + 1);
    }
}

/// The pieces that `str::split(delim)` yields for a non-empty string delimiter:
/// matches are found left to right without overlap.
pub open spec fn split_str(s: Seq<char>, delim: Seq<char>) -> Seq<Seq<char>>
    recommends
        delim.len() > 0,
    decreases s.len(),
{
    if delim.len() > 0 && first_occurrence(s, delim) is Some {
        let i = first_occurrence(s, delim)->0;
        proof {
            lemma_first_occurrence_from(s, delim, 0);
        }
        seq![s.take(i)] + split_str(s.skip(i + delim.len()), delim)
    } else {
        seq![s]
    }
}

/// The join of `parts` with separator `sep` (what `[String]::join` gives).
pub open spec fn join(parts: Seq<Seq<char>>, sep: Seq<char>) -> Seq<char>
    decreases parts.len(),
{
    if parts.len() == 0 {
        Seq::empty()
    } else if parts.len() == 1 {
        parts[0]
    } else {
        join(parts.drop_last(), sep) + sep + parts.last()
    }
}

/// The decimal digits of `n` (what `to_string` gives for an unsigned integer).
pub open spec fn decimal(n: nat) -> Seq<char>
    decreases n,
{
    if n < 10 {
        seq![digit_char(n)]
    } else {
        decimal(n / 10).push(digit_char(n % 10))
    }
}

pub open spec fn digit_char(d: nat) -> char {
    ((d + 48) as u32) as char
}

pub open spec fn is_digit(c: char) -> bool {
    '0' <= c && c <= '9'
}

/// The value of a string of decimal digits.
pub open spec fn digits_value(s: Seq<char>) -> nat
    decreases s.len(),
{
    if s.len() == 0 {
        0
    } else {
        digits_value(s.drop_last()) * 10 + ((s.last() as u32) - 48) as nat
    }
}

/// Strict order of strings: what `<` on `str` gives. Rust compares the UTF-8
/// bytes, and UTF-8 preserves the order of code points, so this is the
/// lexicographic order of the chars.
pub open spec fn str_lt(a: Seq<char>, b: Seq<char>) -> bool
    decreases a.len(),
{
    if a.len() == 0 {
        b.len() > 0
    } else if b.len() == 0 {
        false
    } else if a[0] != b[0] {
        a[0] < b[0]
    } else {
        str_lt(a.drop_first(), b.drop_first())
    }
}

/// `s` is sorted in strictly increasing order (so it also has no duplicates).
pub open spec fn strictly_sorted(s: Seq<Seq<char>>) -> bool {
    forall|i: int, j: int| 0 <= i < j < s.len() ==> str_lt(#[trigger] s[i], #[trigger] s[j])
}

pub proof fn lemma_str_lt_irreflexive(a: Seq<char>)
    ensures
        !str_lt(a, a),
    decreases a.len(),
{
    if a.len() > 0 {
        assert(a.drop_first() == a.drop_first());
        lemma_str_lt_irreflexive(a.drop_first());
    }
}

pub proof fn lemma_str_lt_trichotomy(a: Seq<char>, b: Seq<char>)
    ensures
        str_lt(a, b) || str_lt(b, a) || a == b,
        !(str_lt(a, b) && str_lt(b, a)),
    decreases a.len(),
{
    if a.len() > 0 && b.len() > 0 {
        if a[0] == b[0] {
            lemma_str_lt_trichotomy(a.drop_first(), b.drop_first());
            if a.drop_first() == b.drop_first() {
                assert(a =~= seq![a[0]] + a.drop_first());
                assert(b =~= seq![b[0]] + b.drop_first());
            }
        }
    } else if a.len() == 0 && b.len() == 0 {
        assert(a =~= b);
    }
}

pub proof fn lemma_str_lt_transitive(a: Seq<char>, b: Seq<char>, c: Seq<char>)
    requires
        str_lt(a, b),
        str_lt(b, c),
    ensures
        str_lt(a, c),
    decreases a.len(),
{
    if a.len() > 0 && b.len() > 0 && c.len() > 0 {
        if a[0] == b[0] && b[0] == c[0] {
            lemma_str_lt_transitive(a.drop_first(), b.drop_first(), c.drop_first());
        }
    }
}

/// Appends one char.
///
/// Calls `String::push`; the contract claims that the string's chars after
/// the call are those before it with `c` added at the end.
#[verifier::external_body]
pub(crate) fn push_char(s: &mut String, c: char)
    ensures
        final(s)@ == old(s)@.push(c),
{
    s.push(c);
}

/// An owned copy of `s`.
pub fn owned(s: &str) -> (r: String)
    ensures
        r@ == s@,
{
    String::from_str(s)
}

/// Appends `t` to `s`.
pub fn append(s: &mut String, t: &str)
    ensures
        final(s)@ == old(s)@ + t@,
{
    s.append(t);
}

/// `a == b` on strings.
pub fn str_eq(a: &str, b: &str) -> (r: bool)
    ensures
        r == (a@ == b@),
{
    let n = a.unicode_len();
    let m = b.unicode_len();
    if n != m {
        return false;
    }
    let mut i: usize = 0;
    while i < n
        invariant
            n == a@.len(),
            m == b@.len(),
            n == m,
            i <= n,
            forall|j: int| 0 <= j < i ==> a@[j] == b@[j],
        decreases n - i,
    {
        if a.get_char(i) != b.get_char(i) {
            return false;
        }
        i += 1;
    }
    assert(a@ =~= b@);
    true
}

/// `s.contains(c)` for a char `c`.
pub fn contains_char(s: &str, c: char) -> (r: bool)
    ensures
        r == s@.contains(c),
{
    let n = s.unicode_len();
    let mut i: usize = 0;
    while i < n
        invariant
            n == s@.len(),
            i <= n,
            forall|j: int| 0 <= j < i ==> s@[j] != c,
        decreases n - i,
    {
        if s.get_char(i) == c {
            assert(s@[i as int] == c);
            return true;
        }
        i += 1;
    }
    false
}

pub proof fn lemma_count_char_prefix(s: Seq<char>, c: char, i: int)
    requires
        0 <= i < s.len(),
    ensures
        count_char(s.take(i + 1), c) == count_char(s.take(i), c) + if s[i] == c { 1nat } else { 0nat },
{
    assert(s.take(i + 1).drop_last() =~= s.take(i));
}

pub proof fn lemma_count_char_concat(a: Seq<char>, b: Seq<char>, c: char)
    ensures
        count_char(a + b, c) == count_char(a, c) + count_char(b, c),
    decreases b.len(),
{
    if b.len() == 0 {
        assert(a + b =~= a);
    } else {
        assert((a + b).drop_last() =~= a + b.drop_last());
        lemma_count_char_concat(a, b.drop_last(), c);
    }
}

pub proof fn lemma_count_char_absent(s: Seq<char>, c: char)
    requires
        forall|j: int| 0 <= j < s.len() ==> s[j] != c,
    ensures
        count_char(s, c) == 0,
    decreases s.len(),
{
    if s.len() > 0 {
        lemma_count_char_absent(s.drop_last(), c);
    }
}

pub proof fn lemma_count_char_contains(s: Seq<char>, c: char)
    requires
        count_char(s, c) > 0,
    ensures
        s.contains(c),
{
    if !s.contains(c) {
        lemma_count_char_absent(s, c);
    }
}

/// The number of times `c` occurs in `s`.
pub fn count_chars(s: &str, c: char) -> (r: usize)
    ensures
        r == count_char(s@, c),
{
    let n = s.unicode_len();
    let mut i: usize = 0;
    let mut k: usize = 0;
    while i < n
        invariant
            n == s@.len(),
            i <= n,
            k == count_char(s@.take(i as int), c),
            k <= i,
        decreases n - i,
    {
        proof {
            lemma_count_char_prefix(s@, c, i as int);
        }
        if s.get_char(i) == c {
            k += 1;
        }
        i += 1;
    }
    assert(s@.take(n as int) =~= s@);
    k
}

/// `pat` occurs in `s` at char position `i`.
pub fn matches_at(s: &str, pat: &str, i: usize) -> (r: bool)
    requires
        i <= s@.len(),
    ensures
        r == occurs_at(s@, pat@, i as int),
{
    let n = s.unicode_len();
    let m = pat.unicode_len();
    if m > n - i {
        return false;
    }
    let mut j: usize = 0;
    while j < m
        invariant
            n == s@.len(),
            m == pat@.len(),
            i + m <= n,
            j <= m,
            forall|k: int| 0 <= k < j ==> s@[i + k] == pat@[k],
        decreases m - j,
    {
        if s.get_char(i + j) != pat.get_char(j) {
            assert(s@.subrange(i as int, i + m)[j as int] != pat@[j as int]);
            return false;
        }
        j += 1;
    }
    assert(s@.subrange(i as int, i + m) =~= pat@);
    true
}

/// The char position of the first occurrence of `pat` in `s` (`str::find`).
pub fn find_str(s: &str, pat: &str) -> (r: Option<usize>)
    ensures
        r matches Some(i) ==> first_occurrence(s@, pat@) == Some(i as int),
        r is None ==> first_occurrence(s@, pat@) is None,
{
    let n = s.unicode_len();
    let mut i: usize = 0;
    loop
        invariant
            n == s@.len(),
            i <= n,
            first_occurrence(s@, pat@) == first_occurrence_from(s@, pat@, i as int),
        decreases n - i,
    {
        if matches_at(s, pat, i) {
            return Some(i);
        }
        if i == n {
            proof {
                assert(first_occurrence_from(s@, pat@, (i + 1) as int) is None);
            }
            return None;
        }
        i += 1;
    }
}

pub proof fn lemma_first_char_occurrence(s: Seq<char>, c: char, i: int)
    requires
        0 <= i < s.len(),
        s[i] == c,
        forall|j: int| 0 <= j < i ==> s[j] != c,
    ensures
        first_occurrence(s, seq![c]) == Some(i),
{
    lemma_first_occurrence_from(s, seq![c], 0);
    assert(occurs_at(s, seq![c], i)) by {
        assert(s.subrange(i, i + 1) =~= seq![c]);
    }
    assert forall|j: int| 0 <= j < i implies !occurs_at(s, seq![c], j) by {
        if occurs_at(s, seq![c], j) {
            assert(s.subrange(j, j + 1)[0] == s[j]);
        }
    }
    match first_occurrence(s, seq![c]) {
        Some(k) => {
            if k > i {
                assert(!occurs_at(s, seq![c], i));
            }
            if k < i {
                assert(s.subrange(k, k + 1)[0] == s[k]);
            }
        },
        None => {
            assert(!occurs_at(s, seq![c], i));
        },
    }
}

pub proof fn lemma_no_char_occurrence(s: Seq<char>, c: char)
    requires
        !s.contains(c),
    ensures
        first_occurrence(s, seq![c]) is None,
{
    lemma_first_occurrence_from(s, seq![c], 0);
    if let Some(k) = first_occurrence(s, seq![c]) {
        assert(s.subrange(k, k + 1)[0] == s[k]);
        assert(s.contains(s[k]));
    }
}

/// The first index of `c` in `s` (`str::find` with a char).
pub fn find_char(s: &str, c: char) -> (r: Option<usize>)
    ensures
        r matches Some(i) ==> i < s@.len() && s@[i as int] == c && forall|j: int| 0 <= j < i ==> s@[j] != c,
        r is None ==> !s@.contains(c),
        r matches Some(i) ==> first_occurrence(s@, seq![c]) == Some(i as int),
        r is None ==> first_occurrence(s@, seq![c]) is None,
{
    let n = s.unicode_len();
    let mut i: usize = 0;
    while i < n
        invariant
            n == s@.len(),
            i <= n,
            forall|j: int| 0 <= j < i ==> s@[j] != c,
        decreases n - i,
    {
        if s.get_char(i) == c {
            proof {
                lemma_first_char_occurrence(s@, c, i as int);
            }
            return Some(i);
        }
        i += 1;
    }
    proof {
        lemma_no_char_occurrence(s@, c);
    }
    None
}

/// The last index of `c` in `s` (`str::rfind` with a char).
pub fn rfind_char(s: &str, c: char) -> (r: Option<usize>)
    ensures
        r matches Some(i) ==> i < s@.len() && s@[i as int] == c && forall|j: int| i < j < s@.len() ==> s@[j] != c,
        r is None ==> !s@.contains(c),
{
    let n = s.unicode_len();
    let mut i: usize = n;
    while i > 0
        invariant
            n == s@.len(),
            i <= n,
            forall|j: int| i <= j < n ==> s@[j] != c,
        decreases i,
    {
        if s.get_char(i - 1) == c {
            return Some(i - 1);
        }
        i -= 1;
    }
    None
}

/// `s` begins with `p` (`str::starts_with`).
pub fn starts_with(s: &str, p: &str) -> (r: bool)
    ensures
        r == p@.is_prefix_of(s@),
{
    let r = matches_at(s, p, 0);
    proof {
        if r {
            assert(s@.subrange(0, p@.len() as int) == s@.take(p@.len() as int));
        } else if p@.len() <= s@.len() {
            assert(s@.subrange(0, p@.len() as int) == s@.take(p@.len() as int));
        }
    }
    r
}

/// `s` ends with `p` (`str::ends_with`).
pub fn ends_with(s: &str, p: &str) -> (r: bool)
    ensures
        r == p@.is_suffix_of(s@),
{
    let n = s.unicode_len();
    let m = p.unicode_len();
    if m > n {
        return false;
    }
    let r = matches_at(s, p, n - m);
    r
}

pub proof fn lemma_trim_start_skip(s: Seq<char>, a: int)
    requires
        0 <= a <= s.len(),
        forall|j: int| 0 <= j < a ==> is_ws(s[j]),
        a == s.len() || !is_ws(s[a]),
    ensures
        trim_start(s) == s.skip(a),
    decreases a,
{
    if a == 0 {
        assert(s.skip(0) =~= s);
    } else {
        lemma_trim_start_skip(s.drop_first(), a - 1);
        assert(s.drop_first().skip(a - 1) =~= s.skip(a));
    }
}

pub proof fn lemma_trim_end_take(s: Seq<char>, b: int)
    requires
        0 <= b <= s.len(),
        forall|j: int| b <= j < s.len() ==> is_ws(s[j]),
        b == 0 || !is_ws(s[b - 1]),
    ensures
        trim_end(s) == s.take(b),
    decreases s.len() - b,
{
    if b == s.len() {
        assert(s.take(b) =~= s);
    } else {
        lemma_trim_end_take(s.drop_last(), b);
        assert(s.drop_last().take(b) =~= s.take(b));
    }
}

pub proof fn lemma_trim_start_shape(s: Seq<char>)
    ensures
        trim_start(s).len() == 0 || !is_ws(trim_start(s)[0]),
    decreases s.len(),
{
    if s.len() > 0 && is_ws(s[0]) {
        lemma_trim_start_shape(s.drop_first());
    }
}

pub proof fn lemma_trim_end_shape(s: Seq<char>)
    ensures
        trim_end(s).len() <= s.len(),
        trim_end(s) == s.take(trim_end(s).len() as int),
        trim_end(s).len() == 0 || !is_ws(trim_end(s).last()),
    decreases s.len(),
{
    if s.len() > 0 && is_ws(s.last()) {
        lemma_trim_end_shape(s.drop_last());
        assert(s.drop_last().take(trim_end(s).len() as int) =~= s.take(trim_end(s).len() as int));
    } else {
        assert(s.take(s.len() as int) =~= s);
    }
}

/// Trimming twice is trimming once.
pub proof fn lemma_trim_twice(s: Seq<char>)
    ensures
        trim(trim(s)) == trim(s),
{
    let u = trim_start(s);
    let t = trim_end(u);
    lemma_trim_start_shape(s);
    lemma_trim_end_shape(u);
    if t.len() > 0 {
        assert(t[0] == u[0]);
    }
    lemma_trim_start_skip(t, 0);
    assert(t.skip(0) =~= t);
    if t.len() > 0 {
        assert(t.last() == t[t.len() - 1]);
    }
    lemma_trim_end_take(t, t.len() as int);
    assert(t.take(t.len() as int) =~= t);
}

/// `s` with leading and trailing whitespace removed (`str::trim`).
pub fn trim_str(s: &str) -> (r: &str)
    ensures
        r@ == trim(s@),
{
    let n = s.unicode_len();
    let mut a: usize = 0;
    while a < n && is_whitespace(s.get_char(a))
        invariant
            n == s@.len(),
            a <= n,
            forall|j: int| 0 <= j < a ==> is_ws(s@[j]),
        decreases n - a,
    {
        a += 1;
    }
    let mut b: usize = n;
    while b > a && is_whitespace(s.get_char(b - 1))
        invariant
            n == s@.len(),
            a <= b <= n,
            forall|j: int| b <= j < n ==> is_ws(s@[j]),
        decreases b,
    {
        b -= 1;
    }
    proof {
        lemma_trim_start_skip(s@, a as int);
        let t = s@.skip(a as int);
        assert forall|j: int| b - a <= j < t.len() implies is_ws(t[j]) by {
            assert(t[j] == s@[a + j]);
        }
        if b > a {
            assert(t[b - a - 1] == s@[b - 1]);
        }
        lemma_trim_end_take(t, b - a);
        assert(t.take(b - a) =~= s@.subrange(a as int, b as int));
    }
    s.substring_char(a, b)
}

/// The number of leading chars of `s` that are not whitespace.
pub open spec fn word_len(s: Seq<char>) -> nat
    decreases s.len(),
{
    if s.len() == 0 || is_ws(s[0]) {
        0
    } else {
        1 + word_len(s.drop_first())
    }
}

/// The first whitespace-separated word of `s` (empty where it has none), as
/// `split_whitespace` yields it first.
pub open spec fn first_word(s: Seq<char>) -> Seq<char> {
    trim_start(s).take(word_len(trim_start(s)) as int)
}

/// What follows the first whitespace-separated word of `s`.
pub open spec fn after_first_word(s: Seq<char>) -> Seq<char> {
    trim_start(s).skip(word_len(trim_start(s)) as int)
}

proof fn lemma_word_len(s: Seq<char>, w: int)
    requires
        0 <= w <= s.len(),
        forall|j: int| 0 <= j < w ==> !is_ws(s[j]),
        w == s.len() || is_ws(s[w]),
    ensures
        word_len(s) == w,
    decreases w,
{
    if w > 0 {
        lemma_word_len(s.drop_first(), w - 1);
    }
}

/// The first whitespace-separated word of `s` and what follows it.
pub fn next_word(s: &str) -> (r: (&str, &str))
    ensures
        r.0@ == first_word(s@),
        r.1@ == after_first_word(s@),
{
    let n = s.unicode_len();
    let mut a: usize = 0;
    while a < n && is_whitespace(s.get_char(a))
        invariant
            n == s@.len(),
            a <= n,
            forall|j: int| 0 <= j < a ==> is_ws(s@[j]),
        decreases n - a,
    {
        a += 1;
    }
    let mut b: usize = a;
    while b < n && !is_whitespace(s.get_char(b))
        invariant
            n == s@.len(),
            a <= b <= n,
            forall|j: int| a <= j < b ==> !is_ws(s@[j]),
        decreases n - b,
    {
        b += 1;
    }
    proof {
        lemma_trim_start_skip(s@, a as int);
        let t = s@.skip(a as int);
        assert forall|j: int| 0 <= j < b - a implies !is_ws(t[j]) by {
            assert(t[j] == s@[a + j]);
        }
        if b < n {
            assert(t[b - a] == s@[b as int]);
        }
        lemma_word_len(t, b - a);
        assert(t.take(b - a) =~= s@.subrange(a as int, b as int));
        assert(t.skip(b - a) =~= s@.subrange(b as int, n as int));
    }
    (s.substring_char(a, b), s.substring_char(b, n))
}

/// `s` with leading whitespace removed (`str::trim_start`).
pub fn trim_start_str(s: &str) -> (r: &str)
    ensures
        r@ == trim_start(s@),
{
    let n = s.unicode_len();
    let mut a: usize = 0;
    while a < n && is_whitespace(s.get_char(a))
        invariant
            n == s@.len(),
            a <= n,
            forall|j: int| 0 <= j < a ==> is_ws(s@[j]),
        decreases n - a,
    {
        a += 1;
    }
    proof {
        lemma_trim_start_skip(s@, a as int);
        assert(s@.skip(a as int) =~= s@.subrange(a as int, n as int));
    }
    s.substring_char(a, n)
}

/// `s` with trailing whitespace removed (`str::trim_end`).
pub fn trim_end_str(s: &str) -> (r: &str)
    ensures
        r@ == trim_end(s@),
{
    let n = s.unicode_len();
    let mut b: usize = n;
    while b > 0 && is_whitespace(s.get_char(b - 1))
        invariant
            n == s@.len(),
            b <= n,
            forall|j: int| b <= j < n ==> is_ws(s@[j]),
        decreases b,
    {
        b -= 1;
    }
    proof {
        lemma_trim_end_take(s@, b as int);
        assert(s@.take(b as int) =~= s@.subrange(0, b as int));
    }
    s.substring_char(0, b)
}

/// `char::is_whitespace`.
pub fn is_whitespace(c: char) -> (r: bool)
    ensures
        r == is_ws(c),
{
    c == '\t' || c == '\n' || c == '\u{0B}' || c == '\u{0C}' || c == '\r' || c == ' '
        || c == '\u{85}' || c == '\u{A0}' || c == '\u{1680}' || ('\u{2000}' <= c && c
        <= '\u{200A}') || c == '\u{2028}' || c == '\u{2029}' || c == '\u{202F}' || c
        == '\u{205F}' || c == '\u{3000}'
}

pub proof fn lemma_trim_end_char_take(s: Seq<char>, c: char, b: int)
    requires
        0 <= b <= s.len(),
        forall|j: int| b <= j < s.len() ==> s[j] == c,
        b == 0 || s[b - 1] != c,
    ensures
        trim_end_char(s, c) == s.take(b),
    decreases s.len() - b,
{
    if b == s.len() {
        assert(s.take(b) =~= s);
    } else {
        lemma_trim_end_char_take(s.drop_last(), c, b);
        assert(s.drop_last().take(b) =~= s.take(b));
    }
}

/// `s.trim_end_matches(c)` for a char `c`.
pub fn trim_end_matches(s: &str, c: char) -> (r: &str)
    ensures
        r@ == trim_end_char(s@, c),
{
    let n = s.unicode_len();
    let mut b: usize = n;
    while b > 0 && s.get_char(b - 1) == c
        invariant
            n == s@.len(),
            b <= n,
            forall|j: int| b <= j < n ==> s@[j] == c,
        decreases b,
    {
        b -= 1;
    }
    proof {
        lemma_trim_end_char_take(s@, c, b as int);
        assert(s@.take(b as int) =~= s@.subrange(0, b as int));
    }
    s.substring_char(0, b)
}

pub proof fn lemma_split_on_step(s: Seq<char>, d: char, i: int)
    requires
        0 <= i < s.len(),
    ensures
        split_on(s.take(i + 1), d) == if s[i] == d {
            split_on(s.take(i), d).push(Seq::<char>::empty())
        } else {
            let r = split_on(s.take(i), d);
            r.update(r.len() - 1, r.last().push(s[i]))
        },
{
    assert(s.take(i + 1).drop_last() =~= s.take(i));
}

pub proof fn lemma_split_on_len(s: Seq<char>, d: char)
    ensures
        split_on(s, d).len() >= 1,
    decreases s.len(),
{
    if s.len() > 0 {
        lemma_split_on_len(s.drop_last(), d);
    }
}

/// A string without the delimiter splits into itself.
pub proof fn lemma_split_on_plain(p: Seq<char>, d: char)
    requires
        !p.contains(d),
    ensures
        split_on(p, d) == seq![p],
    decreases p.len(),
{
    if p.len() > 0 {
        assert(!p.drop_last().contains(d)) by {
            if p.drop_last().contains(d) {
                let k = choose|k: int| 0 <= k < p.drop_last().len() && p.drop_last()[k] == d;
                assert(p[k] == d);
            }
        }
        lemma_split_on_plain(p.drop_last(), d);
        assert(p.last() == p[p.len() - 1]);
        assert(p.drop_last().push(p.last()) =~= p);
    } else {
        assert(p =~= Seq::<char>::empty());
    }
}

/// Splitting `a`, the delimiter and a piece without it adds that piece.
pub proof fn lemma_split_on_joined(a: Seq<char>, l: Seq<char>, d: char)
    requires
        !l.contains(d),
    ensures
        split_on(a + seq![d] + l, d) == split_on(a, d).push(l),
    decreases l.len(),
{
    let s = a + seq![d] + l;
    if l.len() == 0 {
        assert(s.drop_last() =~= a);
        assert(l =~= Seq::<char>::empty());
    } else {
        assert(!l.drop_last().contains(d)) by {
            if l.drop_last().contains(d) {
                let k = choose|k: int| 0 <= k < l.drop_last().len() && l.drop_last()[k] == d;
                assert(l[k] == d);
            }
        }
        lemma_split_on_joined(a, l.drop_last(), d);
        assert(s.drop_last() =~= a + seq![d] + l.drop_last());
        assert(s.last() == l[l.len() - 1]);
        assert(l.drop_last().push(l.last()) =~= l);
        lemma_split_on_len(a, d);
    }
}

/// Joining the pieces of a split with the same delimiter gives the text
/// back.
pub proof fn lemma_join_split(s: Seq<char>, d: char)
    ensures
        join(split_on(s, d), seq![d]) == s,
    decreases s.len(),
{
    if s.len() == 0 {
        assert(join(seq![Seq::<char>::empty()], seq![d]) =~= s);
    } else {
        let ch = s.last();
        let r = split_on(s.drop_last(), d);
        lemma_join_split(s.drop_last(), d);
        lemma_split_on_len(s.drop_last(), d);
        if ch == d {
            let now = r.push(Seq::<char>::empty());
            assert(now.drop_last() =~= r);
            assert(join(now, seq![d]) =~= s);
        } else {
            let now = r.update(r.len() - 1, r.last().push(ch));
            if r.len() == 1 {
                assert(join(now, seq![d]) =~= s);
            } else {
                assert(now.drop_last() =~= r.drop_last());
                assert(now.last() == r.last().push(ch));
                assert(join(r, seq![d]) == join(r.drop_last(), seq![d]) + seq![d] + r.last());
                assert(join(now, seq![d]) == join(r.drop_last(), seq![d]) + seq![d] + r.last().push(ch));
                assert(s =~= s.drop_last().push(ch));
                assert(join(now, seq![d]) =~= s);
            }
        }
    }
}

/// Splitting a join at its one-char separator gives the parts back, where
/// no part holds the separator.
pub proof fn lemma_split_join(ps: Seq<Seq<char>>, d: char)
    requires
        ps.len() >= 1,
        forall|i: int| 0 <= i < ps.len() ==> !(#[trigger] ps[i]).contains(d),
    ensures
        split_on(join(ps, seq![d]), d) == ps,
    decreases ps.len(),
{
    if ps.len() == 1 {
        lemma_split_on_plain(ps[0], d);
        assert(seq![ps[0]] =~= ps);
    } else {
        let rest = ps.drop_last();
        assert forall|i: int| 0 <= i < rest.len() implies !(#[trigger] rest[i]).contains(d) by {
            assert(rest[i] == ps[i]);
        }
        lemma_split_join(rest, d);
        assert(ps.last() == ps[ps.len() - 1]);
        lemma_split_on_joined(join(rest, seq![d]), ps.last(), d);
        assert(rest.push(ps.last()) =~= ps);
    }
}

/// `str::split` gives one more piece than there are delimiters.
pub proof fn lemma_split_on_count(s: Seq<char>, d: char)
    ensures
        split_on(s, d).len() == count_char(s, d) + 1,
    decreases s.len(),
{
    if s.len() > 0 {
        lemma_split_on_count(s.drop_last(), d);
        lemma_split_on_len(s.drop_last(), d);
    }
}

/// The pieces of `s` between occurrences of `d` (`str::split` with a char).
pub fn split_char(s: &str, d: char) -> (r: Vec<&str>)
    ensures
        r@.map_values(|p: &str| p@) == split_on(s@, d),
{
    let n = s.unicode_len();
    let mut out: Vec<&str> = Vec::new();
    let mut start: usize = 0;
    let mut i: usize = 0;
    assert(s@.subrange(0, 0) =~= Seq::<char>::empty());
    assert(s@.take(0).len() == 0);
    assert(split_on(s@.take(0), d) == seq![Seq::<char>::empty()]);
    assert(out@.map_values(|p: &str| p@).push(s@.subrange(0, 0)) =~= split_on(s@.take(0), d));
    while i < n
        invariant
            n == s@.len(),
            start <= i <= n,
            out@.map_values(|p: &str| p@).push(s@.subrange(start as int, i as int)) == split_on(
                s@.take(i as int),
                d,
            ),
        decreases n - i,
    {
        proof {
            lemma_split_on_step(s@, d, i as int);
            lemma_split_on_len(s@.take(i as int), d);
        }
        let ghost before = out@.map_values(|p: &str| p@);
        if s.get_char(i) == d {
            let piece = s.substring_char(start, i);
            out.push(piece);
            start = i + 1;
            assert(out@.map_values(|p: &str| p@) =~= before.push(piece@));
            assert(s@.subrange(start as int, (i + 1) as int) =~= Seq::<char>::empty());
        } else {
            assert(s@.subrange(start as int, (i + 1) as int) =~= s@.subrange(start as int, i as int).push(s@[i as int]));
            assert(before.push(s@.subrange(start as int, (i + 1) as int)) =~= before.push(
                s@.subrange(start as int, i as int),
            ).update(before.len() as int, s@.subrange(start as int, i as int).push(s@[i as int])));
        }
        i += 1;
    }
    let last = s.substring_char(start, n);
    let ghost before = out@.map_values(|p: &str| p@);
    out.push(last);
    assert(out@.map_values(|p: &str| p@) =~= before.push(last@));
    assert(s@.take(n as int) =~= s@);
    out
}

/// The decimal digits of `n` (`u64::to_string`).
pub fn decimal_string(n: u64) -> (r: String)
    ensures
        r@ == decimal(n as nat),
    decreases n,
{
    let mut s = if n < 10 {
        String::new()
    } else {
        decimal_string(n / 10)
    };
    let d = (n % 10) as u32;
    let c = char_from_digit(d);
    push_char(&mut s, c);
    proof {
        if n < 10 {
            assert(s@ =~= seq![digit_char(n as nat)]);
        }
    }
    s
}

fn char_from_digit(d: u32) -> (c: char)
    requires
        d < 10,
    ensures
        c == digit_char(d as nat),
{
    if d == 0 {
        '0'
    } else if d == 1 {
        '1'
    } else if d == 2 {
        '2'
    } else if d == 3 {
        '3'
    } else if d == 4 {
        '4'
    } else if d == 5 {
        '5'
    } else if d == 6 {
        '6'
    } else if d == 7 {
        '7'
    } else if d == 8 {
        '8'
    } else {
        '9'
    }
}

/// Parses a non-empty string of ASCII digits into a `u64`; `None` where the
/// string is empty, holds another char, or the value does not fit.
pub fn parse_u64(s: &str) -> (r: Option<u64>)
    ensures
        r matches Some(v) ==> s@.len() > 0 && (forall|j: int| 0 <= j < s@.len() ==> is_digit(s@[j]))
            && v as nat == digits_value(s@),
        r is None ==> s@.len() == 0 || (exists|j: int| 0 <= j < s@.len() && !is_digit(s@[j]))
            || digits_value(s@) > u64::MAX,
{
    let n = s.unicode_len();
    if n == 0 {
        return None;
    }
    let mut i: usize = 0;
    let mut v: u64 = 0;
    while i < n
        invariant
            n == s@.len(),
            i <= n,
            forall|j: int| 0 <= j < i ==> is_digit(s@[j]),
            v as nat == digits_value(s@.take(i as int)),
        decreases n - i,
    {
        let c = s.get_char(i);
        assert(s@.take(i + 1).drop_last() =~= s@.take(i as int));
        if !('0' <= c && c <= '9') {
            return None;
        }
        let d = (c as u32 - 48) as u64;
        if v > (u64::MAX - d) / 10 {
            proof {
                lemma_digits_value_monotone(s@, i as int + 1);
            }
            return None;
        }
        v = v * 10 + d;
        i += 1;
    }
    assert(s@.take(n as int) =~= s@);
    Some(v)
}

pub proof fn lemma_digits_value_monotone(s: Seq<char>, i: int)
    requires
        0 <= i <= s.len(),
        forall|j: int| 0 <= j < i ==> is_digit(s[j]),
    ensures
        digits_value(s.take(i)) <= digits_value(s) || exists|j: int| 0 <= j < s.len() && !is_digit(s[j]),
    decreases s.len() - i,
{
    if i < s.len() {
        if is_digit(s[i]) {
            lemma_digits_value_monotone(s, i + 1);
            assert(s.take(i + 1).drop_last() =~= s.take(i));
        }
    } else {
        assert(s.take(i) =~= s);
    }
}

/// `a < b` on strings.
pub fn lt_str(a: &str, b: &str) -> (r: bool)
    ensures
        r == str_lt(a@, b@),
{
    let n = a.unicode_len();
    let m = b.unicode_len();
    let mut i: usize = 0;
    assert(a@.skip(0) =~= a@ && b@.skip(0) =~= b@);
    while i < n && i < m
        invariant
            n == a@.len(),
            m == b@.len(),
            i <= n,
            i <= m,
            forall|j: int| 0 <= j < i ==> a@[j] == b@[j],
            str_lt(a@, b@) == str_lt(a@.skip(i as int), b@.skip(i as int)),
        decreases n - i,
    {
        let x = a.get_char(i);
        let y = b.get_char(i);
        assert(a@.skip(i as int)[0] == x && b@.skip(i as int)[0] == y);
        if x != y {
            return x < y;
        }
        assert(a@.skip(i as int).drop_first() =~= a@.skip(i + 1));
        assert(b@.skip(i as int).drop_first() =~= b@.skip(i + 1));
        i += 1;
    }
    m > i
}

/// The strings of `parts` joined with `sep` between them.
pub fn join_strings(parts: &Vec<String>, sep: &str) -> (r: String)
    ensures
        r@ == join(parts@.map_values(|p: String| p@), sep@),
{
    let mut out = String::new();
    let mut i: usize = 0;
    while i < parts.len()
        invariant
            i <= parts@.len(),
            out@ == join(parts@.map_values(|p: String| p@).take(i as int), sep@),
        decreases parts@.len() - i,
    {
        let ghost views = parts@.map_values(|p: String| p@);
        assert(views.take(i + 1).drop_last() =~= views.take(i as int));
        if i > 0 {
            out.append(sep);
        }
        out.append(parts[i].as_str());
        proof {
            if i == 0 {
                assert(out@ =~= views.take(1)[0]);
            }
        }
        i += 1;
    }
    assert(parts@.map_values(|p: String| p@).take(i as int) =~= parts@.map_values(|p: String| p@));
    out
}

/// The pieces of `parts` joined with `sep` between them.
pub fn join_strs(parts: &Vec<&str>, sep: &str) -> (r: String)
    ensures
        r@ == join(parts@.map_values(|p: &str| p@), sep@),
{
    let mut out = String::new();
    let mut i: usize = 0;
    while i < parts.len()
        invariant
            i <= parts@.len(),
            out@ == join(parts@.map_values(|p: &str| p@).take(i as int), sep@),
        decreases parts@.len() - i,
    {
        let ghost views = parts@.map_values(|p: &str| p@);
        assert(views.take(i + 1).drop_last() =~= views.take(i as int));
        if i > 0 {
            out.append(sep);
        }
        out.append(parts[i]);
        proof {
            if i == 0 {
                assert(out@ =~= views.take(1)[0]);
            }
        }
        i += 1;
    }
    assert(parts@.map_values(|p: &str| p@).take(i as int) =~= parts@.map_values(|p: &str| p@));
    out
}

/// The character sequences of a list of strings.
pub open spec fn views(v: Seq<String>) -> Seq<Seq<char>> {
    v.map_values(|s: String| s@)
}

/// Owned copies of string slices.
pub fn to_strings(v: &Vec<&str>) -> (r: Vec<String>)
    ensures
        views(r@) == v@.map_values(|p: &str| p@),
{
    let mut out: Vec<String> = Vec::new();
    let mut i: usize = 0;
    while i < v.len()
        invariant
            i <= v@.len(),
            out@.len() == i,
            forall|j: int| 0 <= j < i ==> (#[trigger] out@[j])@ == v@[j]@,
        decreases v@.len() - i,
    {
        out.push(owned(v[i]));
        i += 1;
    }
    assert(views(out@) =~= v@.map_values(|p: &str| p@));
    out
}

/// A copy of a list of strings.
pub fn clone_strings(v: &Vec<String>) -> (r: Vec<String>)
    ensures
        views(r@) == views(v@),
{
    let mut out: Vec<String> = Vec::new();
    let mut i: usize = 0;
    while i < v.len()
        invariant
            i <= v@.len(),
            out@.len() == i,
            forall|j: int| 0 <= j < i ==> (#[trigger] out@[j])@ == v@[j]@,
        decreases v@.len() - i,
    {
        out.push(owned(v[i].as_str()));
        i += 1;
    }
    assert(views(out@) =~= views(v@));
    out
}

/// The length of the UTF-8 encoding of `s`, in bytes.
pub open spec fn utf8_len(s: Seq<char>) -> nat {
    vstd::utf8::encode_utf8(s).len()
}

pub proof fn lemma_utf8_len_concat(a: Seq<char>, b: Seq<char>)
    ensures
        utf8_len(a + b) == utf8_len(a) + utf8_len(b),
    decreases a.len(),
{
    if a.len() == 0 {
        assert(a + b =~= b);
    } else {
        assert((a + b).drop_first() =~= a.drop_first() + b);
        assert((a + b)[0] == a[0]);
        lemma_utf8_len_concat(a.drop_first(), b);
    }
}

fn char_utf8_width(c: char) -> (w: usize)
    ensures
        w == utf8_len(seq![c]),
        1 <= w <= 4,
{
    proof {
        vstd::utf8::char_is_scalar(c);
        assert(seq![c].drop_first() =~= Seq::<char>::empty());
        assert(vstd::utf8::encode_utf8(Seq::<char>::empty()) =~= Seq::<u8>::empty());
        assert(vstd::utf8::encode_utf8(seq![c]) == vstd::utf8::encode_scalar(seq![c][0] as u32)
            + vstd::utf8::encode_utf8(seq![c].drop_first()));
        assert(utf8_len(seq![c]) == vstd::utf8::encode_scalar(c as u32).len());
    }
    let v = c as u32;
    if v <= 0x7F {
        1
    } else if v <= 0x7FF {
        2
    } else if v <= 0xFFFF {
        3
    } else {
        4
    }
}

/// Whether the UTF-8 encoding of `s` is longer than `limit` bytes.
pub fn utf8_len_exceeds(s: &str, limit: usize) -> (r: bool)
    requires
        limit < usize::MAX - 4,
    ensures
        r == (utf8_len(s@) > limit),
{
    let n = s.unicode_len();
    let mut total: usize = 0;
    let mut i: usize = 0;
    while i < n
        invariant
            i <= n,
            n == s@.len(),
            total <= limit,
            limit < usize::MAX - 4,
            total == utf8_len(s@.take(i as int)),
        decreases n - i,
    {
        let w = char_utf8_width(s.get_char(i));
        proof {
            assert(s@.take(i + 1) =~= s@.take(i as int) + seq![s@[i as int]]);
            lemma_utf8_len_concat(s@.take(i as int), seq![s@[i as int]]);
        }
        total = total + w;
        i += 1;
        if total > limit {
            proof {
                assert(s@ =~= s@.take(i as int) + s@.skip(i as int));
                lemma_utf8_len_concat(s@.take(i as int), s@.skip(i as int));
            }
            return true;
        }
    }
    assert(s@.take(n as int) =~= s@);
    false
}

/// Whether `v` holds a string equal to `s`.
pub fn contains_string(v: &Vec<String>, s: &str) -> (r: bool)
    ensures
        r == views(v@).contains(s@),
{
    let mut i: usize = 0;
    while i < v.len()
        invariant
            i <= v@.len(),
            forall|j: int| 0 <= j < i ==> v@[j]@ != s@,
        decreases v@.len() - i,
    {
        if str_eq(v[i].as_str(), s) {
            assert(views(v@)[i as int] == s@);
            return true;
        }
        i += 1;
    }
    assert(!views(v@).contains(s@)) by {
        if views(v@).contains(s@) {
            let k = choose|k: int| 0 <= k < views(v@).len() && views(v@)[k] == s@;
            assert(v@[k]@ == s@);
        }
    }
    false
}

/// The distinct strings among the first `n` of `s`, in order of first
/// appearance.
pub open spec fn distinct_upto(s: Seq<Seq<char>>, n: int) -> Seq<Seq<char>>
    decreases n,
{
    if n <= 0 {
        Seq::empty()
    } else {
        let prev = distinct_upto(s, n - 1);
        if prev.contains(s[n - 1]) {
            prev
        } else {
            prev.push(s[n - 1])
        }
    }
}

/// The distinct strings of `s`, in order of first appearance.
pub open spec fn distinct(s: Seq<Seq<char>>) -> Seq<Seq<char>> {
    distinct_upto(s, s.len() as int)
}

/// `s` is in increasing order, equal items side by side.
pub open spec fn sorted_seq(s: Seq<Seq<char>>) -> bool {
    forall|i: int, j: int| 0 <= i < j < s.len() ==> !str_lt(#[trigger] s[j], #[trigger] s[i])
}

/// Inserts `s` into a sorted list, after the items less than it (equal
/// items stay).
pub fn insert_sorted_keep(v: &mut Vec<String>, s: String)
    requires
        sorted_seq(views(old(v)@)),
    ensures
        sorted_seq(views(final(v)@)),
        views(final(v)@).to_multiset() == views(old(v)@).to_multiset().insert(s@),
{
    let ghost old_v = views(v@);
    let mut i: usize = 0;
    while i < v.len() && lt_str(v[i].as_str(), s.as_str())
        invariant
            i <= v@.len(),
            old_v == views(v@),
            sorted_seq(old_v),
            forall|j: int| 0 <= j < i ==> str_lt(#[trigger] old_v[j], s@),
        decreases v@.len() - i,
    {
        i += 1;
    }
    let ghost sv = s@;
    v.insert(i, s);
    proof {
        let n = old_v.insert(i as int, sv);
        assert(views(v@) =~= n);
        vstd::seq_lib::to_multiset_insert(old_v, i as int, sv);
        assert forall|a: int, b: int| 0 <= a < b < n.len() implies !str_lt(#[trigger] n[b], #[trigger] n[a]) by {
            if b < i {
                assert(n[a] == old_v[a] && n[b] == old_v[b]);
            } else if a < i && b == i {
                assert(n[a] == old_v[a] && n[b] == sv);
                assert(str_lt(old_v[a], sv));
                lemma_str_lt_trichotomy(old_v[a], sv);
            } else if a < i {
                assert(n[a] == old_v[a] && n[b] == old_v[b - 1]);
            } else if a == i {
                assert(n[a] == sv && n[b] == old_v[b - 1]);
                assert(!str_lt(old_v[i as int], sv));
                if str_lt(old_v[b - 1], sv) {
                    lemma_str_lt_trichotomy(old_v[i as int], sv);
                    if b - 1 > i {
                        assert(!str_lt(old_v[b - 1], old_v[i as int]));
                    }
                    if old_v[i as int] == sv {
                    } else {
                        assert(str_lt(sv, old_v[i as int]));
                        lemma_str_lt_transitive(old_v[b - 1], sv, old_v[i as int]);
                        lemma_str_lt_irreflexive(old_v[i as int]);
                    }
                }
            } else {
                assert(n[a] == old_v[a - 1] && n[b] == old_v[b - 1]);
            }
        }
    }
}

/// Inserts `s` into a strictly sorted list, unless it is there already.
pub fn insert_sorted(v: &mut Vec<String>, s: String)
    requires
        strictly_sorted(views(old(v)@)),
    ensures
        strictly_sorted(views(final(v)@)),
        views(final(v)@).to_set() == views(old(v)@).to_set().insert(s@),
{
    let ghost old_v = views(v@);
    let mut i: usize = 0;
    while i < v.len() && lt_str(v[i].as_str(), s.as_str())
        invariant
            i <= v@.len(),
            old_v == views(v@),
            strictly_sorted(old_v),
            forall|j: int| 0 <= j < i ==> str_lt(#[trigger] old_v[j], s@),
        decreases v@.len() - i,
    {
        i += 1;
    }
    if i < v.len() && str_eq(v[i].as_str(), s.as_str()) {
        assert(old_v.to_set() =~= old_v.to_set().insert(s@)) by {
            assert(old_v[i as int] == s@);
        }
        return;
    }
    proof {
        if i < old_v.len() {
            lemma_str_lt_trichotomy(old_v[i as int], s@);
        }
    }
    let ghost sv = s@;
    v.insert(i, s);
    let ghost w = views(v@);
    assert(w =~= old_v.insert(i as int, sv));
    assert forall|a: int, b: int| 0 <= a < b < w.len() implies str_lt(#[trigger] w[a], #[trigger] w[b]) by {
        if b < i {
            assert(w[a] == old_v[a] && w[b] == old_v[b]);
        } else if b == i {
            assert(w[a] == old_v[a]);
        } else if a == i {
            assert(w[b] == old_v[b - 1]);
            if b - 1 > i {
                lemma_str_lt_transitive(sv, old_v[i as int], old_v[b - 1]);
            }
        } else if a < i {
            assert(w[a] == old_v[a] && w[b] == old_v[b - 1]);
            lemma_str_lt_transitive(old_v[a], sv, old_v[i as int]);
            if b - 1 > i {
                lemma_str_lt_transitive(old_v[a], old_v[i as int], old_v[b - 1]);
            }
        } else {
            assert(w[a] == old_v[a - 1] && w[b] == old_v[b - 1]);
        }
    }
    assert(w.to_set() =~= old_v.to_set().insert(sv)) by {
        assert forall|x: Seq<char>| w.to_set().contains(x) implies old_v.to_set().insert(sv).contains(x) by {
            let k = choose|k: int| 0 <= k < w.len() && w[k] == x;
            if k < i {
                assert(old_v[k] == x);
            } else if k > i {
                assert(old_v[k - 1] == x);
            }
        }
        assert forall|x: Seq<char>| old_v.to_set().insert(sv).contains(x) implies w.to_set().contains(x) by {
            if x == sv {
                assert(w[i as int] == x);
            } else {
                let k = choose|k: int| 0 <= k < old_v.len() && old_v[k] == x;
                if k < i {
                    assert(w[k] == x);
                } else {
                    assert(w[k + 1] == x);
                }
            }
        }
    }
}

/// The strictly sorted list of the strings of a set (for a set that has
/// one: every finite set).
pub open spec fn sorted_list(s: Set<Seq<char>>) -> Seq<Seq<char>> {
    choose|l: Seq<Seq<char>>| strictly_sorted(l) && l.to_set() == s
}

/// Two strictly sorted lists of the same strings are equal.
pub proof fn lemma_sorted_unique(a: Seq<Seq<char>>, b: Seq<Seq<char>>)
    requires
        strictly_sorted(a),
        strictly_sorted(b),
        a.to_set() == b.to_set(),
    ensures
        a == b,
    decreases a.len(),
{
    if a.len() == 0 {
        if b.len() > 0 {
            assert(b.to_set().contains(b[0]));
        }
        assert(a =~= b);
    } else if b.len() == 0 {
        assert(a.to_set().contains(a[0]));
    } else {
        assert(b.to_set().contains(a[0]));
        assert(a.to_set().contains(b[0]));
        let i = choose|i: int| 0 <= i < a.len() && a[i] == b[0];
        let j = choose|j: int| 0 <= j < b.len() && b[j] == a[0];
        if i > 0 && j > 0 {
            assert(str_lt(a[0], a[i]));
            assert(str_lt(b[0], b[j]));
            lemma_str_lt_trichotomy(a[0], b[0]);
        }
        if i > 0 && j == 0 {
            assert(str_lt(a[0], a[i]));
            lemma_str_lt_irreflexive(a[0]);
        }
        if i == 0 && j > 0 {
            assert(str_lt(b[0], b[j]));
            lemma_str_lt_irreflexive(b[0]);
        }
        assert(a[0] == b[0]);
        let ta = a.drop_first();
        let tb = b.drop_first();
        assert forall|x: Seq<char>| ta.to_set().contains(x) implies tb.to_set().contains(x) by {
            let k = choose|k: int| 0 <= k < ta.len() && ta[k] == x;
            assert(a[k + 1] == x);
            assert(b.to_set().contains(x));
            let m = choose|m: int| 0 <= m < b.len() && b[m] == x;
            if m == 0 {
                assert(str_lt(a[0], a[k + 1]));
                lemma_str_lt_irreflexive(x);
            }
            assert(tb[m - 1] == x);
        }
        assert forall|x: Seq<char>| tb.to_set().contains(x) implies ta.to_set().contains(x) by {
            let k = choose|k: int| 0 <= k < tb.len() && tb[k] == x;
            assert(b[k + 1] == x);
            assert(a.to_set().contains(x));
            let m = choose|m: int| 0 <= m < a.len() && a[m] == x;
            if m == 0 {
                assert(str_lt(b[0], b[k + 1]));
                lemma_str_lt_irreflexive(x);
            }
            assert(ta[m - 1] == x);
        }
        assert(ta.to_set() =~= tb.to_set());
        lemma_sorted_unique(ta, tb);
        assert(a =~= seq![a[0]] + ta);
        assert(b =~= seq![b[0]] + tb);
    }
}

/// A strictly sorted list is the sorted list of its strings.
/// A common prefix does not change the order of two strings.
pub proof fn lemma_str_lt_prefix(a: Seq<char>, x: Seq<char>, y: Seq<char>)
    ensures
        str_lt(a + x, a + y) == str_lt(x, y),
    decreases a.len(),
{
    if a.len() == 0 {
        assert(a + x =~= x);
        assert(a + y =~= y);
    } else {
        assert((a + x)[0] == a[0] && (a + y)[0] == a[0]);
        assert((a + x).drop_first() =~= a.drop_first() + x);
        assert((a + y).drop_first() =~= a.drop_first() + y);
        lemma_str_lt_prefix(a.drop_first(), x, y);
    }
}

/// A strictly sorted list names each string once.
pub proof fn lemma_sorted_distinct(l: Seq<Seq<char>>)
    requires
        strictly_sorted(l),
    ensures
        l.no_duplicates(),
{
    assert forall|a: int, b: int| 0 <= a < l.len() && 0 <= b < l.len() && a != b implies l[a]
        != l[b] by {
        if a < b {
            assert(str_lt(l[a], l[b]));
            lemma_str_lt_irreflexive(l[a]);
        } else {
            assert(str_lt(l[b], l[a]));
            lemma_str_lt_irreflexive(l[b]);
        }
    }
}

pub proof fn lemma_sorted_list(l: Seq<Seq<char>>)
    requires
        strictly_sorted(l),
    ensures
        sorted_list(l.to_set()) == l,
{
    let c = sorted_list(l.to_set());
    assert(strictly_sorted(c) && c.to_set() == l.to_set());
    lemma_sorted_unique(c, l);
}

pub proof fn lemma_join_cons(a: Seq<char>, rest: Seq<Seq<char>>, sep: Seq<char>)
    ensures
        join(seq![a] + rest, sep) == if rest.len() == 0 {
            a
        } else {
            a + sep + join(rest, sep)
        },
    decreases rest.len(),
{
    if rest.len() == 0 {
        assert(seq![a] + rest =~= seq![a]);
    } else if rest.len() == 1 {
        assert((seq![a] + rest).drop_last() =~= seq![a]);
        assert(join(seq![a], sep) == a);
        assert(join(rest, sep) == rest[0]);
    } else {
        assert((seq![a] + rest).drop_last() =~= seq![a] + rest.drop_last());
        lemma_join_cons(a, rest.drop_last(), sep);
        assert(a + sep + join(rest.drop_last(), sep) + sep + rest.last() =~= a + sep + (join(
            rest.drop_last(),
            sep,
        ) + sep + rest.last()));
    }
}

/// What `str::replace(pat, rep)` gives: `s` with each match of `pat`, found
/// left to right without overlap, replaced by `rep`.
pub open spec fn replace_spec(s: Seq<char>, pat: Seq<char>, rep: Seq<char>) -> Seq<char> {
    join(split_str(s, pat), rep)
}

/// `s` with each match of a non-empty `pat` replaced by `rep`.
pub fn replace_all(s: &str, pat: &str, rep: &str) -> (r: String)
    requires
        pat@.len() > 0,
    ensures
        r@ == replace_spec(s@, pat@, rep@),
    decreases s@.len(),
{
    match find_str(s, pat) {
        Some(i) => {
            proof {
                lemma_first_occurrence_from(s@, pat@, 0);
            }
            let n = s.unicode_len();
            let m = pat.unicode_len();
            let head = s.substring_char(0, i);
            let tail = s.substring_char(i + m, n);
            assert(head@ =~= s@.take(i as int));
            assert(tail@ =~= s@.skip(i + pat@.len()));
            let rest = replace_all(tail, pat, rep);
            let mut out = owned(head);
            append(&mut out, rep);
            append(&mut out, rest.as_str());
            proof {
                let parts = split_str(tail@, pat@);
                assert(split_str(s@, pat@) == seq![s@.take(i as int)] + parts);
                lemma_join_cons(s@.take(i as int), parts, rep@);
                lemma_split_str_nonempty(tail@, pat@);
            }
            out
        },
        None => owned(s),
    }
}

pub proof fn lemma_split_str_nonempty(s: Seq<char>, d: Seq<char>)
    ensures
        split_str(s, d).len() >= 1,
    decreases s.len(),
{
    if d.len() > 0 && first_occurrence(s, d) is Some {
        lemma_first_occurrence_from(s, d, 0);
        let i = first_occurrence(s, d)->0;
        lemma_split_str_nonempty(s.skip(i + d.len()), d);
    }
}

/// A non-empty run of ASCII digits.
pub open spec fn all_digits(s: Seq<char>) -> bool {
    s.len() > 0 && forall|j: int| 0 <= j < s.len() ==> is_digit(#[trigger] s[j])
}

/// What `str::parse::<u64>` gives: digits after an optional `+`, whose
/// value fits.
pub open spec fn parse_u64_spec(s: Seq<char>) -> Option<u64> {
    let d = if s.len() > 0 && s[0] == '+' {
        s.skip(1)
    } else {
        s
    };
    if all_digits(d) && digits_value(d) <= u64::MAX {
        Some(digits_value(d) as u64)
    } else {
        None
    }
}

/// `str::parse::<u64>`: digits after an optional `+`.
pub fn parse_u64_text(s: &str) -> (r: Option<u64>)
    ensures
        r == parse_u64_spec(s@),
{
    let n = s.unicode_len();
    let d = if n > 0 && s.get_char(0) == '+' {
        s.substring_char(1, n)
    } else {
        s
    };
    assert(n > 0 && s@[0] == '+' ==> d@ =~= s@.skip(1));
    match parse_u64(d) {
        Some(v) => Some(v),
        None => None,
    }
}

/// The pieces of `s` between the matches of a non-empty `pat` (`str::split`
/// with a string pattern).
pub fn split_str_exec<'a>(s: &'a str, pat: &str) -> (r: Vec<&'a str>)
    requires
        pat@.len() > 0,
    ensures
        r@.map_values(|p: &str| p@) == split_str(s@, pat@),
    decreases s@.len(),
{
    match find_str(s, pat) {
        Some(i) => {
            proof {
                lemma_first_occurrence_from(s@, pat@, 0);
            }
            let n = s.unicode_len();
            let m = pat.unicode_len();
            let head = s.substring_char(0, i);
            let tail = s.substring_char(i + m, n);
            assert(head@ =~= s@.take(i as int));
            assert(tail@ =~= s@.skip(i + pat@.len()));
            let mut rest = split_str_exec(tail, pat);
            let ghost rv = rest@;
            rest.insert(0, head);
            assert(rest@.map_values(|p: &str| p@) =~= seq![head@] + rv.map_values(|p: &str| p@));
            rest
        },
        None => {
            let v = vec![s];
            assert(v@.map_values(|p: &str| p@) =~= seq![s@]);
            v
        },
    }
}


/// The decimal digits of `n` are digits, and they read back as `n`.
pub proof fn lemma_decimal_digits(n: nat)
    ensures
        all_digits(decimal(n)),
        digits_value(decimal(n)) == n,
    decreases n,
{
    if n < 10 {
        assert(decimal(n) =~= seq![digit_char(n)]);
        assert(decimal(n).drop_last() =~= Seq::<char>::empty());
        assert((digit_char(n) as u32) == n + 48);
        assert(decimal(n).last() == digit_char(n));
        assert(digits_value(decimal(n)) == digits_value(decimal(n).drop_last()) * 10 + ((decimal(n).last() as u32) - 48) as nat);
    } else {
        lemma_decimal_digits(n / 10);
        let d = decimal(n / 10);
        assert(decimal(n).drop_last() =~= d);
        assert((digit_char(n % 10) as u32) == n % 10 + 48);
        assert(decimal(n).last() == digit_char(n % 10));
        assert(n == (n / 10) * 10 + n % 10);
        assert(digits_value(decimal(n)) == digits_value(d) * 10 + ((decimal(n).last() as u32) - 48) as nat);
        assert forall|j: int| 0 <= j < decimal(n).len() implies is_digit(#[trigger] decimal(n)[j]) by {
            if j < d.len() {
                assert(decimal(n)[j] == d[j]);
            }
        }
    }
}

/// The decimal digits of a `u64` parse back as it.
pub proof fn lemma_decimal_parses(n: u64)
    ensures
        parse_u64_spec(decimal(n as nat)) == Some(n),
{
    lemma_decimal_digits(n as nat);
}

} // verus!
