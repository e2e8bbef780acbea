//! Character-sequence operations on message text: searching, splitting,
//! trimming and case folding, each stated over `Seq<char>`.
use vstd::prelude::*;

verus! {

// ---------------------------------------------------------------------------
// Specifications
// ---------------------------------------------------------------------------

/// Unicode `White_Space`, the property that `char::is_whitespace` tests.
pub open spec fn is_ws(c: char) -> bool {
    ||| ('\u{9}' <= c && c <= '\u{d}')
    ||| c == ' '
    ||| c == '\u{85}'
    ||| c == '\u{a0}'
    ||| c == '\u{1680}'
    ||| ('\u{2000}' <= c && c <= '\u{200a}')
    ||| c == '\u{2028}'
    ||| c == '\u{2029}'
    ||| c == '\u{202f}'
    ||| c == '\u{205f}'
    ||| c == '\u{3000}'
}

/// `p` occurs in `s` starting at index `i`.
pub open spec fn matches_at(s: Seq<char>, p: Seq<char>, i: int) -> bool {
    0 <= i && i + p.len() <= s.len() && s.subrange(i, i + p.len()) == p
}

/// The first index at or after `i` where `p` occurs in `s`.
pub open spec fn find_from(s: Seq<char>, p: Seq<char>, i: int) -> Option<int>
    decreases s.len() + 1 - i,
{
    if i < 0 || i + p.len() > s.len() {
        None
    } else if matches_at(s, p, i) {
        Some(i)
    } else {
        find_from(s, p, i + 1)
    }
}

/// `p` occurs somewhere in `s`.
pub open spec fn contains(s: Seq<char>, p: Seq<char>) -> bool {
    find_from(s, p, 0) is Some
}

/// `s` begins with `p`.
pub open spec fn starts_with(s: Seq<char>, p: Seq<char>) -> bool {
    p.len() <= s.len() && s.subrange(0, p.len() as int) == p
}

/// The pieces of `s[start..]` between occurrences of `sep`, as `str::split` yields them.
pub open spec fn split_from(s: Seq<char>, sep: Seq<char>, start: int) -> Seq<Seq<char>>
    decreases s.len() - start,
{
    if sep.len() == 0 || start < 0 || start > s.len() {
        seq![s.subrange(start, s.len() as int)]
    } else {
        match find_from(s, sep, start) {
            Some(j) => {
                proof {
                    lemma_find_from(s, sep, start);
                }
                seq![s.subrange(start, j)] + split_from(s, sep, j + sep.len())
            },
            None => seq![s.subrange(start, s.len() as int)],
        }
    }
}

/// `str::split` with a non-empty separator.
pub open spec fn split(s: Seq<char>, sep: Seq<char>) -> Seq<Seq<char>> {
    split_from(s, sep, 0)
}

/// A line without the carriage return that ended it.
pub open spec fn strip_cr(l: Seq<char>) -> Seq<char> {
    if l.len() > 0 && l.last() == '\r' {
        l.drop_last()
    } else {
        l
    }
}

/// The lines of `s[start..]`, as `str::lines` yields them.
pub open spec fn lines_from(s: Seq<char>, start: int) -> Seq<Seq<char>>
    decreases s.len() - start,
{
    if start < 0 || start >= s.len() {
        seq![]
    } else {
        match find_from(s, seq!['\n'], start) {
            Some(j) => {
                proof {
                    lemma_find_from(s, seq!['\n'], start);
                }
                seq![strip_cr(s.subrange(start, j))] + lines_from(s, j + 1)
            },
            None => seq![s.subrange(start, s.len() as int)],
        }
    }
}

/// `str::lines`.
pub open spec fn lines(s: Seq<char>) -> Seq<Seq<char>> {
    lines_from(s, 0)
}

/// The first index at or after `i` that is not whitespace (or the end).
pub open spec fn skip_ws(s: Seq<char>, i: int) -> int
    decreases s.len() - i,
{
    if 0 <= i < s.len() && is_ws(s[i]) {
        skip_ws(s, i + 1)
    } else {
        i
    }
}

/// The first index at or after `i` that is whitespace (or the end).
pub open spec fn skip_word(s: Seq<char>, i: int) -> int
    decreases s.len() - i,
{
    if 0 <= i < s.len() && !is_ws(s[i]) {
        skip_word(s, i + 1)
    } else {
        i
    }
}

/// The whitespace-separated words of `s[i..]`, as `str::split_whitespace` yields them.
pub open spec fn words_from(s: Seq<char>, i: int) -> Seq<Seq<char>>
    decreases s.len() - i,
{
    let j = skip_ws(s, i);
    if i < 0 || j >= s.len() {
        seq![]
    } else {
        proof {
            lemma_skip_ws(s, i);
            lemma_skip_word(s, j);
        }
        let k = skip_word(s, j);
        seq![s.subrange(j, k)] + words_from(s, k)
    }
}

/// `str::split_whitespace`.
pub open spec fn words(s: Seq<char>) -> Seq<Seq<char>> {
    words_from(s, 0)
}

/// The characters removed by a trim.
pub enum CharClass {
    /// Unicode whitespace.
    Whitespace,
    /// Double and single quotes.
    Quotes,
    /// One given character.
    Just(char),
}

impl CharClass {
    pub open spec fn has(self, c: char) -> bool {
        match self {
            CharClass::Whitespace => is_ws(c),
            CharClass::Quotes => c == '"' || c == '\'',
            CharClass::Just(d) => c == d,
        }
    }

    /// Whether `c` is of this class.
    pub fn test(&self, c: char) -> (b: bool)
        ensures
            b == self.has(c),
    {
        match self {
            CharClass::Whitespace => is_whitespace(c),
            CharClass::Quotes => c == '"' || c == '\'',
            CharClass::Just(d) => c == *d,
        }
    }
}

/// `s` without the leading characters of class `cls`.
pub open spec fn trim_start_by(s: Seq<char>, cls: CharClass) -> Seq<char>
    decreases s.len(),
{
    if s.len() > 0 && cls.has(s[0]) {
        trim_start_by(s.drop_first(), cls)
    } else {
        s
    }
}

/// `s` without the trailing characters of class `cls`.
pub open spec fn trim_end_by(s: Seq<char>, cls: CharClass) -> Seq<char>
    decreases s.len(),
{
    if s.len() > 0 && cls.has(s.last()) {
        trim_end_by(s.drop_last(), cls)
    } else {
        s
    }
}

/// `s` without leading and trailing characters of class `cls` (`str::trim_matches`).
pub open spec fn trim_by(s: Seq<char>, cls: CharClass) -> Seq<char> {
    trim_end_by(trim_start_by(s, cls), cls)
}

/// `str::trim`.
pub open spec fn trim(s: Seq<char>) -> Seq<char> {
    trim_by(s, CharClass::Whitespace)
}

/// `s` with every leading repetition of `p` removed (`str::trim_start_matches`).
pub open spec fn strip_prefixes(s: Seq<char>, p: Seq<char>) -> Seq<char>
    decreases s.len(),
{
    if p.len() > 0 && starts_with(s, p) {
        strip_prefixes(s.skip(p.len() as int), p)
    } else {
        s
    }
}

/// The code of `c` after ASCII lower-casing.
pub open spec fn ascii_lower_code(c: char) -> u32 {
    if 'A' <= c && c <= 'Z' {
        (c as u32 + 32) as u32
    } else {
        c as u32
    }
}

/// `str::eq_ignore_ascii_case`.
pub open spec fn eq_ignore_ascii_case(a: Seq<char>, b: Seq<char>) -> bool {
    a.len() == b.len() && forall|i: int|
        0 <= i < a.len() ==> #[trigger] ascii_lower_code(a[i]) == ascii_lower_code(b[i])
}

/// Every character is ASCII.
pub open spec fn all_ascii(s: Seq<char>) -> bool {
    forall|i: int| 0 <= i < s.len() ==> (#[trigger] s[i] as u32) < 128
}

/// ASCII lower-casing of every character.
pub open spec fn ascii_lower(s: Seq<char>) -> Seq<char> {
    s.map_values(|c: char| ascii_lower_code(c) as char)
}

/// ASCII upper-casing of every character.
pub open spec fn ascii_upper(s: Seq<char>) -> Seq<char> {
    s.map_values(
        |c: char|
            if 'a' <= c && c <= 'z' {
                (c as u32 - 32) as char
            } else {
                c
            },
    )
}

// ---------------------------------------------------------------------------
// Lemmas
// ---------------------------------------------------------------------------

/// What `find_from` returns: the first occurrence at or after `i`.
pub proof fn lemma_find_from(s: Seq<char>, p: Seq<char>, i: int)
    requires
        0 <= i,
    ensures
        match find_from(s, p, i) {
            Some(j) => {
                &&& i <= j
                &&& matches_at(s, p, j)
                &&& j + p.len() <= s.len()
                &&& forall|k: int| i <= k < j ==> !matches_at(s, p, k)
            },
            None => forall|k: int| i <= k ==> !matches_at(s, p, k),
        },
    decreases s.len() + 1 - i,
{
    if i < 0 || i + p.len() > s.len() {
    } else if matches_at(s, p, i) {
    } else {
        lemma_find_from(s, p, i + 1);
    }
}

/// A text that is `a`, then `p`, then `b`, contains `p`.
pub proof fn lemma_contains_middle(a: Seq<char>, p: Seq<char>, b: Seq<char>)
    ensures
        contains(a + p + b, p),
{
    let s = a + p + b;
    assert(s.subrange(a.len() as int, (a.len() + p.len()) as int) =~= p);
    lemma_find_from(s, p, 0);
    assert(matches_at(s, p, a.len() as int));
}

/// A text starting with `p` does not start with a `q` whose first character differs.
pub proof fn lemma_starts_differ(s: Seq<char>, p: Seq<char>, q: Seq<char>)
    requires
        starts_with(s, p),
        p.len() > 0,
        q.len() > 0,
        p[0] != q[0],
    ensures
        !starts_with(s, q),
{
    assert(s.subrange(0, p.len() as int)[0] == s[0]);
    if starts_with(s, q) {
        assert(s.subrange(0, q.len() as int)[0] == s[0]);
    }
}

/// An occurrence at `j` with none in `[i, j)` is what `find_from` finds.
pub proof fn lemma_find_from_first(s: Seq<char>, p: Seq<char>, i: int, j: int)
    requires
        0 <= i <= j,
        matches_at(s, p, j),
        forall|k: int| i <= k < j ==> !matches_at(s, p, k),
    ensures
        find_from(s, p, i) == Some(j),
    decreases j - i,
{
    if i < j {
        lemma_find_from_first(s, p, i + 1, j);
    }
}

/// Trimming never lengthens a text.
pub proof fn lemma_trim_by_len(s: Seq<char>, cls: CharClass)
    ensures
        trim_start_by(s, cls).len() <= s.len(),
        trim_end_by(s, cls).len() <= s.len(),
        trim_by(s, cls).len() <= s.len(),
    decreases s.len(),
{
    if s.len() > 0 {
        lemma_trim_by_len(s.drop_first(), cls);
        lemma_trim_by_len(s.drop_last(), cls);
    }
    lemma_trim_end_len(trim_start_by(s, cls), cls);
}

proof fn lemma_trim_end_len(s: Seq<char>, cls: CharClass)
    ensures
        trim_end_by(s, cls).len() <= s.len(),
    decreases s.len(),
{
    if s.len() > 0 {
        lemma_trim_end_len(s.drop_last(), cls);
    }
}

pub proof fn lemma_skip_ws(s: Seq<char>, i: int)
    ensures
        i <= skip_ws(s, i),
        0 <= i <= s.len() ==> skip_ws(s, i) <= s.len(),
        0 <= i ==> (skip_ws(s, i) < s.len() ==> !is_ws(s[skip_ws(s, i)])),
        forall|k: int| i <= k < skip_ws(s, i) ==> is_ws(#[trigger] s[k]),
    decreases s.len() - i,
{
    if 0 <= i < s.len() && is_ws(s[i]) {
        lemma_skip_ws(s, i + 1);
    }
}

pub proof fn lemma_skip_word(s: Seq<char>, i: int)
    ensures
        i <= skip_word(s, i),
        0 <= i < s.len() && !is_ws(s[i]) ==> i < skip_word(s, i),
        0 <= i <= s.len() ==> skip_word(s, i) <= s.len(),
        0 <= i ==> (skip_word(s, i) < s.len() ==> is_ws(s[skip_word(s, i)])),
        forall|k: int| i <= k < skip_word(s, i) ==> !is_ws(#[trigger] s[k]),
    decreases s.len() - i,
{
    if 0 <= i < s.len() && !is_ws(s[i]) {
        lemma_skip_word(s, i + 1);
    }
}

// ---------------------------------------------------------------------------
// Executable operations
// ---------------------------------------------------------------------------

/// Appends one character to a string.
#[verifier::external_body]
pub(crate) fn push_char(s: &mut String, c: char)
    ensures
        final(s)@ == old(s)@.push(c),
{
    s.push(c);
}

/// `char::is_whitespace`.
pub fn is_whitespace(c: char) -> (b: bool)
    ensures
        b == is_ws(c),
{
    ('\u{9}' <= c && c <= '\u{d}') || c == ' ' || c == '\u{85}' || c == '\u{a0}' || c
        == '\u{1680}' || ('\u{2000}' <= c && c <= '\u{200a}') || c == '\u{2028}' || c
        == '\u{2029}' || c == '\u{202f}' || c == '\u{205f}' || c == '\u{3000}'
}

/// The characters of a string slice, in order.
pub fn chars_of(s: &str) -> (v: Vec<char>)
    ensures
        v@ == s@,
{
    let mut v: Vec<char> = Vec::new();
    for c in it: s.chars()
        invariant
            v@ == it.seq().take(it.index() as int),
            it.seq() == s@,
    {
        v.push(c);
    }
    v
}

/// A string holding `s[lo..hi]`.
pub fn string_of(s: &[char], lo: usize, hi: usize) -> (r: String)
    requires
        lo <= hi <= s@.len(),
    ensures
        r@ == s@.subrange(lo as int, hi as int),
{
    let mut r = String::new();
    let mut i = lo;
    while i < hi
        invariant
            lo <= i <= hi <= s@.len(),
            r@ == s@.subrange(lo as int, i as int),
        decreases hi - i,
    {
        push_char(&mut r, s[i]);
        assert(s@.subrange(lo as int, i + 1) == s@.subrange(lo as int, i as int).push(s@[i as int]));
        i = i + 1;
    }
    r
}

/// Whether `p` occurs in `s` at index `i`.
pub fn matches_at_exec(s: &[char], p: &[char], i: usize) -> (b: bool)
    ensures
        b == matches_at(s@, p@, i as int),
{
    if i > s.len() || p.len() > s.len() - i {
        return false;
    }
    let mut k: usize = 0;
    while k < p.len()
        invariant
            i + p@.len() <= s@.len(),
            i + p.len() <= s.len(),
            k <= p@.len(),
            forall|m: int| 0 <= m < k ==> s@[i + m] == p@[m],
        decreases p.len() - k,
    {
        if s[i + k] != p[k] {
            assert(s@.subrange(i as int, i + p@.len())[k as int] != p@[k as int]);
            return false;
        }
        k = k + 1;
    }
    assert(s@.subrange(i as int, i + p@.len()) =~= p@);
    true
}

/// The view of an optional index.
pub open spec fn opt_int(r: Option<usize>) -> Option<int> {
    match r {
        Some(i) => Some(i as int),
        None => None,
    }
}

/// The first occurrence of `p` in `s` at or after `start`.
pub fn find_from_exec(s: &[char], p: &[char], start: usize) -> (r: Option<usize>)
    ensures
        opt_int(r) == find_from(s@, p@, start as int),
{
    if p.len() == 0 {
        if start <= s.len() {
            assert(s@.subrange(start as int, start as int) =~= p@);
            return Some(start);
        }
        return None;
    }
    let mut i = start;
    while i <= s.len() && p.len() <= s.len() - i
        invariant
            start <= i,
            p@.len() > 0,
            find_from(s@, p@, start as int) == find_from(s@, p@, i as int),
        decreases s.len() + 1 - i,
    {
        if matches_at_exec(s, p, i) {
            return Some(i);
        }
        i = i + 1;
    }
    None
}

/// Whether `s` begins with `p`.
pub fn starts_with_exec(s: &[char], p: &[char]) -> (b: bool)
    ensures
        b == starts_with(s@, p@),
{
    matches_at_exec(s, p, 0)
}

/// Whether `p` occurs in `s`.
pub fn contains_exec(s: &[char], p: &[char]) -> (b: bool)
    ensures
        b == contains(s@, p@),
{
    find_from_exec(s, p, 0).is_some()
}

/// Whether two strings are equal.
pub fn str_eq(a: &str, b: &str) -> (r: bool)
    ensures
        r == (a@ == b@),
{
    let x = chars_of(a);
    let y = chars_of(b);
    seq_eq(x.as_slice(), y.as_slice())
}

/// Every piece that `split_from` yields is no longer than the text.
pub proof fn lemma_split_piece_len(s: Seq<char>, sep: Seq<char>, start: int)
    requires
        0 <= start <= s.len(),
    ensures
        forall|k: int|
            0 <= k < split_from(s, sep, start).len() ==> (#[trigger] split_from(s, sep, start)[k]).len()
                <= s.len(),
    decreases s.len() - start,
{
    if sep.len() == 0 || start < 0 || start > s.len() {
    } else {
        lemma_find_from(s, sep, start);
        match find_from(s, sep, start) {
            Some(j) => {
                lemma_split_piece_len(s, sep, j + sep.len());
                let rest = split_from(s, sep, j + sep.len());
                assert forall|k: int| 0 <= k < split_from(s, sep, start).len() implies (
                #[trigger] split_from(s, sep, start)[k]).len() <= s.len() by {
                    if k > 0 {
                        assert(split_from(s, sep, start)[k] == rest[k - 1]);
                    }
                }
            },
            None => {},
        }
    }
}

/// An occurrence inside a piece of `s` is an occurrence in `s`.
pub proof fn lemma_matches_in_subrange(s: Seq<char>, p: Seq<char>, a: int, b: int, k: int)
    requires
        0 <= a <= b <= s.len(),
        matches_at(s.subrange(a, b), p, k),
    ensures
        matches_at(s, p, a + k),
{
    assert(s.subrange(a, b).subrange(k, k + p.len()) =~= s.subrange(a + k, a + k + p.len()));
}

/// Searching `a + b` from a point inside `b` finds what searching `b` finds, shifted by `a`.
pub proof fn lemma_find_from_shift(a: Seq<char>, b: Seq<char>, p: Seq<char>, i: int)
    requires
        0 <= i,
    ensures
        find_from(a + b, p, a.len() + i) == match find_from(b, p, i) {
            Some(j) => Some(a.len() + j),
            None => None,
        },
    decreases b.len() + 1 - i,
{
    let s = a + b;
    let n = a.len() as int;
    if i + p.len() > b.len() {
    } else {
        assert(s.subrange(n + i, n + i + p.len()) =~= b.subrange(i, i + p.len()));
        if !matches_at(b, p, i) {
            lemma_find_from_shift(a, b, p, i + 1);
            assert(n + (i + 1) == n + i + 1);
        }
    }
}

/// Splitting `a + b` from a point inside `b` yields the pieces of `b` from there.
pub proof fn lemma_split_from_shift(a: Seq<char>, b: Seq<char>, sep: Seq<char>, i: int)
    requires
        0 <= i <= b.len(),
        sep.len() > 0,
    ensures
        split_from(a + b, sep, a.len() + i) == split_from(b, sep, i),
    decreases b.len() - i,
{
    let s = a + b;
    let n = a.len() as int;
    lemma_find_from_shift(a, b, sep, i);
    lemma_find_from(b, sep, i);
    match find_from(b, sep, i) {
        Some(j) => {
            assert(s.subrange(n + i, n + j) =~= b.subrange(i, j));
            lemma_split_from_shift(a, b, sep, j + sep.len());
            assert(n + j + sep.len() == n + (j + sep.len()));
        },
        None => {
            assert(s.subrange(n + i, s.len() as int) =~= b.subrange(i, b.len() as int));
        },
    }
}

/// No piece that `split_from` yields holds the separator.
pub proof fn lemma_split_pieces_lack_sep(s: Seq<char>, sep: Seq<char>, start: int)
    requires
        0 <= start <= s.len(),
        sep.len() > 0,
    ensures
        forall|i: int, k: int|
            #![trigger matches_at(split_from(s, sep, start)[i], sep, k)]
            0 <= i < split_from(s, sep, start).len() ==> !matches_at(
                split_from(s, sep, start)[i],
                sep,
                k,
            ),
    decreases s.len() - start,
{
    lemma_find_from(s, sep, start);
    match find_from(s, sep, start) {
        Some(j) => {
            lemma_split_pieces_lack_sep(s, sep, j + sep.len());
            let rest = split_from(s, sep, j + sep.len());
            assert forall|i: int, k: int|
                #![trigger matches_at(split_from(s, sep, start)[i], sep, k)]
                0 <= i < split_from(s, sep, start).len() implies !matches_at(
                split_from(s, sep, start)[i],
                sep,
                k,
            ) by {
                if i > 0 {
                    assert(split_from(s, sep, start)[i] == rest[i - 1]);
                } else if matches_at(s.subrange(start, j), sep, k) {
                    lemma_matches_in_subrange(s, sep, start, j, k);
                }
            }
        },
        None => {
            assert forall|i: int, k: int|
                #![trigger matches_at(split_from(s, sep, start)[i], sep, k)]
                0 <= i < split_from(s, sep, start).len() implies !matches_at(
                split_from(s, sep, start)[i],
                sep,
                k,
            ) by {
                if matches_at(s.subrange(start, s.len() as int), sep, k) {
                    lemma_matches_in_subrange(s, sep, start, s.len() as int, k);
                }
            }
        },
    }
}

/// Every piece that `split_from` yields of an ASCII text is ASCII.
pub proof fn lemma_split_pieces_ascii(s: Seq<char>, sep: Seq<char>, start: int)
    requires
        0 <= start <= s.len(),
        all_ascii(s),
    ensures
        forall|i: int|
            0 <= i < split_from(s, sep, start).len() ==> all_ascii(#[trigger] split_from(s, sep, start)[i]),
    decreases s.len() - start,
{
    if sep.len() == 0 {
        let p = s.subrange(start, s.len() as int);
        assert forall|k: int| 0 <= k < p.len() implies (#[trigger] p[k] as u32) < 128 by {
            assert(p[k] == s[start + k]);
        }
    } else {
        lemma_find_from(s, sep, start);
        match find_from(s, sep, start) {
            Some(j) => {
                lemma_split_pieces_ascii(s, sep, j + sep.len());
                let rest = split_from(s, sep, j + sep.len());
                let p = s.subrange(start, j);
                assert forall|k: int| 0 <= k < p.len() implies (#[trigger] p[k] as u32) < 128 by {
                    assert(p[k] == s[start + k]);
                }
                assert forall|i: int| 0 <= i < split_from(s, sep, start).len() implies all_ascii(
                    #[trigger] split_from(s, sep, start)[i],
                ) by {
                    if i > 0 {
                        assert(split_from(s, sep, start)[i] == rest[i - 1]);
                    }
                }
            },
            None => {
                let p = s.subrange(start, s.len() as int);
                assert forall|k: int| 0 <= k < p.len() implies (#[trigger] p[k] as u32) < 128 by {
                    assert(p[k] == s[start + k]);
                }
            },
        }
    }
}

/// `trim_start_by` keeps a suffix, which is empty or starts outside the class.
pub proof fn lemma_trim_start_suffix(s: Seq<char>, cls: CharClass) -> (i: int)
    ensures
        0 <= i <= s.len(),
        trim_start_by(s, cls) == s.subrange(i, s.len() as int),
        i < s.len() ==> !cls.has(s[i]),
        forall|k: int| 0 <= k < i ==> cls.has(#[trigger] s[k]),
    decreases s.len(),
{
    if s.len() > 0 && cls.has(s[0]) {
        let i0 = lemma_trim_start_suffix(s.drop_first(), cls);
        assert(s.drop_first().subrange(i0, s.len() - 1) =~= s.subrange(i0 + 1, s.len() as int));
        assert forall|k: int| 0 <= k < i0 + 1 implies cls.has(#[trigger] s[k]) by {
            if k > 0 {
                assert(s[k] == s.drop_first()[k - 1]);
            }
        }
        i0 + 1
    } else {
        assert(s.subrange(0, s.len() as int) =~= s);
        0
    }
}

/// `trim_end_by` keeps a prefix, which is empty or ends outside the class.
pub proof fn lemma_trim_end_prefix(s: Seq<char>, cls: CharClass) -> (j: int)
    ensures
        0 <= j <= s.len(),
        trim_end_by(s, cls) == s.subrange(0, j),
        j > 0 ==> !cls.has(s[j - 1]),
        forall|k: int| j <= k < s.len() ==> cls.has(#[trigger] s[k]),
    decreases s.len(),
{
    if s.len() > 0 && cls.has(s.last()) {
        let j0 = lemma_trim_end_prefix(s.drop_last(), cls);
        assert(s.drop_last().subrange(0, j0) =~= s.subrange(0, j0));
        assert forall|k: int| j0 <= k < s.len() implies cls.has(#[trigger] s[k]) by {
            if k < s.len() - 1 {
                assert(s[k] == s.drop_last()[k]);
            }
        }
        j0
    } else {
        assert(s.subrange(0, s.len() as int) =~= s);
        s.len() as int
    }
}

/// `trim_by` keeps a piece of the text.
pub proof fn lemma_trim_by_piece(s: Seq<char>, cls: CharClass) -> (r: (int, int))
    ensures
        0 <= r.0 <= r.1 <= s.len(),
        trim_by(s, cls) == s.subrange(r.0, r.1),
{
    let i = lemma_trim_start_suffix(s, cls);
    let t = trim_start_by(s, cls);
    let j = lemma_trim_end_prefix(t, cls);
    assert(t.subrange(0, j) =~= s.subrange(i, i + j));
    (i, i + j)
}

/// A text that neither begins nor ends with a character of the class is
/// its own trim.
pub proof fn lemma_trim_by_fixed(s: Seq<char>, cls: CharClass)
    requires
        s.len() == 0 || (!cls.has(s[0]) && !cls.has(s.last())),
    ensures
        trim_by(s, cls) == s,
{
}

/// Reading lines of `a + b` from a point inside `b` yields the lines of `b` from there.
pub proof fn lemma_lines_from_shift(a: Seq<char>, b: Seq<char>, i: int)
    requires
        0 <= i <= b.len(),
    ensures
        lines_from(a + b, a.len() + i) == lines_from(b, i),
    decreases b.len() - i,
{
    let s = a + b;
    let n = a.len() as int;
    if i < b.len() {
        lemma_find_from_shift(a, b, seq!['\n'], i);
        lemma_find_from(b, seq!['\n'], i);
        match find_from(b, seq!['\n'], i) {
            Some(j) => {
                assert(s.subrange(n + i, n + j) =~= b.subrange(i, j));
                lemma_lines_from_shift(a, b, j + 1);
                assert(n + j + 1 == n + (j + 1));
            },
            None => {
                assert(s.subrange(n + i, s.len() as int) =~= b.subrange(i, b.len() as int));
            },
        }
    }
}

/// A line without line feed, then CRLF, then more: `lines` yields the line,
/// then the lines of the rest.
pub proof fn lemma_lines_line(l: Seq<char>, rest: Seq<char>)
    requires
        forall|k: int| 0 <= k < l.len() ==> #[trigger] l[k] != '\n',
    ensures
        lines(l + seq!['\r', '\n'] + rest) == seq![l] + lines(rest),
{
    let p = l + seq!['\r', '\n'];
    let m = p + rest;
    let n = l.len() as int;
    assert(m.subrange(n + 1, n + 2) =~= seq!['\n']);
    assert forall|k: int| 0 <= k < n + 1 implies !matches_at(m, seq!['\n'], k) by {
        if matches_at(m, seq!['\n'], k) {
            assert(m.subrange(k, k + 1)[0] == m[k]);
            if k < n {
                assert(m[k] == l[k]);
            }
        }
    }
    lemma_find_from_first(m, seq!['\n'], 0, n + 1);
    assert(m.subrange(0, n + 1) =~= l.push('\r'));
    assert(l.push('\r').drop_last() =~= l);
    lemma_lines_from_shift(p, rest, 0);
}

/// Skipping whitespace in `a + b` from inside `b` is skipping it in `b`.
pub proof fn lemma_skip_ws_shift(a: Seq<char>, b: Seq<char>, i: int)
    requires
        0 <= i <= b.len(),
    ensures
        skip_ws(a + b, a.len() + i) == a.len() + skip_ws(b, i),
    decreases b.len() - i,
{
    if i < b.len() && is_ws(b[i]) {
        assert((a + b)[a.len() + i] == b[i]);
        lemma_skip_ws_shift(a, b, i + 1);
        assert(a.len() + i + 1 == a.len() + (i + 1));
    } else if i < b.len() {
        assert((a + b)[a.len() + i] == b[i]);
    }
}

/// Skipping a word in `a + b` from inside `b` is skipping it in `b`.
pub proof fn lemma_skip_word_shift(a: Seq<char>, b: Seq<char>, i: int)
    requires
        0 <= i <= b.len(),
    ensures
        skip_word(a + b, a.len() + i) == a.len() + skip_word(b, i),
    decreases b.len() - i,
{
    if i < b.len() && !is_ws(b[i]) {
        assert((a + b)[a.len() + i] == b[i]);
        lemma_skip_word_shift(a, b, i + 1);
        assert(a.len() + i + 1 == a.len() + (i + 1));
    } else if i < b.len() {
        assert((a + b)[a.len() + i] == b[i]);
    }
}

/// The words of `a + b` from a point inside `b` are the words of `b` from there.
pub proof fn lemma_words_from_shift(a: Seq<char>, b: Seq<char>, i: int)
    requires
        0 <= i <= b.len(),
    ensures
        words_from(a + b, a.len() + i) == words_from(b, i),
    decreases b.len() - i,
{
    let s = a + b;
    let n = a.len() as int;
    lemma_skip_ws_shift(a, b, i);
    lemma_skip_ws(b, i);
    let j = skip_ws(b, i);
    if j < b.len() {
        lemma_skip_word_shift(a, b, j);
        lemma_skip_word(b, j);
        let k = skip_word(b, j);
        assert(s.subrange(n + j, n + k) =~= b.subrange(j, k));
        lemma_words_from_shift(a, b, k);
    }
}

/// A word, a space, and more: `split_whitespace` yields the word, then the
/// words of the rest.
pub proof fn lemma_words_word(w: Seq<char>, rest: Seq<char>)
    requires
        w.len() > 0,
        forall|k: int| 0 <= k < w.len() ==> !is_ws(#[trigger] w[k]),
    ensures
        words(w + seq![' '] + rest) == seq![w] + words(rest),
{
    let p = w + seq![' '];
    let s = p + rest;
    let n = w.len() as int;
    assert(s[0] == w[0]);
    lemma_skip_word(s, 0);
    let k = skip_word(s, 0);
    assert(s[n] == ' ');
    if k < n {
        assert(s[k] == w[k]);
    }
    if k > n {
        assert(!is_ws(s[n]));
    }
    assert(k == n);
    assert(s.subrange(0, n) =~= w);
    assert(skip_ws(s, 0) == 0);
    assert(skip_ws(s, n) == skip_ws(s, n + 1));
    assert(words_from(s, n) == words_from(s, n + 1));
    lemma_words_from_shift(p, rest, 0);
    assert(words_from(s, 0) == seq![w] + words_from(s, n));
}

/// A single word without whitespace is its only word.
pub proof fn lemma_words_single(w: Seq<char>)
    requires
        w.len() > 0,
        forall|k: int| 0 <= k < w.len() ==> !is_ws(#[trigger] w[k]),
    ensures
        words(w) == seq![w],
{
    lemma_skip_word(w, 0);
    let k = skip_word(w, 0);
    if k < w.len() {
        assert(!is_ws(w[k]));
    }
    assert(k == w.len());
    assert(skip_ws(w, 0) == 0);
    assert(skip_ws(w, w.len() as int) == w.len());
    assert(words_from(w, w.len() as int) == Seq::<Seq<char>>::empty());
    assert(w.subrange(0, w.len() as int) =~= w);
    assert(words_from(w, 0) == seq![w] + words_from(w, w.len() as int));
}

/// The text is empty or neither begins nor ends with whitespace.
pub open spec fn is_trimmed(s: Seq<char>) -> bool {
    s.len() == 0 || (!is_ws(s[0]) && !is_ws(s.last()))
}

/// `trim` keeps a piece of the text, and what it keeps is trimmed.
pub proof fn lemma_trim_piece(s: Seq<char>) -> (r: (int, int))
    ensures
        0 <= r.0 <= r.1 <= s.len(),
        trim(s) == s.subrange(r.0, r.1),
        is_trimmed(trim(s)),
{
    let i = lemma_trim_start_suffix(s, CharClass::Whitespace);
    let t = trim_start_by(s, CharClass::Whitespace);
    let j = lemma_trim_end_prefix(t, CharClass::Whitespace);
    assert(t.subrange(0, j) =~= s.subrange(i, i + j));
    if j > 0 {
        assert(s.subrange(i, i + j)[0] == t[0]);
    }
    (i, i + j)
}

/// Trimming a space followed by a trimmed text gives that text back.
pub proof fn lemma_trim_space_prefix(v: Seq<char>)
    requires
        is_trimmed(v),
    ensures
        trim(seq![' '] + v) == v,
{
    let s = seq![' '] + v;
    assert(s.drop_first() =~= v);
    assert(trim_start_by(s, CharClass::Whitespace) == trim_start_by(v, CharClass::Whitespace));
    if v.len() > 0 {
        assert(trim_end_by(v, CharClass::Whitespace) == v);
    }
}

/// Whether two character sequences are equal.
pub fn seq_eq(a: &[char], b: &[char]) -> (r: bool)
    ensures
        r == (a@ == b@),
{
    if a.len() != b.len() {
        return false;
    }
    let r = matches_at_exec(a, b, 0);
    assert(a@ =~= a@.subrange(0, b@.len() as int));
    r
}

/// The pieces of `s` between occurrences of a non-empty `sep`.
pub fn split_exec(s: &[char], sep: &[char]) -> (r: Vec<Vec<char>>)
    requires
        sep@.len() > 0,
    ensures
        r@.map_values(|v: Vec<char>| v@) == split(s@, sep@),
{
    let mut r: Vec<Vec<char>> = Vec::new();
    let mut start: usize = 0;
    loop
        invariant
            sep@.len() > 0,
            start <= s@.len(),
            r@.map_values(|v: Vec<char>| v@) + split_from(s@, sep@, start as int) == split(
                s@,
                sep@,
            ),
        decreases s@.len() - start,
    {
        let found = find_from_exec(s, sep, start);
        proof {
            lemma_find_from(s@, sep@, start as int);
        }
        match found {
            Some(j) => {
                assert(find_from(s@, sep@, start as int) == Some(j as int));
                assert(j + sep@.len() <= s@.len());
                let slen = s.len();
                assert(j + sep.len() <= slen);
                let piece = slice_range(s, start, j);
                let ghost old_r = r@;
                r.push(piece);
                assert(r@.map_values(|v: Vec<char>| v@) =~= old_r.map_values(|v: Vec<char>| v@).push(
                    s@.subrange(start as int, j as int),
                ));
                start = j + sep.len();
            },
            None => {
                let piece = slice_range(s, start, s.len());
                let ghost old_r = r@;
                r.push(piece);
                assert(r@.map_values(|v: Vec<char>| v@) =~= old_r.map_values(|v: Vec<char>| v@).push(
                    s@.subrange(start as int, s@.len() as int),
                ));
                return r;
            },
        }
    }
}

/// A copy of `s[lo..hi]`.
pub fn slice_range(s: &[char], lo: usize, hi: usize) -> (r: Vec<char>)
    requires
        lo <= hi <= s@.len(),
    ensures
        r@ == s@.subrange(lo as int, hi as int),
{
    let mut r: Vec<char> = Vec::new();
    let mut i = lo;
    while i < hi
        invariant
            lo <= i <= hi <= s@.len(),
            r@ == s@.subrange(lo as int, i as int),
        decreases hi - i,
    {
        r.push(s[i]);
        assert(s@.subrange(lo as int, i + 1) == s@.subrange(lo as int, i as int).push(s@[i as int]));
        i = i + 1;
    }
    r
}


/// The bounds of `s[lo..hi]` with leading and trailing characters of class `cls` removed.
pub fn trim_range(s: &[char], lo: usize, hi: usize, cls: &CharClass) -> (r: (usize, usize))
    requires
        lo <= hi <= s@.len(),
    ensures
        lo <= r.0 <= r.1 <= hi,
        s@.subrange(r.0 as int, r.1 as int) == trim_by(s@.subrange(lo as int, hi as int), *cls),
{
    let mut a = lo;
    while a < hi && cls.test(s[a])
        invariant
            lo <= a <= hi <= s@.len(),
            trim_start_by(s@.subrange(lo as int, hi as int), *cls) == trim_start_by(
                s@.subrange(a as int, hi as int),
                *cls,
            ),
        decreases hi - a,
    {
        assert(s@.subrange(a as int, hi as int).drop_first() =~= s@.subrange(a + 1, hi as int));
        a = a + 1;
    }
    let mut b = hi;
    while b > a && cls.test(s[b - 1])
        invariant
            lo <= a <= b <= hi <= s@.len(),
            trim_start_by(s@.subrange(lo as int, hi as int), *cls) == s@.subrange(
                a as int,
                hi as int,
            ),
            trim_end_by(s@.subrange(a as int, hi as int), *cls) == trim_end_by(
                s@.subrange(a as int, b as int),
                *cls,
            ),
        decreases b - a,
    {
        assert(s@.subrange(a as int, b as int).drop_last() =~= s@.subrange(a as int, b - 1));
        b = b - 1;
    }
    (a, b)
}

/// The index after every leading repetition of a non-empty `p` in `s`.
pub fn strip_prefixes_exec(s: &[char], p: &[char]) -> (r: usize)
    requires
        p@.len() > 0,
    ensures
        r <= s@.len(),
        s@.skip(r as int) == strip_prefixes(s@, p@),
{
    let mut pos: usize = 0;
    assert(s@.skip(0) =~= s@);
    while matches_at_exec(s, p, pos)
        invariant
            p@.len() > 0,
            pos <= s@.len(),
            strip_prefixes(s@, p@) == strip_prefixes(s@.skip(pos as int), p@),
        decreases s@.len() - pos,
    {
        let slen = s.len();
        assert(pos + p.len() <= slen);
        assert(s@.skip(pos as int).subrange(0, p@.len() as int) =~= s@.subrange(
            pos as int,
            pos + p@.len(),
        ));
        assert(s@.skip(pos as int).skip(p@.len() as int) =~= s@.skip(pos + p@.len()));
        pos = pos + p.len();
    }
    proof {
        if starts_with(s@.skip(pos as int), p@) {
            assert(s@.skip(pos as int).subrange(0, p@.len() as int) =~= s@.subrange(
                pos as int,
                pos + p@.len(),
            ));
        }
    }
    pos
}

/// The lines of `s`, as `str::lines` yields them.
pub fn lines_exec(s: &[char]) -> (r: Vec<Vec<char>>)
    ensures
        r@.map_values(|v: Vec<char>| v@) == lines(s@),
{
    let mut r: Vec<Vec<char>> = Vec::new();
    let mut start: usize = 0;
    let nl: Vec<char> = vec!['\n'];
    assert(nl@ =~= seq!['\n']);
    while start < s.len()
        invariant
            nl@ == seq!['\n'],
            start <= s@.len(),
            r@.map_values(|v: Vec<char>| v@) + lines_from(s@, start as int) == lines(s@),
        decreases s@.len() - start,
    {
        let found = find_from_exec(s, nl.as_slice(), start);
        proof {
            lemma_find_from(s@, seq!['\n'], start as int);
        }
        let ghost old_r = r@;
        match found {
            Some(j) => {
                assert(find_from(s@, seq!['\n'], start as int) == Some(j as int));
                let end = if j > start && s[j - 1] == '\r' {
                    j - 1
                } else {
                    j
                };
                let piece = slice_range(s, start, end);
                assert(piece@ == strip_cr(s@.subrange(start as int, j as int)));
                r.push(piece);
                assert(r@.map_values(|v: Vec<char>| v@) =~= old_r.map_values(|v: Vec<char>| v@).push(
                    strip_cr(s@.subrange(start as int, j as int)),
                ));
                start = j + 1;
            },
            None => {
                let piece = slice_range(s, start, s.len());
                r.push(piece);
                assert(r@.map_values(|v: Vec<char>| v@) =~= old_r.map_values(|v: Vec<char>| v@).push(
                    s@.subrange(start as int, s@.len() as int),
                ));
                assert(lines_from(s@, s@.len() as int) == Seq::<Seq<char>>::empty());
                start = s.len();
            },
        }
    }
    assert(r@.map_values(|v: Vec<char>| v@) =~= lines(s@));
    r
}

/// The whitespace-separated words of `s`, as `str::split_whitespace` yields them.
pub fn words_exec(s: &[char]) -> (r: Vec<Vec<char>>)
    ensures
        r@.map_values(|v: Vec<char>| v@) == words(s@),
{
    let mut r: Vec<Vec<char>> = Vec::new();
    let mut i: usize = 0;
    loop
        invariant
            i <= s@.len(),
            r@.map_values(|v: Vec<char>| v@) + words_from(s@, i as int) == words(s@),
        decreases s@.len() - i,
    {
        let mut j = i;
        while j < s.len() && is_whitespace(s[j])
            invariant
                i <= j <= s@.len(),
                skip_ws(s@, i as int) == skip_ws(s@, j as int),
            decreases s@.len() - j,
        {
            j = j + 1;
        }
        if j >= s.len() {
            assert(words_from(s@, i as int) == Seq::<Seq<char>>::empty());
            assert(r@.map_values(|v: Vec<char>| v@) =~= words(s@));
            return r;
        }
        let mut k = j;
        while k < s.len() && !is_whitespace(s[k])
            invariant
                j <= k <= s@.len(),
                skip_word(s@, j as int) == skip_word(s@, k as int),
            decreases s@.len() - k,
        {
            k = k + 1;
        }
        proof {
            lemma_skip_ws(s@, i as int);
            lemma_skip_word(s@, j as int);
        }
        let piece = slice_range(s, j, k);
        let ghost old_r = r@;
        r.push(piece);
        assert(r@.map_values(|v: Vec<char>| v@) =~= old_r.map_values(|v: Vec<char>| v@).push(
            s@.subrange(j as int, k as int),
        ));
        i = k;
    }
}

/// `str::eq_ignore_ascii_case`.
pub fn eq_ignore_ascii_case_exec(a: &[char], b: &[char]) -> (r: bool)
    ensures
        r == eq_ignore_ascii_case(a@, b@),
{
    if a.len() != b.len() {
        return false;
    }
    let mut i: usize = 0;
    while i < a.len()
        invariant
            a@.len() == b@.len(),
            i <= a@.len(),
            forall|m: int| 0 <= m < i ==> #[trigger] ascii_lower_code(a@[m]) == ascii_lower_code(b@[m]),
        decreases a@.len() - i,
    {
        let x = a[i];
        let y = b[i];
        let lx: u32 = if 'A' <= x && x <= 'Z' { x as u32 + 32 } else { x as u32 };
        let ly: u32 = if 'A' <= y && y <= 'Z' { y as u32 + 32 } else { y as u32 };
        if lx != ly {
            assert(ascii_lower_code(a@[i as int]) != ascii_lower_code(b@[i as int]));
            return false;
        }
        i = i + 1;
    }
    true
}

/// The lower-case form of a string, as `str::to_lowercase` computes it.
pub uninterp spec fn lowercase_of(s: Seq<char>) -> Seq<char>;

/// The upper-case form of a string, as `str::to_uppercase` computes it.
pub uninterp spec fn uppercase_of(s: Seq<char>) -> Seq<char>;

/// Calls `str::to_lowercase`. The result is named `lowercase_of`; on ASCII text
/// it is the ASCII lower-casing, which is what the Unicode mapping does there.
#[verifier::external_body]
pub(crate) fn to_lowercase(s: &str) -> (r: String)
    ensures
        r@ == lowercase_of(s@),
        all_ascii(s@) ==> r@ == ascii_lower(s@),
{
    s.to_lowercase()
}

/// Calls `str::to_uppercase`. The result is named `uppercase_of`; on ASCII text
/// it is the ASCII upper-casing, which is what the Unicode mapping does there.
#[verifier::external_body]
pub(crate) fn to_uppercase(s: &str) -> (r: String)
    ensures
        r@ == uppercase_of(s@),
        all_ascii(s@) ==> r@ == ascii_upper(s@),
{
    s.to_uppercase()
}

} // verus!
