//! Parsing of SIP messages, XML bodies, digest challenges and session
//! descriptions, and the version-dependent encodings of MANSCDP bodies.
use vstd::prelude::*;
use vstd::string::StringSliceAdditionalSpecFns;
use crate::codec::{
    gb_bytes, gb_encode, hex_encode, hex_lower, md5_compute,
    md5_digest, sha256_compute, sha256_digest,
};
use crate::error::{Fault, SipError};
use crate::num::{parse_i32, parse_i32_spec, parse_u32, parse_u32_spec};
use crate::text::{
    all_ascii, ascii_lower, chars_of, find_from, find_from_exec, is_trimmed, lemma_find_from,
    lemma_find_from_first, lemma_split_from_shift, lemma_split_pieces_ascii, lemma_split_pieces_lack_sep, lemma_trim_piece,
    lemma_matches_in_subrange, lemma_trim_by_fixed, lemma_trim_by_piece, lemma_trim_space_prefix,
    lines, matches_at,
    lines_exec, lowercase_of, seq_eq, split, split_exec, split_from, starts_with,
    starts_with_exec, string_of, strip_prefixes, strip_prefixes_exec, to_lowercase, trim,
    trim_by, trim_range, words, words_exec, CharClass,
};

verus! {

/// The line separator of SIP messages.
pub const LINESEP: &'static str = "\r\n";

/// The peer speaks the 2022 edition of GB/T 28181.
pub open spec fn is_2022(version: Seq<char>) -> bool {
    version == "2022"@ || version == "3.0"@
}

/// The XML declaration of MANSCDP bodies for a peer version.
pub open spec fn xml_header_spec(version: Seq<char>) -> Seq<char> {
    if is_2022(version) {
        "<?xml version=\"1.0\" encoding=\"GB18030\"?>\r\n"@
    } else {
        "<?xml version=\"1.0\" encoding=\"GB2312\"?>\r\n"@
    }
}

/// The `X-GB-Ver` value for a peer version.
pub open spec fn gb_ver_spec(version: Seq<char>) -> Seq<char> {
    if is_2022(version) {
        "3.0"@
    } else {
        "2.0"@
    }
}

fn is_2022_exec(version: &str) -> (b: bool)
    ensures
        b == is_2022(version@),
{
    let v = chars_of(version);
    let a = chars_of("2022");
    let c = chars_of("3.0");
    seq_eq(v.as_slice(), a.as_slice()) || seq_eq(v.as_slice(), c.as_slice())
}

/// The XML declaration for the peer's version: GB18030 for the 2022 edition, GB2312 otherwise.
pub fn xml_header(version: &str) -> (r: String)
    ensures
        r@ == xml_header_spec(version@),
{
    if is_2022_exec(version) {
        String::from_str("<?xml version=\"1.0\" encoding=\"GB18030\"?>\r\n")
    } else {
        String::from_str("<?xml version=\"1.0\" encoding=\"GB2312\"?>\r\n")
    }
}

/// The body bytes for the peer's version: GB18030 for the 2022 edition, GBK otherwise.
pub fn encode_xml(version: &str, xml: &str) -> (r: Vec<u8>)
    requires
        all_ascii(xml@) || xml@.len() < 0x1000_0000,
    ensures
        r@ == gb_bytes(is_2022(version@), xml@),
        all_ascii(xml@) ==> r@ == xml.spec_bytes(),
{
    gb_encode(is_2022_exec(version), xml)
}

/// The `X-GB-Ver` value for the peer's version.
pub fn gb_ver(version: &str) -> (r: &'static str)
    ensures
        r@ == gb_ver_spec(version@),
{
    if is_2022_exec(version) {
        "3.0"
    } else {
        "2.0"
    }
}

/// The lower-case hex MD5 digest of the text's UTF-8 bytes.
pub fn md5_hash(s: &str) -> (r: String)
    ensures
        r@ == hex_lower(md5_digest(s.spec_bytes())),
{
    let d = md5_compute(s.as_bytes());
    hex_encode(d.as_slice())
}

/// The lower-case hex SHA-256 digest of the text's UTF-8 bytes.
pub fn sha256_hash(s: &str) -> (r: String)
    ensures
        r@ == hex_lower(sha256_digest(s.spec_bytes())),
{
    let d = sha256_compute(s.as_bytes());
    hex_encode(d.as_slice())
}

// ---------------------------------------------------------------------------
// Message lines and headers
// ---------------------------------------------------------------------------

/// The views of a sequence of strings.
pub open spec fn views(hs: Seq<String>) -> Seq<Seq<char>> {
    hs.map_values(|h: String| h@)
}

/// The CRLF separator as characters.
pub open spec fn crlf() -> Seq<char> {
    seq!['\r', '\n']
}

/// The lines of `ls` that are not empty, in order.
pub open spec fn nonempty_lines(ls: Seq<Seq<char>>) -> Seq<Seq<char>>
    decreases ls.len(),
{
    if ls.len() == 0 {
        seq![]
    } else {
        let r = nonempty_lines(ls.drop_last());
        if ls.last().len() > 0 {
            r.push(ls.last())
        } else {
            r
        }
    }
}

/// The first line of a message: the text before the first CRLF.
pub open spec fn first_line_spec(data: Seq<char>) -> Seq<char> {
    split(data, crlf())[0]
}

/// The header lines of a message: the non-empty CRLF-separated lines after the first.
pub open spec fn header_lines_spec(data: Seq<char>) -> Seq<Seq<char>> {
    nonempty_lines(split(data, crlf()).skip(1))
}

/// `split` yields at least one piece.
pub proof fn lemma_split_nonempty(s: Seq<char>, sep: Seq<char>, start: int)
    ensures
        split_from(s, sep, start).len() >= 1,
    decreases s.len() - start,
{
    if sep.len() == 0 || start < 0 || start > s.len() {
    } else {
        match find_from(s, sep, start) {
            Some(j) => {
                lemma_find_from(s, sep, start);
                lemma_split_nonempty(s, sep, j + sep.len());
            },
            None => {},
        }
    }
}

/// Splits a message into its first line and its non-empty header lines.
/// Every text has a first line, so the result is always `Ok`.
pub fn parse_sip_lines(data: &str) -> (r: Result<(String, Vec<String>), SipError>)
    ensures
        r is Ok,
        r matches Ok((first, headers)) ==> {
            &&& first@ == first_line_spec(data@)
            &&& views(headers@) == header_lines_spec(data@)
        },
{
    let d = chars_of(data);
    let sep: Vec<char> = vec!['\r', '\n'];
    assert(sep@ =~= crlf());
    let pieces = split_exec(d.as_slice(), sep.as_slice());
    let ghost pv = pieces@.map_values(|v: Vec<char>| v@);
    proof {
        lemma_split_nonempty(d@, crlf(), 0);
    }
    assert(pieces@.len() == pv.len());
    let first = string_of(pieces[0].as_slice(), 0, pieces[0].len());
    assert(pieces[0]@.subrange(0, pieces[0]@.len() as int) =~= pieces[0]@);
    assert(pv[0] == pieces@[0]@);
    let mut headers: Vec<String> = Vec::new();
    let mut i: usize = 1;
    assert(pv.subrange(1, 1) =~= Seq::<Seq<char>>::empty());
    while i < pieces.len()
        invariant
            1 <= i <= pieces@.len(),
            pv == pieces@.map_values(|v: Vec<char>| v@),
            views(headers@) == nonempty_lines(pv.subrange(1, i as int)),
        decreases pieces@.len() - i,
    {
        let ghost prev = pv.subrange(1, i as int);
        let ghost next = pv.subrange(1, i + 1);
        assert(next.drop_last() =~= prev);
        assert(next.last() == pieces@[i as int]@);
        if pieces[i].len() > 0 {
            let h = string_of(pieces[i].as_slice(), 0, pieces[i].len());
            assert(pieces[i as int]@.subrange(0, pieces[i as int]@.len() as int) =~= pieces[i as int]@);
            let ghost old_h = headers@;
            headers.push(h);
            assert(views(headers@) =~= views(old_h).push(h@));
        }
        i = i + 1;
    }
    assert(pv.subrange(1, pieces@.len() as int) =~= pv.skip(1));
    Ok((first, headers))
}

/// The view of an optional string slice.
pub open spec fn opt_view(r: Option<&str>) -> Option<Seq<char>> {
    match r {
        Some(s) => Some(s@),
        None => None,
    }
}

/// Case folding for header names: Unicode lower-casing, or its ASCII restriction.
pub open spec fn fold_case(s: Seq<char>, ascii: bool) -> Seq<char> {
    if ascii {
        ascii_lower(s)
    } else {
        lowercase_of(s)
    }
}

/// The first header at or after `i` whose case-folded text starts with `lname`.
pub open spec fn first_header_from(hs: Seq<Seq<char>>, lname: Seq<char>, i: int, ascii: bool) -> Option<int>
    decreases hs.len() - i,
{
    if i < 0 || i >= hs.len() {
        None
    } else if starts_with(fold_case(hs[i], ascii), lname) {
        Some(i)
    } else {
        first_header_from(hs, lname, i + 1, ascii)
    }
}

/// The value of a header line: the trimmed text after its first colon.
pub open spec fn header_value(h: Seq<char>) -> Option<Seq<char>> {
    match find_from(h, seq![':'], 0) {
        Some(c) => Some(trim(h.subrange(c + 1, h.len() as int))),
        None => None,
    }
}

/// The value of the first header whose case-folded line starts with the folded name.
pub open spec fn get_header_by(hs: Seq<Seq<char>>, name: Seq<char>, ascii: bool) -> Option<Seq<char>> {
    match first_header_from(hs, fold_case(name, ascii), 0, ascii) {
        Some(i) => header_value(hs[i]),
        None => None,
    }
}

/// All the texts are ASCII.
pub open spec fn all_ascii_lines(hs: Seq<Seq<char>>) -> bool {
    forall|i: int| 0 <= i < hs.len() ==> all_ascii(#[trigger] hs[i])
}

/// The value of the first header whose lower-cased line starts with the lower-cased
/// name: the trimmed text after the line's first colon; `None` when no line matches
/// or the first match has no colon.
pub fn get_header<'a>(headers: &'a [String], name: &str) -> (r: Option<&'a str>)
    ensures
        opt_view(r) == get_header_by(views(headers@), name@, false),
        all_ascii(name@) && all_ascii_lines(views(headers@)) ==> opt_view(r) == get_header_by(
            views(headers@),
            name@,
            true,
        ),
{
    let ghost hs = views(headers@);
    let lname_s = to_lowercase(name);
    let lname = chars_of(lname_s.as_str());
    let ghost asc = all_ascii(name@) && all_ascii_lines(hs);
    let mut i: usize = 0;
    while i < headers.len()
        invariant
            i <= headers@.len(),
            hs == views(headers@),
            lname@ == lowercase_of(name@),
            all_ascii(name@) ==> lname@ == ascii_lower(name@),
            asc == (all_ascii(name@) && all_ascii_lines(hs)),
            first_header_from(hs, fold_case(name@, false), 0, false) == first_header_from(
                hs,
                fold_case(name@, false),
                i as int,
                false,
            ),
            asc ==> first_header_from(hs, fold_case(name@, true), 0, true) == first_header_from(
                hs,
                fold_case(name@, true),
                i as int,
                true,
            ),
        decreases headers@.len() - i,
    {
        let h: &'a String = &headers[i];
        assert(hs[i as int] == h@);
        let lh_s = to_lowercase(h.as_str());
        let lh = chars_of(lh_s.as_str());
        if starts_with_exec(lh.as_slice(), lname.as_slice()) {
            let hc = chars_of(h.as_str());
            let colon: Vec<char> = vec![':'];
            assert(colon@ =~= seq![':']);
            let found = find_from_exec(hc.as_slice(), colon.as_slice(), 0);
            proof {
                lemma_find_from(hc@, seq![':'], 0);
            }
            match found {
                Some(c) => {
                    assert(find_from(hc@, seq![':'], 0) == Some(c as int));
                    let hlen = hc.len();
                    assert(c + 1 <= hlen);
                    let (a, b) = trim_range(hc.as_slice(), c + 1, hc.len(), &CharClass::Whitespace);
                    let v: &'a str = h.as_str().substring_char(a, b);
                    return Some(v);
                },
                None => {
                    return None;
                },
            }
        }
        i = i + 1;
    }
    None
}

/// The text between the first `<tag>` and the next `</tag>` after it, with
/// whitespace, then quotes, then whitespace again trimmed from both ends.
pub open spec fn xml_text_spec(xml: Seq<char>, tag: Seq<char>) -> Option<Seq<char>> {
    let st = seq!['<'] + tag + seq!['>'];
    let et = seq!['<', '/'] + tag + seq!['>'];
    match find_from(xml, st, 0) {
        Some(i) => {
            let s = i + st.len();
            match find_from(xml, et, s) {
                Some(j) => Some(trim(trim_by(trim(xml.subrange(s, j)), CharClass::Quotes))),
                None => None,
            }
        },
        None => None,
    }
}

/// The trimmed text of the first `<tag>` element of an XML body.
pub fn extract_xml_text<'a>(xml: &'a str, tag: &str) -> (r: Option<&'a str>)
    ensures
        opt_view(r) == xml_text_spec(xml@, tag@),
        r matches Some(t) ==> t@.len() <= xml@.len(),
{
    let x = chars_of(xml);
    let t = chars_of(tag);
    let mut st: Vec<char> = vec!['<'];
    let mut et: Vec<char> = vec!['<', '/'];
    let mut k: usize = 0;
    while k < t.len()
        invariant
            k <= t@.len(),
            st@ == seq!['<'] + t@.subrange(0, k as int),
            et@ == seq!['<', '/'] + t@.subrange(0, k as int),
        decreases t@.len() - k,
    {
        assert(t@.subrange(0, k + 1) =~= t@.subrange(0, k as int).push(t@[k as int]));
        st.push(t[k]);
        et.push(t[k]);
        k = k + 1;
    }
    st.push('>');
    et.push('>');
    assert(t@.subrange(0, t@.len() as int) =~= t@);
    assert(st@ =~= seq!['<'] + tag@ + seq!['>']);
    assert(et@ =~= seq!['<', '/'] + tag@ + seq!['>']);
    let found = find_from_exec(x.as_slice(), st.as_slice(), 0);
    proof {
        lemma_find_from(x@, st@, 0);
    }
    match found {
        None => None,
        Some(i) => {
            assert(find_from(x@, st@, 0) == Some(i as int));
            let xlen = x.len();
            assert(i + st.len() <= xlen);
            let s = i + st.len();
            let found2 = find_from_exec(x.as_slice(), et.as_slice(), s);
            proof {
                lemma_find_from(x@, et@, s as int);
            }
            match found2 {
                None => None,
                Some(j) => {
                    assert(find_from(x@, et@, s as int) == Some(j as int));
                    let (a1, b1) = trim_range(x.as_slice(), s, j, &CharClass::Whitespace);
                    let (a2, b2) = trim_range(x.as_slice(), a1, b1, &CharClass::Quotes);
                    let (a3, b3) = trim_range(x.as_slice(), a2, b2, &CharClass::Whitespace);
                    Some(xml.substring_char(a3, b3))
                },
            }
        },
    }
}

// ---------------------------------------------------------------------------
// Digest challenges
// ---------------------------------------------------------------------------

/// The parameters of a digest challenge, by lower-cased name; a later
/// parameter of the same name replaces an earlier one.
pub struct AuthParams {
    entries: Vec<(String, String)>,
}

/// The map that inserting the pairs in order builds.
pub open spec fn pairs_map(s: Seq<(String, String)>) -> Map<Seq<char>, Seq<char>>
    decreases s.len(),
{
    if s.len() == 0 {
        Map::empty()
    } else {
        pairs_map(s.drop_last()).insert(s.last().0@, s.last().1@)
    }
}

impl View for AuthParams {
    type V = Map<Seq<char>, Seq<char>>;

    closed spec fn view(&self) -> Map<Seq<char>, Seq<char>> {
        pairs_map(self.entries@)
    }
}

impl AuthParams {
    /// The value of a parameter.
    pub fn get(&self, key: &str) -> (r: Option<&String>)
        ensures
            match r {
                Some(v) => self@.contains_key(key@) && v@ == self@[key@],
                None => !self@.contains_key(key@),
            },
    {
        let k = key.to_owned();
        let mut i = self.entries.len();
        assert(self.entries@.take(i as int) =~= self.entries@);
        while i > 0
            invariant
                i <= self.entries@.len(),
                k@ == key@,
                forall|j: int|
                    i <= j < self.entries@.len() ==> (#[trigger] self.entries@[j]).0@ != key@,
                pairs_map(self.entries@.take(i as int)).contains_key(key@) == self@.contains_key(
                    key@,
                ),
                pairs_map(self.entries@.take(i as int)).contains_key(key@) ==> pairs_map(
                    self.entries@.take(i as int),
                )[key@] == self@[key@],
            decreases i,
        {
            proof {
                lemma_pairs_map_step(self.entries@, (i - 1) as int);
            }
            if self.entries[i - 1].0 == k {
                return Some(&self.entries[i - 1].1);
            }
            i = i - 1;
        }
        None
    }
}

/// Adding one more pair to a prefix inserts it.
pub proof fn lemma_pairs_map_step(s: Seq<(String, String)>, n: int)
    requires
        0 <= n < s.len(),
    ensures
        pairs_map(s.take(n + 1)) == pairs_map(s.take(n)).insert(s[n].0@, s[n].1@),
{
    assert(s.take(n + 1).drop_last() =~= s.take(n));
    assert(s.take(n + 1).last() == s[n]);
}

/// The name and value of one comma-separated part of a challenge: the part
/// is trimmed and split at its first `=`; the name is trimmed and lower-cased
/// (Unicode lower-casing, or its ASCII restriction when `ascii`), the value
/// trimmed and stripped of double quotes. Parts without `=` give none.
pub open spec fn auth_param(part: Seq<char>, ascii: bool) -> Option<(Seq<char>, Seq<char>)> {
    let t = trim(part);
    match find_from(t, seq!['='], 0) {
        Some(e) => Some(
            (
                fold_case(trim(t.subrange(0, e)), ascii),
                trim_by(trim(t.subrange(e + 1, t.len() as int)), CharClass::Just('"')),
            ),
        ),
        None => None,
    }
}

/// The map that the parts' parameters build, later ones replacing earlier ones.
pub open spec fn auth_map(parts: Seq<Seq<char>>, ascii: bool) -> Map<Seq<char>, Seq<char>>
    decreases parts.len(),
{
    if parts.len() == 0 {
        Map::empty()
    } else {
        let m = auth_map(parts.drop_last(), ascii);
        match auth_param(parts.last(), ascii) {
            Some(kv) => m.insert(kv.0, kv.1),
            None => m,
        }
    }
}

/// The parameters of a `WWW-Authenticate` value: every leading `Digest ` is
/// removed, and the rest is split at commas.
pub open spec fn www_authenticate_spec(header: Seq<char>) -> Map<Seq<char>, Seq<char>> {
    auth_map(split(strip_prefixes(header, "Digest "@), seq![',']), false)
}

/// The parameters of an ASCII `WWW-Authenticate` value, names lower-cased in ASCII.
pub open spec fn www_authenticate_ascii(header: Seq<char>) -> Map<Seq<char>, Seq<char>> {
    auth_map(split(strip_prefixes(header, "Digest "@), seq![',']), true)
}

/// Reads the parameters of a digest challenge.
pub fn parse_www_authenticate(header: &str) -> (r: AuthParams)
    ensures
        r@ == www_authenticate_spec(header@),
        all_ascii(header@) ==> r@ == www_authenticate_ascii(header@),
{
    let h = chars_of(header);
    let dg = chars_of("Digest ");
    proof {
        reveal_strlit("Digest ");
    }
    let from = strip_prefixes_exec(h.as_slice(), dg.as_slice());
    let rest = slice_tail(h.as_slice(), from);
    let comma: Vec<char> = vec![','];
    assert(comma@ =~= seq![',']);
    let parts = split_exec(rest.as_slice(), comma.as_slice());
    let ghost pv = parts@.map_values(|v: Vec<char>| v@);
    proof {
        if all_ascii(header@) {
            assert forall|k: int| 0 <= k < rest@.len() implies (#[trigger] rest@[k] as u32) < 128 by {
                assert(rest@[k] == h@[from + k]);
            }
            lemma_split_pieces_ascii(rest@, seq![','], 0);
        }
    }
    let mut entries: Vec<(String, String)> = Vec::new();
    let mut i: usize = 0;
    assert(pv.take(0) =~= Seq::<Seq<char>>::empty());
    while i < parts.len()
        invariant
            i <= parts@.len(),
            pv == parts@.map_values(|v: Vec<char>| v@),
            pairs_map(entries@) == auth_map(pv.take(i as int), false),
            all_ascii(header@) ==> pairs_map(entries@) == auth_map(pv.take(i as int), true),
            all_ascii(header@) ==> forall|k: int|
                0 <= k < pv.len() ==> all_ascii(#[trigger] pv[k]),
        decreases parts@.len() - i,
    {
        let ghost prev = pv.take(i as int);
        assert(pv.take(i + 1).drop_last() =~= prev);
        assert(pv.take(i + 1).last() == parts@[i as int]@);
        assert(pv[i as int] == parts@[i as int]@);
        match read_auth_param(parts[i].as_slice()) {
            Some(kv) => {
                let ghost old_e = entries@;
                entries.push(kv);
                assert(entries@.drop_last() =~= old_e);
            },
            None => {},
        }
        i = i + 1;
    }
    assert(pv.take(parts@.len() as int) =~= pv);
    AuthParams { entries }
}

/// The name and value that one part of a challenge gives.
fn read_auth_param(part: &[char]) -> (r: Option<(String, String)>)
    ensures
        match r {
            Some(kv) => auth_param(part@, false) == Some((kv.0@, kv.1@)) && (all_ascii(part@)
                ==> auth_param(part@, true) == Some((kv.0@, kv.1@))),
            None => auth_param(part@, false) is None && auth_param(part@, true) is None,
        },
{
    let (a, b) = trim_range(part, 0, part.len(), &CharClass::Whitespace);
    assert(part@.subrange(0, part@.len() as int) =~= part@);
    let t = slice_between(part, a, b);
    let eq: Vec<char> = vec!['='];
    assert(eq@ =~= seq!['=']);
    let found = find_from_exec(t.as_slice(), eq.as_slice(), 0);
    proof {
        lemma_find_from(t@, seq!['='], 0);
    }
    match found {
        Some(e) => {
            assert(find_from(t@, seq!['='], 0) == Some(e as int));
            let tlen = t.len();
            assert(e + 1 <= tlen);
            let (ka, kb) = trim_range(t.as_slice(), 0, e, &CharClass::Whitespace);
            let key_raw = string_of(t.as_slice(), ka, kb);
            proof {
                if all_ascii(part@) {
                    assert forall|k: int| 0 <= k < key_raw@.len() implies (
                    #[trigger] key_raw@[k] as u32) < 128 by {
                        assert(key_raw@[k] == t@[ka + k]);
                        assert(t@[ka + k] == part@[a + ka + k]);
                    }
                }
            }
            let key = to_lowercase(key_raw.as_str());
            let (va, vb) = trim_range(t.as_slice(), e + 1, t.len(), &CharClass::Whitespace);
            let (qa, qb) = trim_range(t.as_slice(), va, vb, &CharClass::Just('"'));
            let value = string_of(t.as_slice(), qa, qb);
            Some((key, value))
        },
        None => None,
    }
}

/// A copy of `s[lo..]`.
fn slice_tail(s: &[char], lo: usize) -> (r: Vec<char>)
    requires
        lo <= s@.len(),
    ensures
        r@ == s@.skip(lo as int),
{
    let r = crate::text::slice_range(s, lo, s.len());
    assert(s@.subrange(lo as int, s@.len() as int) =~= s@.skip(lo as int));
    r
}

/// A copy of `s[lo..hi]`.
fn slice_between(s: &[char], lo: usize, hi: usize) -> (r: Vec<char>)
    requires
        lo <= hi <= s@.len(),
    ensures
        r@ == s@.subrange(lo as int, hi as int),
{
    crate::text::slice_range(s, lo, hi)
}

// ---------------------------------------------------------------------------
// Session descriptions
// ---------------------------------------------------------------------------

/// The first line at or after `i` that starts with `p`.
pub open spec fn first_with_prefix(ls: Seq<Seq<char>>, p: Seq<char>, i: int) -> Option<int>
    decreases ls.len() - i,
{
    if i < 0 || i >= ls.len() {
        None
    } else if starts_with(ls[i], p) {
        Some(i)
    } else {
        first_with_prefix(ls, p, i + 1)
    }
}

/// What an offer asks for: the remote address and port, the SSRC, 1 for UDP
/// or 0 for TCP, whether the media is refused (port -1), and whether the
/// peer takes the passive side.
pub type SdpOffer = (String, u16, u32, u8, bool, bool);

/// An offer's fields as values of specifications.
pub type SdpOfferView = (Seq<char>, u16, u32, u8, bool, bool);

/// The view of an offer.
pub open spec fn offer_view(o: SdpOffer) -> SdpOfferView {
    (o.0@, o.1, o.2, o.3, o.4, o.5)
}

/// The view of a parse result.
pub open spec fn sdp_result_view(r: Result<SdpOffer, SipError>) -> Result<SdpOfferView, Fault> {
    match r {
        Ok(o) => Ok(offer_view(o)),
        Err(e) => Err(e@),
    }
}

/// The SSRC of an offer: the first `y=` line read as a `u32`, or 0.
pub open spec fn sdp_ssrc(ls: Seq<Seq<char>>) -> u32 {
    match first_with_prefix(ls, seq!['y', '='], 0) {
        Some(yi) => match parse_u32_spec(strip_prefixes(ls[yi], seq!['y', '='])) {
            Some(v) => v,
            None => 0,
        },
        None => 0,
    }
}

/// Some line of the offer, trimmed, is `a=setup:passive`.
pub open spec fn sdp_passive(ls: Seq<Seq<char>>) -> bool {
    exists|i: int| 0 <= i < ls.len() && trim(#[trigger] ls[i]) == "a=setup:passive"@
}

/// What a session description offers, read line by line: the address is the
/// last field of the first `c=` line, the port the second field of the first
/// `m=` line, which needs four fields; a port of -1 refuses the media.
pub open spec fn sdp_spec(body: Seq<char>) -> Result<SdpOfferView, Fault> {
    let ls = lines(body);
    match first_with_prefix(ls, seq!['c', '='], 0) {
        None => Err(Fault::NoConnectionLine),
        Some(ci) => {
            let cw = words(ls[ci]);
            if cw.len() == 0 {
                Err(Fault::NoAddress)
            } else {
                match first_with_prefix(ls, seq!['m', '='], 0) {
                    None => Err(Fault::NoMediaLine),
                    Some(mi) => {
                        let parts = words(ls[mi]);
                        if parts.len() < 4 {
                            Err(Fault::InvalidMediaLine(ls[mi]))
                        } else {
                            match parse_i32_spec(parts[1]) {
                                None => Err(Fault::InvalidMediaPort),
                                Some(port) => {
                                    if port == -1 {
                                        Ok((seq![], 0, 0, 0, true, false))
                                    } else if port < 0 || port > 65535 {
                                        Err(Fault::MediaPortOutOfRange(port))
                                    } else {
                                        let is_udp: u8 = if parts[2] == "TCP/RTP/AVP"@ {
                                            0
                                        } else {
                                            1
                                        };
                                        Ok(
                                            (
                                                cw.last(),
                                                port as u16,
                                                sdp_ssrc(ls),
                                                is_udp,
                                                false,
                                                sdp_passive(ls),
                                            ),
                                        )
                                    }
                                },
                            }
                        }
                    },
                }
            }
        },
    }
}

/// The index of the first line that starts with `p`.
fn first_with_prefix_exec(ls: &Vec<Vec<char>>, p: &[char]) -> (r: Option<usize>)
    ensures
        opt_int_view(r) == first_with_prefix(ls@.map_values(|v: Vec<char>| v@), p@, 0),
        r matches Some(i) ==> i < ls@.len(),
{
    let ghost lv = ls@.map_values(|v: Vec<char>| v@);
    let mut i: usize = 0;
    while i < ls.len()
        invariant
            i <= ls@.len(),
            lv == ls@.map_values(|v: Vec<char>| v@),
            first_with_prefix(lv, p@, 0) == first_with_prefix(lv, p@, i as int),
        decreases ls@.len() - i,
    {
        assert(lv[i as int] == ls@[i as int]@);
        if starts_with_exec(ls[i].as_slice(), p) {
            return Some(i);
        }
        i = i + 1;
    }
    None
}

/// The view of an optional index.
pub open spec fn opt_int_view(r: Option<usize>) -> Option<int> {
    match r {
        Some(i) => Some(i as int),
        None => None,
    }
}

fn sdp_ssrc_exec(ls: &Vec<Vec<char>>) -> (r: u32)
    ensures
        r == sdp_ssrc(ls@.map_values(|v: Vec<char>| v@)),
{
    let ghost lv = ls@.map_values(|v: Vec<char>| v@);
    let yp: Vec<char> = vec!['y', '='];
    assert(yp@ =~= seq!['y', '=']);
    match first_with_prefix_exec(ls, yp.as_slice()) {
        Some(yi) => {
            assert(lv[yi as int] == ls@[yi as int]@);
            let line = &ls[yi];
            let from = strip_prefixes_exec(line.as_slice(), yp.as_slice());
            let v = parse_u32(line.as_slice(), from, line.len());
            assert(line@.subrange(from as int, line@.len() as int) =~= line@.skip(from as int));
            match v {
                Some(x) => x,
                None => 0,
            }
        },
        None => 0,
    }
}

fn sdp_passive_exec(ls: &Vec<Vec<char>>) -> (r: bool)
    ensures
        r == sdp_passive(ls@.map_values(|v: Vec<char>| v@)),
{
    let ghost lv = ls@.map_values(|v: Vec<char>| v@);
    let target = chars_of("a=setup:passive");
    let mut i: usize = 0;
    while i < ls.len()
        invariant
            i <= ls@.len(),
            lv == ls@.map_values(|v: Vec<char>| v@),
            target@ == "a=setup:passive"@,
            forall|j: int| 0 <= j < i ==> trim(#[trigger] lv[j]) != "a=setup:passive"@,
        decreases ls@.len() - i,
    {
        assert(lv[i as int] == ls@[i as int]@);
        let line = &ls[i];
        let (a, b) = trim_range(line.as_slice(), 0, line.len(), &CharClass::Whitespace);
        assert(line@.subrange(0, line@.len() as int) =~= line@);
        let t = slice_between(line.as_slice(), a, b);
        if seq_eq(t.as_slice(), target.as_slice()) {
            assert(trim(lv[i as int]) == "a=setup:passive"@);
            return true;
        }
        i = i + 1;
    }
    false
}

/// Reads what an INVITE's session description offers.
pub fn parse_sdp(body: &str) -> (r: Result<SdpOffer, SipError>)
    ensures
        sdp_result_view(r) == sdp_spec(body@),
{
    let b = chars_of(body);
    let ls = lines_exec(b.as_slice());
    let ghost lv = ls@.map_values(|v: Vec<char>| v@);
    assert(lv == lines(body@));
    let cp: Vec<char> = vec!['c', '='];
    assert(cp@ =~= seq!['c', '=']);
    let ci = match first_with_prefix_exec(&ls, cp.as_slice()) {
        Some(ci) => ci,
        None => {
            return Err(SipError::NoConnectionLine);
        },
    };
    assert(lv[ci as int] == ls@[ci as int]@);
    let cw = words_exec(ls[ci].as_slice());
    let ghost cwv = cw@.map_values(|v: Vec<char>| v@);
    if cw.len() == 0 {
        return Err(SipError::NoAddress);
    }
    let last = &cw[cw.len() - 1];
    let remote_ip = string_of(last.as_slice(), 0, last.len());
    assert(last@.subrange(0, last@.len() as int) =~= last@);
    assert(cwv.last() == last@);
    let mp: Vec<char> = vec!['m', '='];
    assert(mp@ =~= seq!['m', '=']);
    let mi = match first_with_prefix_exec(&ls, mp.as_slice()) {
        Some(mi) => mi,
        None => {
            return Err(SipError::NoMediaLine);
        },
    };
    assert(lv[mi as int] == ls@[mi as int]@);
    let media = &ls[mi];
    let parts = words_exec(media.as_slice());
    let ghost pv = parts@.map_values(|v: Vec<char>| v@);
    if parts.len() < 4 {
        let line = string_of(media.as_slice(), 0, media.len());
        assert(media@.subrange(0, media@.len() as int) =~= media@);
        return Err(SipError::InvalidMediaLine(line));
    }
    assert(pv[1] == parts@[1]@);
    assert(pv[2] == parts@[2]@);
    let port = match parse_i32(parts[1].as_slice(), 0, parts[1].len()) {
        Some(p) => p,
        None => {
            assert(parts@[1]@.subrange(0, parts@[1]@.len() as int) =~= parts@[1]@);
            return Err(SipError::InvalidMediaPort);
        },
    };
    assert(parts@[1]@.subrange(0, parts@[1]@.len() as int) =~= parts@[1]@);
    if port == -1 {
        return Ok((String::new(), 0, 0, 0, true, false));
    }
    if port < 0 || port > 65535 {
        return Err(SipError::MediaPortOutOfRange(port));
    }
    let tcp = chars_of("TCP/RTP/AVP");
    let is_udp: u8 = if seq_eq(parts[2].as_slice(), tcp.as_slice()) {
        0
    } else {
        1
    };
    let ssrc = sdp_ssrc_exec(&ls);
    let passive = sdp_passive_exec(&ls);
    Ok((remote_ip, port as u16, ssrc, is_udp, false, passive))
}


/// Header names are matched without regard to ASCII letter case.
pub proof fn law_header_names_ignore_case(hs: Seq<Seq<char>>, n1: Seq<char>, n2: Seq<char>)
    requires
        ascii_lower(n1) == ascii_lower(n2),
    ensures
        get_header_by(hs, n1, true) == get_header_by(hs, n2, true),
{
}

/// The header lines of a message are never empty.
pub proof fn law_header_lines_nonempty(data: Seq<char>)
    ensures
        forall|i: int|
            0 <= i < header_lines_spec(data).len() ==> (#[trigger] header_lines_spec(data)[i]).len()
                > 0,
{
    lemma_nonempty_lines(split(data, crlf()).skip(1));
}

proof fn lemma_nonempty_lines(ls: Seq<Seq<char>>)
    ensures
        forall|i: int|
            0 <= i < nonempty_lines(ls).len() ==> (#[trigger] nonempty_lines(ls)[i]).len() > 0,
    decreases ls.len(),
{
    if ls.len() > 0 {
        lemma_nonempty_lines(ls.drop_last());
        let r = nonempty_lines(ls.drop_last());
        if ls.last().len() > 0 {
            assert forall|i: int| 0 <= i < nonempty_lines(ls).len() implies (
            #[trigger] nonempty_lines(ls)[i]).len() > 0 by {
                if i < r.len() {
                    assert(nonempty_lines(ls)[i] == r[i]);
                }
            }
        }
    }
}

/// The peer's version selects the declaration, the `X-GB-Ver` value and the
/// body encoding together: GB18030 and 3.0 for the 2022 edition, GB2312, 2.0
/// and GBK otherwise.
pub proof fn law_version_selects_encoding(version: Seq<char>)
    ensures
        is_2022(version) ==> gb_ver_spec(version) == "3.0"@ && xml_header_spec(version)
            == "<?xml version=\"1.0\" encoding=\"GB18030\"?>\r\n"@,
        !is_2022(version) ==> gb_ver_spec(version) == "2.0"@ && xml_header_spec(version)
            == "<?xml version=\"1.0\" encoding=\"GB2312\"?>\r\n"@,
{
}

/// A refused medium (an `m=` port of -1) carries nothing else: no address,
/// port, SSRC, transport or passive role.
pub proof fn law_sdp_refusal(body: Seq<char>)
    ensures
        sdp_spec(body) matches Ok(o) ==> (o.4 ==> o.0.len() == 0 && o.1 == 0 && o.2 == 0 && o.3
            == 0 && !o.5),
{
}

// ---------------------------------------------------------------------------
// Line structure of messages
// ---------------------------------------------------------------------------

/// No carriage return in the text is directly followed by a line feed.
pub open spec fn no_crlf(s: Seq<char>) -> bool {
    forall|k: int| #![trigger s[k]] 0 <= k < s.len() - 1 ==> !(s[k] == '\r' && s[k + 1] == '\n')
}

/// `no_crlf` says that CRLF occurs nowhere.
pub proof fn lemma_no_crlf_matches(s: Seq<char>)
    ensures
        no_crlf(s) <==> forall|k: int| !#[trigger] matches_at(s, crlf(), k),
{
    if no_crlf(s) {
        assert forall|k: int| !#[trigger] matches_at(s, crlf(), k) by {
            if matches_at(s, crlf(), k) {
                assert(s.subrange(k, k + 2)[0] == s[k]);
                assert(s.subrange(k, k + 2)[1] == s[k + 1]);
            }
        }
    }
    if forall|k: int| !#[trigger] matches_at(s, crlf(), k) {
        assert forall|k: int| 0 <= k < s.len() - 1 implies !(#[trigger] s[k] == '\r' && s[k + 1]
            == '\n') by {
            if s[k] == '\r' && s[k + 1] == '\n' {
                assert(s.subrange(k, k + 2) =~= crlf());
                assert(matches_at(s, crlf(), k));
            }
        }
    }
}

/// Joining two texts without CRLF makes none, unless the first ends with a
/// carriage return.
pub proof fn lemma_no_crlf_concat(a: Seq<char>, b: Seq<char>)
    requires
        no_crlf(a),
        no_crlf(b),
        a.len() == 0 || a.last() != '\r',
    ensures
        no_crlf(a + b),
{
    let s = a + b;
    assert forall|k: int| 0 <= k < s.len() - 1 implies !(#[trigger] s[k] == '\r' && s[k + 1]
        == '\n') by {
        if k + 1 < a.len() {
            assert(s[k] == a[k]);
            assert(s[k + 1] == a[k + 1]);
        } else if k + 1 == a.len() {
            assert(s[k] == a.last());
        } else {
            assert(s[k] == b[k - a.len()]);
            assert(s[k + 1] == b[k + 1 - a.len()]);
        }
    }
}

/// A piece of a text without CRLF has none.
pub proof fn lemma_no_crlf_subrange(s: Seq<char>, a: int, b: int)
    requires
        0 <= a <= b <= s.len(),
        no_crlf(s),
    ensures
        no_crlf(s.subrange(a, b)),
{
    let t = s.subrange(a, b);
    assert forall|k: int| 0 <= k < t.len() - 1 implies !(#[trigger] t[k] == '\r' && t[k + 1]
        == '\n') by {
        assert(t[k] == s[a + k]);
        assert(t[k + 1] == s[a + k + 1]);
    }
}

/// A line without CRLF, then CRLF, then more: the split yields the line, then
/// the pieces of the rest.
pub proof fn lemma_split_line(l: Seq<char>, rest: Seq<char>)
    requires
        no_crlf(l),
    ensures
        split(l + crlf() + rest, crlf()) == seq![l] + split(rest, crlf()),
{
    let m = l + crlf() + rest;
    let n = l.len() as int;
    assert(m.subrange(n, n + 2) =~= crlf());
    assert forall|k: int| 0 <= k < n implies !matches_at(m, crlf(), k) by {
        if matches_at(m, crlf(), k) {
            assert(m.subrange(k, k + 2)[0] == m[k]);
            assert(m.subrange(k, k + 2)[1] == m[k + 1]);
            if k + 1 < n {
                assert(m[k] == l[k]);
                assert(m[k + 1] == l[k + 1]);
            } else {
                assert(m[k + 1] == crlf()[0]);
            }
        }
    }
    lemma_find_from_first(m, crlf(), 0, n);
    assert(m.subrange(0, n) =~= l);
    lemma_split_from_shift(l + crlf(), rest, crlf(), 0);
}

/// Dropping empty lines from a joined list drops them from each part.
pub proof fn lemma_nonempty_lines_concat(a: Seq<Seq<char>>, b: Seq<Seq<char>>)
    ensures
        nonempty_lines(a + b) == nonempty_lines(a) + nonempty_lines(b),
    decreases b.len(),
{
    if b.len() == 0 {
        assert(a + b =~= a);
        assert(nonempty_lines(a) + nonempty_lines(b) =~= nonempty_lines(a));
    } else {
        lemma_nonempty_lines_concat(a, b.drop_last());
        assert((a + b).drop_last() =~= a + b.drop_last());
        assert((a + b).last() == b.last());
        if b.last().len() > 0 {
            assert(nonempty_lines(a) + nonempty_lines(b.drop_last()).push(b.last()) =~= (
            nonempty_lines(a) + nonempty_lines(b.drop_last())).push(b.last()));
        }
    }
}

/// A list of non-empty lines keeps all of them.
pub proof fn lemma_nonempty_lines_all(ls: Seq<Seq<char>>)
    requires
        forall|i: int| 0 <= i < ls.len() ==> (#[trigger] ls[i]).len() > 0,
    ensures
        nonempty_lines(ls) == ls,
    decreases ls.len(),
{
    if ls.len() > 0 {
        lemma_nonempty_lines_all(ls.drop_last());
        assert(ls.drop_last().push(ls.last()) =~= ls);
    }
}

/// Lines kept by `nonempty_lines` hold no CRLF when none of the list does.
pub proof fn lemma_nonempty_lines_no_crlf(ls: Seq<Seq<char>>)
    requires
        forall|i: int| 0 <= i < ls.len() ==> no_crlf(#[trigger] ls[i]),
    ensures
        forall|i: int| 0 <= i < nonempty_lines(ls).len() ==> no_crlf(#[trigger] nonempty_lines(ls)[i]),
    decreases ls.len(),
{
    if ls.len() > 0 {
        let d = ls.drop_last();
        assert forall|i: int| 0 <= i < d.len() implies no_crlf(#[trigger] d[i]) by {
            assert(d[i] == ls[i]);
        }
        lemma_nonempty_lines_no_crlf(d);
        let r = nonempty_lines(d);
        assert forall|i: int| 0 <= i < nonempty_lines(ls).len() implies no_crlf(
            #[trigger] nonempty_lines(ls)[i],
        ) by {
            if i < r.len() {
                assert(nonempty_lines(ls)[i] == r[i]);
            } else {
                assert(nonempty_lines(ls)[i] == ls[ls.len() - 1]);
            }
        }
    }
}

/// No header line of a message holds a CRLF.
pub proof fn lemma_header_lines_no_crlf(data: Seq<char>)
    ensures
        forall|i: int|
            0 <= i < header_lines_spec(data).len() ==> no_crlf(#[trigger] header_lines_spec(data)[i]),
{
    let ps = split_from(data, crlf(), 0);
    lemma_split_pieces_lack_sep(data, crlf(), 0);
    let tl = ps.skip(1);
    assert forall|i: int| 0 <= i < tl.len() implies no_crlf(#[trigger] tl[i]) by {
        assert(tl[i] == ps[i + 1]);
        assert forall|k: int| !#[trigger] matches_at(ps[i + 1], crlf(), k) by {}
        lemma_no_crlf_matches(ps[i + 1]);
    }
    lemma_nonempty_lines_no_crlf(tl);
}

/// `first_header_from` finds an index of the list, at or after where it starts.
pub proof fn lemma_first_header_in_range(hs: Seq<Seq<char>>, lname: Seq<char>, i: int, ascii: bool)
    ensures
        first_header_from(hs, lname, i, ascii) matches Some(k) ==> i <= k < hs.len(),
    decreases hs.len() - i,
{
    if 0 <= i < hs.len() && !starts_with(fold_case(hs[i], ascii), lname) {
        lemma_first_header_in_range(hs, lname, i + 1, ascii);
    }
}

/// A header's value is trimmed, and holds no CRLF when its line holds none.
pub proof fn lemma_header_value_clean(h: Seq<char>)
    ensures
        header_value(h) matches Some(v) ==> is_trimmed(v) && (no_crlf(h) ==> no_crlf(v)),
{
    lemma_find_from(h, seq![':'], 0);
    match find_from(h, seq![':'], 0) {
        Some(c) => {
            let x = h.subrange(c + 1, h.len() as int);
            let (a, b) = lemma_trim_piece(x);
            assert(x.subrange(a, b) =~= h.subrange(c + 1 + a, c + 1 + b));
            if no_crlf(h) {
                lemma_no_crlf_subrange(h, c + 1 + a, c + 1 + b);
            }
        },
        None => {},
    }
}

/// A header value read from a message is trimmed and holds no CRLF.
pub proof fn lemma_header_of_clean(data: Seq<char>, name: Seq<char>, ascii: bool)
    ensures
        get_header_by(header_lines_spec(data), name, ascii) matches Some(v) ==> is_trimmed(v)
            && no_crlf(v),
{
    let hs = header_lines_spec(data);
    lemma_header_lines_no_crlf(data);
    lemma_first_header_in_range(hs, fold_case(name, ascii), 0, ascii);
    match first_header_from(hs, fold_case(name, ascii), 0, ascii) {
        Some(k) => {
            lemma_header_value_clean(hs[k]);
        },
        None => {},
    }
}

/// A text with no carriage return holds no CRLF.
pub proof fn lemma_no_cr(s: Seq<char>)
    requires
        forall|k: int| 0 <= k < s.len() ==> #[trigger] s[k] != '\r',
    ensures
        no_crlf(s),
{
}

/// The line `name: v`, for a name without colon or carriage return and a
/// trimmed value: its value is `v`, its folded text starts with the folded
/// name, and it holds no CRLF when `v` holds none.
pub proof fn lemma_header_line(name: Seq<char>, v: Seq<char>)
    requires
        forall|k: int| 0 <= k < name.len() ==> #[trigger] name[k] != ':' && name[k] != '\r',
        is_trimmed(v),
    ensures
        header_value(name + seq![':', ' '] + v) == Some(v),
        starts_with(ascii_lower(name + seq![':', ' '] + v), ascii_lower(name)),
        no_crlf(v) ==> no_crlf(name + seq![':', ' '] + v),
{
    let p = name + seq![':', ' '];
    let l = p + v;
    let n = name.len() as int;
    assert(l[n] == ':');
    assert(l.subrange(n, n + 1) =~= seq![':']);
    assert forall|k: int| 0 <= k < n implies !matches_at(l, seq![':'], k) by {
        assert(l[k] == name[k]);
        if matches_at(l, seq![':'], k) {
            assert(l.subrange(k, k + 1)[0] == l[k]);
        }
    }
    lemma_find_from_first(l, seq![':'], 0, n);
    assert(l.subrange(n + 1, l.len() as int) =~= seq![' '] + v);
    lemma_trim_space_prefix(v);
    assert forall|k: int| 0 <= k < n implies #[trigger] ascii_lower(l).subrange(0, n)[k]
        == ascii_lower(name)[k] by {
        assert(l[k] == name[k]);
    }
    assert(ascii_lower(l).subrange(0, n) =~= ascii_lower(name));
    if no_crlf(v) {
        assert forall|k: int| 0 <= k < p.len() implies #[trigger] p[k] != '\r' by {
            if k < n {
                assert(p[k] == name[k]);
            }
        }
        lemma_no_cr(p);
        lemma_no_crlf_concat(p, v);
    }
}

/// A line whose folded text differs from a folded name within the name's
/// length does not start with it.
pub proof fn lemma_not_header_line(line: Seq<char>, lname: Seq<char>, j: int)
    requires
        0 <= j < lname.len(),
        j < line.len(),
        ascii_lower(line)[j] != lname[j],
    ensures
        !starts_with(ascii_lower(line), lname),
{
    if starts_with(ascii_lower(line), lname) {
        assert(ascii_lower(line).subrange(0, lname.len() as int)[j] == ascii_lower(line)[j]);
    }
}

/// The start tag of an element.
pub open spec fn open_tag(tag: Seq<char>) -> Seq<char> {
    seq!['<'] + tag + seq!['>']
}

/// The end tag of an element.
pub open spec fn close_tag(tag: Seq<char>) -> Seq<char> {
    seq!['<', '/'] + tag + seq!['>']
}

/// The text read from an element is trimmed and holds no end tag of the element.
pub proof fn lemma_xml_text_clean(xml: Seq<char>, tag: Seq<char>)
    ensures
        xml_text_spec(xml, tag) matches Some(t) ==> is_trimmed(t) && forall|k: int|
            !#[trigger] matches_at(t, close_tag(tag), k),
{
    let st = seq!['<'] + tag + seq!['>'];
    let et = seq!['<', '/'] + tag + seq!['>'];
    lemma_find_from(xml, st, 0);
    match find_from(xml, st, 0) {
        Some(i) => {
            let s = i + st.len();
            lemma_find_from(xml, et, s);
            match find_from(xml, et, s) {
                Some(j) => {
                    let raw = xml.subrange(s, j);
                    let (a1, b1) = lemma_trim_piece(raw);
                    let t1 = trim(raw);
                    let (a2, b2) = lemma_trim_by_piece(t1, CharClass::Quotes);
                    let t2 = trim_by(t1, CharClass::Quotes);
                    let (a3, b3) = lemma_trim_piece(t2);
                    let t = trim(t2);
                    let lo = s + a1 + a2 + a3;
                    let hi = s + a1 + a2 + b3;
                    assert(t =~= xml.subrange(lo, hi));
                    assert forall|k: int| !#[trigger] matches_at(t, et, k) by {
                        if matches_at(t, et, k) {
                            lemma_matches_in_subrange(xml, et, lo, hi, k);
                        }
                    }
                },
                None => {},
            }
        },
        None => {},
    }
}

/// Reading an element from `p + t + q`, where `p` ends with the first start
/// tag, `t` holds no end tag and `q` begins with one, gives `t` back when it
/// is trimmed and has no quote at either end.
pub proof fn lemma_xml_text_layout(p: Seq<char>, t: Seq<char>, q: Seq<char>, tag: Seq<char>)
    requires
        p.len() >= tag.len() + 2,
        find_from(p, open_tag(tag), 0) == Some(p.len() - (tag.len() + 2)),
        forall|k: int| !#[trigger] matches_at(t, close_tag(tag), k),
        starts_with(q, close_tag(tag)),
        forall|k: int| 0 <= k < tag.len() ==> #[trigger] tag[k] != '<',
        is_trimmed(t),
        t.len() == 0 || (!CharClass::Quotes.has(t[0]) && !CharClass::Quotes.has(t.last())),
    ensures
        xml_text_spec(p + t + q, tag) == Some(t),
{
    let st = seq!['<'] + tag + seq!['>'];
    let et = seq!['<', '/'] + tag + seq!['>'];
    let x = p + t + q;
    let n = p.len() as int;
    let m = t.len() as int;
    let i0 = n - st.len();
    lemma_find_from(p, st, 0);
    assert(x.subrange(i0, n) =~= p.subrange(i0, n));
    assert forall|k: int| 0 <= k < i0 implies !matches_at(x, st, k) by {
        assert(!matches_at(p, st, k));
        assert(x.subrange(k, k + st.len()) =~= p.subrange(k, k + st.len()));
    }
    lemma_find_from_first(x, st, 0, i0);
    assert(x.subrange(n + m, n + m + et.len()) =~= q.subrange(0, et.len() as int));
    assert forall|k: int| n <= k < n + m implies !matches_at(x, et, k) by {
        if matches_at(x, et, k) {
            if k + et.len() <= n + m {
                assert(x.subrange(k, k + et.len()) =~= t.subrange(k - n, k - n + et.len()));
                assert(matches_at(t, et, k - n));
            } else {
                let l = n + m - k;
                assert(x[n + m] == q[0]);
                assert(q.subrange(0, et.len() as int)[0] == q[0]);
                assert(x.subrange(k, k + et.len())[l] == x[n + m]);
                if 2 <= l < tag.len() + 2 {
                    assert(et[l] == tag[l - 2]);
                }
            }
        }
    }
    lemma_find_from_first(x, et, n, n + m);
    assert(x.subrange(n, n + m) =~= t);
    lemma_trim_by_fixed(t, CharClass::Whitespace);
    lemma_trim_by_fixed(t, CharClass::Quotes);
}

/// Header lines, each ended by CRLF, then the CRLF of the blank line.
pub open spec fn header_block(hs: Seq<Seq<char>>) -> Seq<char>
    decreases hs.len(),
{
    if hs.len() == 0 {
        crlf()
    } else {
        hs[0] + crlf() + header_block(hs.drop_first())
    }
}

/// The head of a message: the first line, CRLF, the header lines each ended
/// by CRLF, and the blank line.
pub open spec fn message_head(first: Seq<char>, hs: Seq<Seq<char>>) -> Seq<char> {
    first + crlf() + header_block(hs)
}

/// Splitting a header block at CRLF gives the header lines, then the two
/// empty pieces around the blank line's CRLF.
proof fn lemma_split_header_block(hs: Seq<Seq<char>>)
    requires
        forall|i: int| 0 <= i < hs.len() ==> no_crlf(#[trigger] hs[i]),
    ensures
        split(header_block(hs), crlf()) == hs + seq![Seq::<char>::empty(), Seq::<char>::empty()],
    decreases hs.len(),
{
    let e = Seq::<char>::empty();
    if hs.len() == 0 {
        assert(crlf() =~= e + crlf() + e);
        lemma_split_line(e, e);
        assert(find_from(e, crlf(), 0) is None);
        assert(e.subrange(0, 0) =~= e);
        assert(split(e, crlf()) =~= seq![e]);
        assert(hs + seq![e, e] =~= seq![e] + seq![e]);
    } else {
        let t = hs.drop_first();
        assert forall|i: int| 0 <= i < t.len() implies no_crlf(#[trigger] t[i]) by {
            assert(t[i] == hs[i + 1]);
        }
        lemma_split_header_block(t);
        lemma_split_line(hs[0], header_block(t));
        assert(seq![hs[0]] + (t + seq![e, e]) =~= hs + seq![e, e]);
    }
}

/// Reading a message head gives back the first line and the header lines it
/// was written from, when none holds a CRLF and no header line is empty.
pub proof fn law_message_head_round_trip(first: Seq<char>, hs: Seq<Seq<char>>)
    requires
        no_crlf(first),
        forall|i: int| 0 <= i < hs.len() ==> (#[trigger] hs[i]).len() > 0 && no_crlf(hs[i]),
    ensures
        first_line_spec(message_head(first, hs)) == first,
        header_lines_spec(message_head(first, hs)) == hs,
{
    let e = Seq::<char>::empty();
    lemma_split_header_block(hs);
    lemma_split_line(first, header_block(hs));
    let sp = split(message_head(first, hs), crlf());
    assert(sp =~= seq![first] + (hs + seq![e, e]));
    assert(sp.skip(1) =~= hs + seq![e, e]);
    lemma_nonempty_lines_concat(hs, seq![e, e]);
    lemma_nonempty_lines_all(hs);
    let none = Seq::<Seq<char>>::empty();
    assert(seq![e, e].drop_last() =~= seq![e]);
    assert(seq![e].drop_last() =~= none);
    assert(nonempty_lines(none) =~= none);
    assert(nonempty_lines(seq![e]) =~= none);
    assert(nonempty_lines(seq![e, e]) =~= none);
    assert(hs + Seq::<Seq<char>>::empty() =~= hs);
}

} // verus!
