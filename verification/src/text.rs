//! Text primitives shared by the report parsers: whitespace, trimming,
//! substring search, byte-offset slicing, tokens and lines.
//!
//! A string is modelled by its sequence of characters; byte offsets refer to
//! the UTF-8 encoding of that sequence.

use vstd::prelude::*;
use vstd::string::*;
use vstd::utf8::*;

verus! {

/// The characters with the Unicode property `White_Space`.
pub open spec fn is_white_space(c: char) -> bool {
    let v = c as u32;
    (0x09 <= v && v <= 0x0D) || v == 0x20 || v == 0x85 || v == 0xA0 || v == 0x1680 || (0x2000 <= v
        && v <= 0x200A) || v == 0x2028 || v == 0x2029 || v == 0x202F || v == 0x205F || v == 0x3000
}

/// Number of whitespace characters at the front of `s`.
pub open spec fn leading_ws(s: Seq<char>) -> int
    decreases s.len(),
{
    if s.len() == 0 || !is_white_space(s[0]) {
        0
    } else {
        1 + leading_ws(s.drop_first())
    }
}

/// Number of whitespace characters at the back of `s`.
pub open spec fn trailing_ws(s: Seq<char>) -> int
    decreases s.len(),
{
    if s.len() == 0 || !is_white_space(s.last()) {
        0
    } else {
        1 + trailing_ws(s.drop_last())
    }
}

/// `s` without its leading and trailing whitespace.
pub open spec fn trimmed(s: Seq<char>) -> Seq<char> {
    let a = leading_ws(s);
    if a >= s.len() {
        Seq::empty()
    } else {
        s.subrange(a, s.len() - trailing_ws(s))
    }
}

/// `needle` occurs in `hay` starting at character `i`.
pub open spec fn occurs_at(hay: Seq<char>, needle: Seq<char>, i: int) -> bool {
    0 <= i && i + needle.len() <= hay.len() && hay.subrange(i, i + needle.len()) == needle
}

/// `needle` occurs somewhere in `hay`.
pub open spec fn has_substring(hay: Seq<char>, needle: Seq<char>) -> bool {
    exists|i: int| occurs_at(hay, needle, i)
}

/// `s` begins with `prefix`.
pub open spec fn has_prefix(s: Seq<char>, prefix: Seq<char>) -> bool {
    occurs_at(s, prefix, 0)
}

/// `s` ends with `suffix`.
pub open spec fn has_suffix(s: Seq<char>, suffix: Seq<char>) -> bool {
    occurs_at(s, suffix, s.len() - suffix.len())
}

/// Length in bytes of the UTF-8 encoding of `s`.
pub open spec fn byte_len(s: Seq<char>) -> int {
    encode_utf8(s).len() as int
}

/// Byte offsets `a` and `b` delimit a text inside `s`: they are in order,
/// within the encoding of `s`, and neither falls inside a character.
pub open spec fn valid_byte_range(s: Seq<char>, a: int, b: int) -> bool {
    let bytes = encode_utf8(s);
    0 <= a <= b <= bytes.len() && is_char_boundary(bytes, a) && is_char_boundary(bytes, b)
}

/// The text between byte offsets `a` and `b` of `s`, or the empty text when
/// the range is out of bounds, inverted, or cuts a character in two.
pub open spec fn byte_slice(s: Seq<char>, a: int, b: int) -> Seq<char> {
    if valid_byte_range(s, a, b) {
        decode_utf8(encode_utf8(s).subrange(a, b))
    } else {
        Seq::empty()
    }
}

/// The text from byte offset `a` of `s` to its end, or the empty text when
/// `a` is out of bounds or inside a character.
pub open spec fn byte_slice_from(s: Seq<char>, a: int) -> Seq<char> {
    byte_slice(s, a, byte_len(s))
}

/// The leading whitespace ends at the first character that is none.
proof fn lemma_leading_ws(s: Seq<char>, i: int)
    requires
        0 <= i <= s.len(),
        forall|k: int| 0 <= k < i ==> is_white_space(#[trigger] s[k]),
        i == s.len() || !is_white_space(s[i]),
    ensures
        leading_ws(s) == i,
    decreases i,
{
    if i > 0 {
        let t = s.drop_first();
        assert(is_white_space(s[0]));
        assert forall|k: int| 0 <= k < i - 1 implies is_white_space(#[trigger] t[k]) by {
            assert(t[k] == s[k + 1]);
        }
        lemma_leading_ws(t, i - 1);
    }
}

/// The trailing whitespace begins after the last character that is none.
proof fn lemma_trailing_ws(s: Seq<char>, j: int)
    requires
        0 <= j <= s.len(),
        forall|k: int| j <= k < s.len() ==> is_white_space(#[trigger] s[k]),
        j == 0 || !is_white_space(s[j - 1]),
    ensures
        trailing_ws(s) == s.len() - j,
    decreases s.len() - j,
{
    if j < s.len() {
        let t = s.drop_last();
        assert(is_white_space(s.last()));
        assert forall|k: int| j <= k < t.len() implies is_white_space(#[trigger] t[k]) by {
            assert(t[k] == s[k]);
        }
        lemma_trailing_ws(t, j);
    }
}

/// Whether `c` is whitespace.
pub fn is_whitespace(c: char) -> (r: bool)
    ensures
        r == is_white_space(c),
{
    let v: u32 = c as u32;
    (0x09 <= v && v <= 0x0D) || v == 0x20 || v == 0x85 || v == 0xA0 || v == 0x1680 || (0x2000 <= v
        && v <= 0x200A) || v == 0x2028 || v == 0x2029 || v == 0x202F || v == 0x205F || v == 0x3000
}

/// The characters of `s`, for random access.
pub fn to_chars(s: &str) -> (r: Vec<char>)
    ensures
        r@ == s@,
{
    let mut out: Vec<char> = Vec::new();
    for c in it: s.chars()
        invariant
            out@ == s@.take(it.index() as int),
            it.seq() == s@,
    {
        out.push(c);
    }
    out
}

/// The empty text.
pub fn empty_str() -> (r: &'static str)
    ensures
        r@ == Seq::<char>::empty(),
{
    let r = "";
    proof {
        reveal_strlit("");
        assert(r@ =~= Seq::<char>::empty());
    }
    r
}

/// `s` without its leading and trailing whitespace.
pub fn trim(s: &str) -> (r: &str)
    ensures
        r@ == trimmed(s@),
{
    let chars = to_chars(s);
    let n = chars.len();
    let mut i: usize = 0;
    while i < n && is_whitespace(chars[i])
        invariant
            i <= n,
            n == chars@.len(),
            forall|k: int| 0 <= k < i ==> is_white_space(#[trigger] chars@[k]),
        decreases n - i,
    {
        i += 1;
    }
    proof {
        lemma_leading_ws(chars@, i as int);
    }
    if i == n {
        return empty_str();
    }
    let mut j: usize = n;
    while j > i && is_whitespace(chars[j - 1])
        invariant
            i <= j <= n,
            n == chars@.len(),
            forall|k: int| j <= k < n ==> is_white_space(#[trigger] chars@[k]),
        decreases j,
    {
        j -= 1;
    }
    proof {
        lemma_trailing_ws(chars@, j as int);
    }
    s.substring_char(i, j)
}

/// Whether `needle` occurs in `hay` at character `i`.
pub fn matches_at(hay: &Vec<char>, needle: &Vec<char>, i: usize) -> (r: bool)
    requires
        i + needle@.len() <= hay@.len(),
    ensures
        r == occurs_at(hay@, needle@, i as int),
{
    let m = needle.len();
    let n = hay.len();
    let mut j: usize = 0;
    while j < m
        invariant
            j <= m,
            m == needle@.len(),
            n == hay@.len(),
            i + m <= n,
            forall|k: int| 0 <= k < j ==> hay@[i + k] == needle@[k],
        decreases m - j,
    {
        if hay[i + j] != needle[j] {
            proof {
                assert(hay@.subrange(i as int, i + m)[j as int] == hay@[i + j]);
            }
            return false;
        }
        j += 1;
    }
    proof {
        assert(hay@.subrange(i as int, i + m) =~= needle@);
    }
    true
}

/// Whether `needle` occurs somewhere in `hay`.
pub fn contains_chars(hay: &Vec<char>, needle: &Vec<char>) -> (r: bool)
    ensures
        r == has_substring(hay@, needle@),
{
    if needle.len() > hay.len() {
        return false;
    }
    let last = hay.len() - needle.len();
    let mut i: usize = 0;
    while i < last
        invariant
            i <= last,
            last == hay@.len() - needle@.len(),
            forall|k: int| 0 <= k < i ==> !occurs_at(hay@, needle@, k),
        decreases last - i,
    {
        if matches_at(hay, needle, i) {
            return true;
        }
        i += 1;
    }
    matches_at(hay, needle, last)
}

/// Whether `needle` occurs somewhere in `hay`.
pub fn contains(hay: &str, needle: &str) -> (r: bool)
    ensures
        r == has_substring(hay@, needle@),
{
    let h = to_chars(hay);
    let p = to_chars(needle);
    contains_chars(&h, &p)
}

/// Whether `s` begins with `prefix`.
pub fn starts_with(s: &str, prefix: &str) -> (r: bool)
    ensures
        r == has_prefix(s@, prefix@),
{
    let h = to_chars(s);
    let p = to_chars(prefix);
    if p.len() > h.len() {
        return false;
    }
    matches_at(&h, &p, 0)
}

/// Whether `s` ends with `suffix`.
pub fn ends_with(s: &str, suffix: &str) -> (r: bool)
    ensures
        r == has_suffix(s@, suffix@),
{
    let h = to_chars(s);
    let p = to_chars(suffix);
    if p.len() > h.len() {
        return false;
    }
    matches_at(&h, &p, h.len() - p.len())
}


/// Byte offset, in the UTF-8 encoding of `s`, at which character `k` starts.
pub open spec fn char_offset(s: Seq<char>, k: int) -> int {
    byte_len(s.take(k))
}

/// Number of bytes that encode `c`.
pub open spec fn char_width(c: char) -> int {
    encode_scalar(c as u32).len() as int
}

/// Number of characters at the front of `s` that are not whitespace.
pub open spec fn leading_non_ws(s: Seq<char>) -> nat
    decreases s.len(),
{
    if s.len() == 0 || is_white_space(s[0]) {
        0
    } else {
        1 + leading_non_ws(s.drop_first())
    }
}

/// The maximal runs of characters of `s` that are not whitespace, in order.
pub open spec fn tokens(s: Seq<char>) -> Seq<Seq<char>>
    decreases s.len(),
{
    if s.len() == 0 {
        Seq::empty()
    } else if is_white_space(s[0]) {
        tokens(s.drop_first())
    } else {
        let n = leading_non_ws(s);
        if n >= s.len() {
            seq![s]
        } else {
            seq![s.take(n as int)] + tokens(s.skip(n as int))
        }
    }
}

/// Number of characters of `s` before its first line feed.
pub open spec fn first_newline(s: Seq<char>) -> nat
    decreases s.len(),
{
    if s.len() == 0 || s[0] == '\n' {
        0
    } else {
        1 + first_newline(s.drop_first())
    }
}

/// `line` without one carriage return at its end.
pub open spec fn strip_cr(line: Seq<char>) -> Seq<char> {
    if line.len() > 0 && line.last() == '\r' {
        line.drop_last()
    } else {
        line
    }
}

/// The lines of `s`: it is cut after each line feed; a line loses its line
/// feed and a carriage return before it; no line follows the last line feed.
pub open spec fn lines_of(s: Seq<char>) -> Seq<Seq<char>>
    decreases s.len(),
{
    if s.len() == 0 {
        Seq::empty()
    } else {
        let n = first_newline(s);
        if n >= s.len() {
            seq![s]
        } else {
            seq![strip_cr(s.take(n as int))] + lines_of(s.skip(n as int + 1))
        }
    }
}

/// The texts of `parts` with `sep` between neighbours.
pub open spec fn joined(parts: Seq<Seq<char>>, sep: Seq<char>) -> Seq<char>
    decreases parts.len(),
{
    if parts.len() == 0 {
        Seq::empty()
    } else if parts.len() == 1 {
        parts[0]
    } else {
        joined(parts.drop_last(), sep) + sep + parts.last()
    }
}

/// The view of a string that may be absent.
pub open spec fn option_view(s: Option<String>) -> Option<Seq<char>> {
    match s {
        Some(t) => Some(t@),
        None => None,
    }
}

/// The views of a vector of strings.
pub open spec fn views(v: Seq<String>) -> Seq<Seq<char>> {
    v.map_values(|s: String| s@)
}

/// The encoding of a text with one character more is the encoding of the
/// text followed by that of the character.
proof fn lemma_encode_push(s: Seq<char>, c: char)
    ensures
        encode_utf8(s.push(c)) == encode_utf8(s) + encode_scalar(c as u32),
    decreases s.len(),
{
    if s.len() == 0 {
        assert(s.push(c).drop_first() =~= Seq::<char>::empty());
        assert(encode_utf8(s.push(c).drop_first()) =~= Seq::<u8>::empty());
        assert(encode_utf8(s) =~= Seq::<u8>::empty());
        assert(encode_utf8(s.push(c)) =~= encode_utf8(s) + encode_scalar(c as u32));
    } else {
        assert(s.push(c).drop_first() =~= s.drop_first().push(c));
        lemma_encode_push(s.drop_first(), c);
        assert(encode_utf8(s.push(c)) =~= encode_utf8(s) + encode_scalar(c as u32));
    }
}

/// The offset of a character is the offset of the one before it plus that
/// one's width.
pub proof fn lemma_char_offset_step(s: Seq<char>, k: int)
    requires
        0 <= k < s.len(),
    ensures
        char_offset(s, k + 1) == char_offset(s, k) + char_width(s[k]),
        char_offset(s, 0) == 0,
        1 <= char_width(s[k]) <= 4,
{
    assert(s.take(k + 1) =~= s.take(k).push(s[k]));
    lemma_encode_push(s.take(k), s[k]);
    assert(s.take(0) =~= Seq::<char>::empty());
    assert(encode_utf8(s.take(0)) =~= Seq::<u8>::empty());
}

/// The offset of a character is at least its index and at most the length
/// of the encoding, which is the offset of the end.
pub proof fn lemma_char_offset_bounds(s: Seq<char>, k: int)
    requires
        0 <= k <= s.len(),
    ensures
        k <= char_offset(s, k) <= byte_len(s),
        char_offset(s, s.len() as int) == byte_len(s),
    decreases s.len() - k,
{
    assert(s.take(s.len() as int) =~= s);
    if k < s.len() {
        lemma_char_offset_step(s, k);
        lemma_char_offset_bounds(s, k + 1);
    }
    lemma_char_offset_lower(s, k);
}

/// Every character takes at least one byte.
proof fn lemma_char_offset_lower(s: Seq<char>, k: int)
    requires
        0 <= k <= s.len(),
    ensures
        k <= char_offset(s, k),
    decreases k,
{
    if k > 0 {
        lemma_char_offset_step(s, k - 1);
        lemma_char_offset_lower(s, k - 1);
    } else {
        assert(s.take(0) =~= Seq::<char>::empty());
        assert(encode_utf8(s.take(0)) =~= Seq::<u8>::empty());
    }
}

/// A character boundary of a text is one of each prefix that reaches it and
/// ends on a boundary.
proof fn lemma_boundary_in_prefix(bytes: Seq<u8>, a: int, b: int)
    requires
        valid_utf8(bytes),
        0 <= a <= b <= bytes.len(),
        is_char_boundary(bytes, a),
        is_char_boundary(bytes, b),
    ensures
        valid_utf8(bytes.subrange(0, b)),
        is_char_boundary(bytes.subrange(0, b), a),
{
    valid_utf8_split(bytes, b);
    let head = bytes.subrange(0, b);
    if a == b {
        is_char_boundary_start_end_of_seq(head);
    } else {
        is_char_boundary_iff_not_is_continuation_byte(bytes, a);
        is_char_boundary_iff_not_is_continuation_byte(head, a);
        assert(head[a] == bytes[a]);
    }
}

/// Number of bytes that encode `c`.
pub fn utf8_width(c: char) -> (w: usize)
    ensures
        w == char_width(c),
{
    let v: u32 = c as u32;
    proof {
        char_is_scalar(c);
    }
    if v <= 0x7F {
        1
    } else if v <= 0x7FF {
        2
    } else if v <= 0xFFFF {
        3
    } else {
        4
    }
}

/// Length in bytes of the UTF-8 encoding of `s`.
pub fn utf8_len(s: &str) -> (n: usize)
    ensures
        n == byte_len(s@),
{
    s.as_bytes().len()
}

/// The text between byte offsets `a` and `b` of `s`, where they delimit one.
pub fn get_bytes<'a>(s: &'a str, a: usize, b: usize) -> (r: Option<&'a str>)
    ensures
        r is Some <==> valid_byte_range(s@, a as int, b as int),
        r is Some ==> r.unwrap()@ == byte_slice(s@, a as int, b as int),
{
    broadcast use {encode_utf8_valid_utf8, encode_utf8_decode_utf8};

    if a <= b && b <= utf8_len(s) && s.is_char_boundary(a) && s.is_char_boundary(b) {
        let (head, _) = s.split_at(b);
        proof {
            lemma_boundary_in_prefix(s.spec_bytes(), a as int, b as int);
        }
        let (_, mid) = head.split_at(a);
        proof {
            assert(mid.spec_bytes() =~= s.spec_bytes().subrange(a as int, b as int));
            assert(mid@ == decode_utf8(encode_utf8(mid@)));
        }
        Some(mid)
    } else {
        None
    }
}

/// The text from byte offset `a` of `s` to its end, where `a` is within `s`
/// and not inside a character.
pub fn get_bytes_from<'a>(s: &'a str, a: usize) -> (r: Option<&'a str>)
    ensures
        r is Some <==> valid_byte_range(s@, a as int, byte_len(s@)),
        r is Some ==> r.unwrap()@ == byte_slice_from(s@, a as int),
{
    get_bytes(s, a, utf8_len(s))
}

/// The text between byte offsets `a` and `b` of `s`; empty when the range is
/// out of bounds, inverted, or cuts a character in two.
pub fn slice_bytes<'a>(s: &'a str, a: usize, b: usize) -> (r: &'a str)
    ensures
        r@ == byte_slice(s@, a as int, b as int),
{
    match get_bytes(s, a, b) {
        Some(t) => t,
        None => empty_str(),
    }
}

/// The text from byte offset `a` of `s` to its end; empty when `a` is out of
/// bounds or inside a character.
pub fn slice_bytes_from<'a>(s: &'a str, a: usize) -> (r: &'a str)
    ensures
        r@ == byte_slice_from(s@, a as int),
{
    slice_bytes(s, a, utf8_len(s))
}

/// The texts of `parts` with `sep` between neighbours.
pub fn join(parts: &Vec<String>, sep: &str) -> (r: String)
    ensures
        r@ == joined(views(parts@), sep@),
{
    let mut out = String::new();
    let n = parts.len();
    let mut i: usize = 0;
    while i < n
        invariant
            i <= n,
            n == parts@.len(),
            out@ == joined(views(parts@).take(i as int), sep@),
        decreases n - i,
    {
        proof {
            let cur = views(parts@).take(i + 1);
            assert(cur.drop_last() =~= views(parts@).take(i as int));
            assert(cur.last() == parts@[i as int]@);
            if i == 0 {
                assert(out@ + parts@[0]@ =~= parts@[0]@);
            }
        }
        if i > 0 {
            out.append(sep);
        }
        out.append(parts[i].as_str());
        i += 1;
    }
    proof {
        assert(views(parts@).take(n as int) =~= views(parts@));
    }
    out
}


/// A token ends at the first whitespace character.
proof fn lemma_leading_non_ws(s: Seq<char>, m: int)
    requires
        0 <= m <= s.len(),
        forall|k: int| 0 <= k < m ==> !is_white_space(#[trigger] s[k]),
        m == s.len() || is_white_space(s[m]),
    ensures
        leading_non_ws(s) == m,
    decreases m,
{
    if m > 0 {
        let t = s.drop_first();
        assert(!is_white_space(s[0]));
        assert forall|k: int| 0 <= k < m - 1 implies !is_white_space(#[trigger] t[k]) by {
            assert(t[k] == s[k + 1]);
        }
        lemma_leading_non_ws(t, m - 1);
    }
}

/// A line ends at the first line feed.
proof fn lemma_first_newline(s: Seq<char>, m: int)
    requires
        0 <= m <= s.len(),
        forall|k: int| 0 <= k < m ==> #[trigger] s[k] != '\n',
        m == s.len() || s[m] == '\n',
    ensures
        first_newline(s) == m,
    decreases m,
{
    if m > 0 {
        let t = s.drop_first();
        assert(s[0] != '\n');
        assert forall|k: int| 0 <= k < m - 1 implies #[trigger] t[k] != '\n' by {
            assert(t[k] == s[k + 1]);
        }
        lemma_first_newline(t, m - 1);
    }
}

/// The maximal runs of characters of `s` that are not whitespace, in order.
pub fn split_whitespace(s: &str) -> (r: Vec<String>)
    ensures
        views(r@) == tokens(s@),
{
    let chars = to_chars(s);
    let n = chars.len();
    let mut out: Vec<String> = Vec::new();
    let mut i: usize = 0;
    proof {
        assert(s@.skip(0) =~= s@);
        assert(views(out@) + tokens(s@) =~= tokens(s@));
    }
    while i < n
        invariant
            i <= n,
            n == chars@.len(),
            chars@ == s@,
            tokens(s@) == views(out@) + tokens(s@.skip(i as int)),
        decreases n - i,
    {
        let ghost rest = s@.skip(i as int);
        if is_whitespace(chars[i]) {
            proof {
                assert(rest[0] == s@[i as int]);
                assert(rest.drop_first() =~= s@.skip(i + 1));
            }
            i += 1;
        } else {
            let start = i;
            let mut e: usize = i + 1;
            while e < n && !is_whitespace(chars[e])
                invariant
                    start < e <= n,
                    n == chars@.len(),
                    forall|k: int| start <= k < e ==> !is_white_space(#[trigger] chars@[k]),
                decreases n - e,
            {
                e += 1;
            }
            let token = s.substring_char(start, e).to_owned();
            proof {
                assert(rest[0] == s@[start as int]);
                assert forall|k: int| 0 <= k < e - start implies !is_white_space(
                    #[trigger] rest[k],
                ) by {
                    assert(rest[k] == chars@[start + k]);
                }
                if e < n {
                    assert(rest[e - start] == chars@[e as int]);
                }
                lemma_leading_non_ws(rest, e - start);
                let old_views = views(out@);
                assert(views(out@.push(token)) =~= old_views.push(token@));
                if e == n {
                    assert(rest =~= s@.subrange(start as int, e as int));
                    assert(s@.skip(e as int) =~= Seq::<char>::empty());
                    assert(tokens(s@.skip(e as int)) =~= Seq::<Seq<char>>::empty());
                    assert(old_views + seq![rest] =~= old_views.push(token@) + tokens(
                        s@.skip(e as int),
                    ));
                } else {
                    assert(rest.take(e - start) =~= s@.subrange(start as int, e as int));
                    assert(rest.skip(e - start) =~= s@.skip(e as int));
                    assert(old_views + (seq![rest.take(e - start)] + tokens(s@.skip(e as int)))
                        =~= old_views.push(token@) + tokens(s@.skip(e as int)));
                }
            }
            out.push(token);
            i = e;
        }
    }
    proof {
        assert(s@.skip(n as int) =~= Seq::<char>::empty());
        assert(views(out@) + tokens(s@.skip(n as int)) =~= views(out@));
    }
    out
}

/// The lines of `s`, without their line endings.
pub fn split_lines(s: &str) -> (r: Vec<String>)
    ensures
        views(r@) == lines_of(s@),
{
    let chars = to_chars(s);
    let n = chars.len();
    let mut out: Vec<String> = Vec::new();
    let mut i: usize = 0;
    proof {
        assert(s@.skip(0) =~= s@);
        assert(views(out@) + lines_of(s@) =~= lines_of(s@));
    }
    while i < n
        invariant
            i <= n,
            n == chars@.len(),
            chars@ == s@,
            lines_of(s@) == views(out@) + lines_of(s@.skip(i as int)),
        decreases n - i,
    {
        let ghost rest = s@.skip(i as int);
        let start = i;
        let mut e: usize = i;
        while e < n && chars[e] != '\n'
            invariant
                start <= e <= n,
                n == chars@.len(),
                forall|k: int| start <= k < e ==> #[trigger] chars@[k] != '\n',
            decreases n - e,
        {
            e += 1;
        }
        proof {
            assert forall|k: int| 0 <= k < e - start implies #[trigger] rest[k] != '\n' by {
                assert(rest[k] == chars@[start + k]);
            }
            if e < n {
                assert(rest[e - start] == chars@[e as int]);
            }
            lemma_first_newline(rest, e - start);
        }
        let ghost old_views = views(out@);
        if e == n {
            let line = s.substring_char(start, e).to_owned();
            proof {
                assert(rest =~= s@.subrange(start as int, e as int));
                assert(views(out@.push(line)) =~= old_views.push(line@));
                assert(s@.skip(n as int) =~= Seq::<char>::empty());
                assert(lines_of(s@.skip(n as int)) =~= Seq::<Seq<char>>::empty());
                assert(old_views + seq![rest] =~= old_views.push(line@) + lines_of(
                    s@.skip(n as int),
                ));
            }
            out.push(line);
            i = n;
        } else {
            let stop = if e > start && chars[e - 1] == '\r' {
                e - 1
            } else {
                e
            };
            let line = s.substring_char(start, stop).to_owned();
            proof {
                let raw = rest.take(e - start);
                assert(raw =~= s@.subrange(start as int, e as int));
                if e > start {
                    assert(raw.last() == chars@[e - 1]);
                }
                assert(strip_cr(raw) =~= s@.subrange(start as int, stop as int));
                assert(rest.skip(e - start + 1) =~= s@.skip(e + 1));
                assert(views(out@.push(line)) =~= old_views.push(line@));
                assert(old_views + (seq![strip_cr(raw)] + lines_of(s@.skip(e + 1)))
                    =~= old_views.push(line@) + lines_of(s@.skip(e + 1)));
            }
            out.push(line);
            i = e + 1;
        }
    }
    proof {
        assert(s@.skip(n as int) =~= Seq::<char>::empty());
        assert(views(out@) + lines_of(s@.skip(n as int)) =~= views(out@));
    }
    out
}

/// The character that writes the decimal digit `d`.
pub open spec fn digit_char(d: int) -> char {
    if d == 0 {
        '0'
    } else if d == 1 {
        '1'
    } else if d == 2 {
        '2'
    } else if d == 3 {
        '3'
    } else if d == 4 {
        '4'
    } else if d == 5 {
        '5'
    } else if d == 6 {
        '6'
    } else if d == 7 {
        '7'
    } else if d == 8 {
        '8'
    } else {
        '9'
    }
}

/// The decimal numeral of `n`, without leading zeros.
pub open spec fn decimal(n: nat) -> Seq<char>
    decreases n,
{
    if n < 10 {
        seq![digit_char(n as int)]
    } else {
        decimal(n / 10).push(digit_char((n % 10) as int))
    }
}

/// The decimal numeral of `n`, with zeros in front up to `width` digits.
pub open spec fn zero_padded(n: nat, width: nat) -> Seq<char>
    decreases width,
{
    if width <= decimal(n).len() {
        decimal(n)
    } else {
        seq!['0'] + zero_padded(n, (width - 1) as nat)
    }
}

/// The text of one decimal digit.
pub fn digit_str(d: u8) -> (r: &'static str)
    requires
        d < 10,
    ensures
        r@ == seq![digit_char(d as int)],
{
    proof {
        reveal_strlit("0");
        reveal_strlit("1");
        reveal_strlit("2");
        reveal_strlit("3");
        reveal_strlit("4");
        reveal_strlit("5");
        reveal_strlit("6");
        reveal_strlit("7");
        reveal_strlit("8");
        reveal_strlit("9");
    }
    let r = if d == 0 {
        "0"
    } else if d == 1 {
        "1"
    } else if d == 2 {
        "2"
    } else if d == 3 {
        "3"
    } else if d == 4 {
        "4"
    } else if d == 5 {
        "5"
    } else if d == 6 {
        "6"
    } else if d == 7 {
        "7"
    } else if d == 8 {
        "8"
    } else {
        "9"
    };
    proof {
        assert(r@ =~= seq![digit_char(d as int)]);
    }
    r
}

/// The decimal numeral of `n`, without leading zeros.
pub fn decimal_string(n: u64) -> (r: String)
    ensures
        r@ == decimal(n as nat),
    decreases n,
{
    if n < 10 {
        digit_str(n as u8).to_owned()
    } else {
        let mut s = decimal_string(n / 10);
        s.append(digit_str((n % 10) as u8));
        proof {
            assert(decimal((n / 10) as nat) + seq![digit_char((n % 10) as int)] =~= decimal(
                (n / 10) as nat,
            ).push(digit_char((n % 10) as int)));
        }
        s
    }
}

/// The decimal numeral of `n`, with zeros in front up to `width` digits.
pub fn zero_padded_string(n: u64, width: usize) -> (r: String)
    ensures
        r@ == zero_padded(n as nat, width as nat),
{
    let digits = decimal_string(n);
    let len = digits.as_str().unicode_len();
    let mut out = String::new();
    let mut w: usize = width;
    proof {
        assert(out@ + zero_padded(n as nat, w as nat) =~= zero_padded(n as nat, width as nat));
    }
    while w > len
        invariant
            len == decimal(n as nat).len(),
            out@ + zero_padded(n as nat, w as nat) == zero_padded(n as nat, width as nat),
        decreases w,
    {
        proof {
            reveal_strlit("0");
            assert("0"@ =~= seq!['0']);
            assert((out@ + seq!['0']) + zero_padded(n as nat, (w - 1) as nat) =~= out@ + (seq!['0']
                + zero_padded(n as nat, (w - 1) as nat)));
        }
        out.append("0");
        w -= 1;
    }
    out.append(digits.as_str());
    out
}


/// Index of the first element of `s` that satisfies `p`; the length of `s`
/// when none does.
pub open spec fn first_index<A>(s: Seq<A>, p: spec_fn(A) -> bool) -> int
    decreases s.len(),
{
    if s.len() == 0 || p(s[0]) {
        0
    } else {
        1 + first_index(s.drop_first(), p)
    }
}

/// An index is the first index where nothing before it satisfies the
/// predicate and the element at it does, or it is the end.
pub proof fn lemma_first_index<A>(s: Seq<A>, p: spec_fn(A) -> bool, i: int)
    requires
        0 <= i <= s.len(),
        forall|k: int| 0 <= k < i ==> !p(#[trigger] s[k]),
        i == s.len() || p(s[i]),
    ensures
        first_index(s, p) == i,
    decreases i,
{
    if i > 0 {
        let t = s.drop_first();
        assert(!p(s[0]));
        assert forall|k: int| 0 <= k < i - 1 implies !p(#[trigger] t[k]) by {
            assert(t[k] == s[k + 1]);
        }
        lemma_first_index(t, p, i - 1);
    }
}

/// A cell of a line: the text between two byte offsets, trimmed.
pub open spec fn cell(line: Seq<char>, a: int, b: int) -> Seq<char> {
    trimmed(byte_slice(line, a, b))
}

/// The last cell of a line: the text from a byte offset on, trimmed.
pub open spec fn tail_cell(line: Seq<char>, a: int) -> Seq<char> {
    trimmed(byte_slice_from(line, a))
}

/// A cell of a line: the text between two byte offsets, trimmed.
pub fn cell_of(line: &str, a: usize, b: usize) -> (r: String)
    ensures
        r@ == cell(line@, a as int, b as int),
{
    trim(slice_bytes(line, a, b)).to_owned()
}

/// The last cell of a line: the text from a byte offset on, trimmed.
pub fn tail_cell_of(line: &str, a: usize) -> (r: String)
    ensures
        r@ == tail_cell(line@, a as int),
{
    trim(slice_bytes_from(line, a)).to_owned()
}


/// The lower-case form of a text, as the standard library computes it.
pub uninterp spec fn lowercase_spec(s: Seq<char>) -> Seq<char>;

/// Calls `str::to_lowercase`. Its result depends on the text alone and is
/// named `lowercase_spec`.
#[verifier::external_body]
pub(crate) fn lowercase(s: &str) -> (r: String)
    ensures
        r@ == lowercase_spec(s@),
{
    s.to_lowercase()
}

/// Whether two texts are the same.
pub fn same_text(a: &str, b: &str) -> (r: bool)
    ensures
        r == (a@ == b@),
{
    let x = a.to_owned();
    let y = b.to_owned();
    x == y
}


/// `s` without the occurrences of `pattern`, found from left to right, none
/// overlapping another. An empty pattern takes nothing away.
pub open spec fn without(s: Seq<char>, pattern: Seq<char>) -> Seq<char>
    decreases s.len(),
{
    if pattern.len() == 0 || s.len() < pattern.len() {
        s
    } else if occurs_at(s, pattern, 0) {
        without(s.skip(pattern.len() as int), pattern)
    } else {
        seq![s[0]] + without(s.drop_first(), pattern)
    }
}

/// `s` without the occurrences of `pattern`.
pub fn remove_all(s: &str, pattern: &str) -> (r: String)
    ensures
        r@ == without(s@, pattern@),
{
    let chars = to_chars(s);
    let pat = to_chars(pattern);
    let n = chars.len();
    let m = pat.len();
    if m == 0 || n < m {
        return s.to_owned();
    }
    let mut out = String::new();
    let mut i: usize = 0;
    proof {
        assert(s@.skip(0) =~= s@);
        assert(out@ + without(s@, pattern@) =~= without(s@, pattern@));
    }
    while i <= n - m
        invariant
            0 < m <= n,
            i <= n,
            n == s@.len(),
            m == pattern@.len(),
            chars@ == s@,
            pat@ == pattern@,
            out@ + without(s@.skip(i as int), pattern@) == without(s@, pattern@),
        decreases n - i,
    {
        let ghost rest = s@.skip(i as int);
        let found = matches_at(&chars, &pat, i);
        proof {
            assert(rest.subrange(0, m as int) =~= s@.subrange(i as int, i + m));
        }
        if found {
            proof {
                assert(rest.skip(m as int) =~= s@.skip(i + m));
            }
            i += m;
        } else {
            proof {
                assert(rest.drop_first() =~= s@.skip(i + 1));
                assert(s@.subrange(i as int, i + 1) =~= seq![rest[0]]);
                assert((out@ + seq![rest[0]]) + without(s@.skip(i + 1), pattern@) =~= out@ + (
                seq![rest[0]] + without(s@.skip(i + 1), pattern@)));
            }
            out.append(s.substring_char(i, i + 1));
            i += 1;
        }
    }
    proof {
        assert(without(s@.skip(i as int), pattern@) == s@.skip(i as int));
        assert(s@.skip(i as int) =~= s@.subrange(i as int, n as int));
    }
    out.append(s.substring_char(i, n));
    out
}

/// The value of a decimal digit; `None` for another character.
pub open spec fn digit_value(c: char) -> Option<nat> {
    if '0' <= c <= '9' {
        Some((c as u32 - '0' as u32) as nat)
    } else {
        None
    }
}

/// The number that a text of decimal digits writes; `None` for the empty
/// text and for a text with another character.
pub open spec fn digits_value(s: Seq<char>) -> Option<nat>
    decreases s.len(),
{
    if s.len() == 0 {
        None
    } else if s.len() == 1 {
        digit_value(s[0])
    } else {
        match (digits_value(s.drop_last()), digit_value(s.last())) {
            (Some(v), Some(d)) => Some(v * 10 + d),
            _ => None,
        }
    }
}

/// The number that a text writes as an unsigned integer: decimal digits,
/// with or without a plus sign in front.
pub open spec fn unsigned_value(s: Seq<char>) -> Option<nat> {
    if s.len() > 0 && s[0] == '+' {
        digits_value(s.drop_first())
    } else {
        digits_value(s)
    }
}


/// Nothing is left of the empty text when it is trimmed.
pub proof fn lemma_trimmed_empty()
    ensures
        trimmed(Seq::<char>::empty()) == Seq::<char>::empty(),
{
}


/// In a text of ASCII characters a byte offset is a character index: every
/// range within the text is valid, and the text between two offsets is the
/// characters between them.
pub proof fn lemma_byte_slice_ascii(s: Seq<char>, a: int, b: int)
    requires
        is_ascii_chars(s),
    ensures
        byte_len(s) == s.len(),
        valid_byte_range(s, a, b) <==> 0 <= a <= b <= s.len(),
        byte_slice(s, a, b) == if 0 <= a <= b <= s.len() {
            s.subrange(a, b)
        } else {
            Seq::empty()
        },
{
    let bytes = encode_utf8(s);
    is_ascii_chars_encode_utf8(s);
    encode_utf8_valid_utf8(s);
    is_char_boundary_start_end_of_seq(bytes);
    if 0 <= a <= b <= s.len() {
        if a < s.len() {
            assert(s[a] as u8 == bytes[a]);
            is_char_boundary_iff_not_is_continuation_byte(bytes, a);
        }
        if b < s.len() {
            assert(s[b] as u8 == bytes[b]);
            is_char_boundary_iff_not_is_continuation_byte(bytes, b);
        }
        let part = s.subrange(a, b);
        assert(is_ascii_chars(part)) by {
            assert forall|i: int| 0 <= i < part.len() implies '\0' <= #[trigger] part[i]
                <= '\u{7f}' by {
                assert(part[i] == s[a + i]);
            }
        }
        is_ascii_chars_encode_utf8(part);
        assert(encode_utf8(part) =~= bytes.subrange(a, b)) by {
            assert forall|i: int| 0 <= i < part.len() implies encode_utf8(part)[i]
                == bytes.subrange(a, b)[i] by {
                assert(part[i] as u8 == encode_utf8(part)[i]);
                assert(s[a + i] as u8 == bytes[a + i]);
            }
        }
        encode_utf8_decode_utf8(part);
    }
}

} // verus!
