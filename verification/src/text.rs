//! Character and byte-level text helpers: Unicode white space, trimming,
//! ASCII case folding and line splitting.
use vstd::prelude::*;

verus! {

broadcast use vstd::string::group_string_axioms;

/// `String::push` appends one character to the end of the string.
pub assume_specification[ String::push ](s: &mut String, ch: char)
    ensures
        final(s)@ == old(s)@.push(ch),
;

/// The characters of `s`, in order.
pub fn chars_of(s: &str) -> (r: Vec<char>)
    ensures
        r@ == s@,
{
    let mut r: Vec<char> = Vec::new();
    for c in it: s.chars()
        invariant
            r@ == it.seq().take(it.index() as int),
    {
        r.push(c);
    }
    r
}

/// A `String` holding exactly the characters `s[from..to]`.
pub fn string_of(s: &Vec<char>, from: usize, to: usize) -> (r: String)
    requires
        from <= to <= s.len(),
    ensures
        r@ == s@.subrange(from as int, to as int),
{
    let mut r = String::new();
    let mut i = from;
    while i < to
        invariant
            from <= i <= to <= s.len(),
            r@ == s@.subrange(from as int, i as int),
        decreases to - i,
    {
        r.push(s[i]);
        i = i + 1;
        assert(r@ =~= s@.subrange(from as int, i as int));
    }
    r
}

/// The Unicode `White_Space` property: the characters that `char::is_whitespace`
/// accepts and that `str::trim` removes.
pub open spec fn is_white_space(c: char) -> bool {
    let u = c as u32;
    ||| 0x09 <= u <= 0x0d
    ||| u == 0x20 || u == 0x85 || u == 0xa0 || u == 0x1680
    ||| 0x2000 <= u <= 0x200a
    ||| u == 0x2028 || u == 0x2029 || u == 0x202f || u == 0x205f || u == 0x3000
}

/// Executable test for [`is_white_space`].
pub fn white_space(c: char) -> (b: bool)
    ensures
        b == is_white_space(c),
{
    let u = c as u32;
    (0x09 <= u && u <= 0x0d) || u == 0x20 || u == 0x85 || u == 0xa0 || u == 0x1680 || (0x2000
        <= u && u <= 0x200a) || u == 0x2028 || u == 0x2029 || u == 0x202f || u == 0x205f || u
        == 0x3000
}

/// `s` without its leading white space.
pub open spec fn trim_start(s: Seq<char>) -> Seq<char>
    decreases s.len(),
{
    if s.len() > 0 && is_white_space(s[0]) {
        trim_start(s.drop_first())
    } else {
        s
    }
}

/// `s` without its trailing white space.
pub open spec fn trim_end(s: Seq<char>) -> Seq<char>
    decreases s.len(),
{
    if s.len() > 0 && is_white_space(s.last()) {
        trim_end(s.drop_last())
    } else {
        s
    }
}

/// `s` without leading and trailing white space, as `str::trim` gives it.
pub open spec fn trim(s: Seq<char>) -> Seq<char> {
    trim_end(trim_start(s))
}

/// The bounds `[a, b)` of `trim(s)` inside `s`.
pub fn trim_bounds(s: &Vec<char>) -> (r: (usize, usize))
    ensures
        r.0 <= r.1 <= s.len(),
        s@.subrange(r.0 as int, r.1 as int) == trim(s@),
{
    let n = s.len();
    let mut a: usize = 0;
    assert(s@.subrange(0, n as int) =~= s@);
    while a < n && white_space(s[a])
        invariant
            a <= n == s.len(),
            trim_start(s@) == trim_start(s@.subrange(a as int, n as int)),
        decreases n - a,
    {
        assert(s@.subrange(a as int, n as int).drop_first() =~= s@.subrange(a + 1, n as int));
        a = a + 1;
    }
    let mut b: usize = n;
    while b > a && white_space(s[b - 1])
        invariant
            a <= b <= n == s.len(),
            trim(s@) == trim_end(s@.subrange(a as int, b as int)),
        decreases b - a,
    {
        assert(s@.subrange(a as int, b as int).drop_last() =~= s@.subrange(a as int, b - 1));
        b = b - 1;
    }
    (a, b)
}

/// `s` with leading and trailing white space removed.
pub fn trimmed(s: &str) -> (r: String)
    ensures
        r@ == trim(s@),
{
    let cs = chars_of(s);
    let (a, b) = trim_bounds(&cs);
    string_of(&cs, a, b)
}

/// Whether `s` holds nothing but white space (`s.trim().is_empty()`).
pub fn is_blank(s: &str) -> (b: bool)
    ensures
        b == (trim(s@).len() == 0),
{
    let cs = chars_of(s);
    let (a, b) = trim_bounds(&cs);
    a == b
}


/// The ASCII lower-case form of a byte; other bytes are unchanged.
pub open spec fn ascii_lower(b: u8) -> u8 {
    if 65 <= b <= 90 {
        (b + 32) as u8
    } else {
        b
    }
}

/// Executable [`ascii_lower`].
pub fn to_ascii_lower(b: u8) -> (r: u8)
    ensures
        r == ascii_lower(b),
{
    if 65 <= b && b <= 90 {
        b + 32
    } else {
        b
    }
}

/// Byte-wise equality up to ASCII case, as `eq_ignore_ascii_case` compares.
pub open spec fn eq_ignore_ascii_case(a: Seq<u8>, b: Seq<u8>) -> bool {
    &&& a.len() == b.len()
    &&& forall|i: int| 0 <= i < a.len() ==> ascii_lower(#[trigger] a[i]) == ascii_lower(b[i])
}

/// Whether three bytes encode one of the three-byte UTF-8 white-space characters
/// U+1680, U+2000..=U+200A, U+2028, U+2029, U+202F, U+205F and U+3000.
pub open spec fn is_space3(x: u8, y: u8, z: u8) -> bool {
    ||| x == 0xe1 && y == 0x9a && z == 0x80
    ||| x == 0xe2 && y == 0x80 && ((0x80 <= z <= 0x8a) || z == 0xa8 || z == 0xa9 || z == 0xaf)
    ||| x == 0xe2 && y == 0x81 && z == 0x9f
    ||| x == 0xe3 && y == 0x80 && z == 0x80
}

/// Whether two bytes encode U+0085 or U+00A0.
pub open spec fn is_space2(x: u8, y: u8) -> bool {
    x == 0xc2 && (y == 0x85 || y == 0xa0)
}

/// Whether a byte is an ASCII white-space character (tab to carriage return, space).
pub open spec fn is_space1(x: u8) -> bool {
    (9 <= x <= 13) || x == 32
}

/// The length of the UTF-8 encoded white-space character that `b` starts with, or 0.
pub open spec fn leading_space_width(b: Seq<u8>) -> int {
    if b.len() >= 1 && is_space1(b[0]) {
        1
    } else if b.len() >= 2 && is_space2(b[0], b[1]) {
        2
    } else if b.len() >= 3 && is_space3(b[0], b[1], b[2]) {
        3
    } else {
        0
    }
}

/// The length of the UTF-8 encoded white-space character that `b` ends with, or 0.
pub open spec fn trailing_space_width(b: Seq<u8>) -> int {
    let n = b.len() as int;
    if n >= 1 && is_space1(b[n - 1]) {
        1
    } else if n >= 2 && is_space2(b[n - 2], b[n - 1]) {
        2
    } else if n >= 3 && is_space3(b[n - 3], b[n - 2], b[n - 1]) {
        3
    } else {
        0
    }
}

/// UTF-8 text `b` without its leading white space.
pub open spec fn trim_start_bytes(b: Seq<u8>) -> Seq<u8>
    decreases b.len(),
{
    if leading_space_width(b) > 0 {
        trim_start_bytes(b.skip(leading_space_width(b)))
    } else {
        b
    }
}

/// UTF-8 text `b` without its trailing white space.
pub open spec fn trim_end_bytes(b: Seq<u8>) -> Seq<u8>
    decreases b.len(),
{
    if trailing_space_width(b) > 0 {
        trim_end_bytes(b.take(b.len() - trailing_space_width(b)))
    } else {
        b
    }
}

/// UTF-8 text `b` without leading and trailing white space.
pub open spec fn trim_bytes(b: Seq<u8>) -> Seq<u8> {
    trim_end_bytes(trim_start_bytes(b))
}

/// [`leading_space_width`] of `t[a..end]`.
fn leading_space_width_at(t: &[u8], a: usize, end: usize) -> (w: usize)
    requires
        a <= end <= t.len(),
    ensures
        w == leading_space_width(t@.subrange(a as int, end as int)),
{
    let ghost s = t@.subrange(a as int, end as int);
    let n = end - a;
    if n >= 1 && ((9 <= t[a] && t[a] <= 13) || t[a] == 32) {
        1
    } else if n >= 2 && t[a] == 0xc2 && (t[a + 1] == 0x85 || t[a + 1] == 0xa0) {
        2
    } else if n >= 3 && space3(t[a], t[a + 1], t[a + 2]) {
        3
    } else {
        0
    }
}

/// [`trailing_space_width`] of `t[start..b]`.
fn trailing_space_width_at(t: &[u8], start: usize, b: usize) -> (w: usize)
    requires
        start <= b <= t.len(),
    ensures
        w == trailing_space_width(t@.subrange(start as int, b as int)),
{
    let n = b - start;
    if n >= 1 && ((9 <= t[b - 1] && t[b - 1] <= 13) || t[b - 1] == 32) {
        1
    } else if n >= 2 && t[b - 2] == 0xc2 && (t[b - 1] == 0x85 || t[b - 1] == 0xa0) {
        2
    } else if n >= 3 && space3(t[b - 3], t[b - 2], t[b - 1]) {
        3
    } else {
        0
    }
}

/// Executable [`is_space3`].
fn space3(x: u8, y: u8, z: u8) -> (r: bool)
    ensures
        r == is_space3(x, y, z),
{
    (x == 0xe1 && y == 0x9a && z == 0x80) || (x == 0xe2 && y == 0x80 && ((0x80 <= z && z <= 0x8a)
        || z == 0xa8 || z == 0xa9 || z == 0xaf)) || (x == 0xe2 && y == 0x81 && z == 0x9f) || (x
        == 0xe3 && y == 0x80 && z == 0x80)
}

/// The bounds `[a, b)` of `trim_bytes(t[start..end])` inside `t`.
pub fn trim_bytes_bounds(t: &[u8], start: usize, end: usize) -> (r: (usize, usize))
    requires
        start <= end <= t.len(),
    ensures
        start <= r.0 <= r.1 <= end,
        t@.subrange(r.0 as int, r.1 as int) == trim_bytes(t@.subrange(start as int, end as int)),
{
    let mut a = start;
    loop
        invariant
            start <= a <= end <= t.len(),
            trim_start_bytes(t@.subrange(start as int, end as int)) == trim_start_bytes(
                t@.subrange(a as int, end as int),
            ),
        ensures
            start <= a <= end,
            trim_start_bytes(t@.subrange(start as int, end as int)) == t@.subrange(
                a as int,
                end as int,
            ),
        decreases end - a,
    {
        let w = leading_space_width_at(t, a, end);
        if w == 0 {
            break;
        }
        assert(t@.subrange(a as int, end as int).skip(w as int) =~= t@.subrange(a + w, end as int));
        a = a + w;
    }
    let mut b = end;
    loop
        invariant
            a <= b <= end <= t.len(),
            trim_bytes(t@.subrange(start as int, end as int)) == trim_end_bytes(
                t@.subrange(a as int, b as int),
            ),
        ensures
            a <= b <= end,
            trim_bytes(t@.subrange(start as int, end as int)) == t@.subrange(a as int, b as int),
        decreases b - a,
    {
        let w = trailing_space_width_at(t, a, b);
        if w == 0 {
            break;
        }
        assert(t@.subrange(a as int, b as int).take(b - a - w) =~= t@.subrange(a as int, b - w));
        b = b - w;
    }
    (a, b)
}


/// Whether the characters `s` hold `c`.
pub fn vec_contains(s: &Vec<char>, c: char) -> (r: bool)
    ensures
        r == s@.contains(c),
{
    let mut i: usize = 0;
    while i < s.len()
        invariant
            i <= s.len(),
            forall|k: int| 0 <= k < i ==> s@[k] != c,
        decreases s.len() - i,
    {
        if s[i] == c {
            return true;
        }
        i = i + 1;
    }
    false
}

/// Whether `s` holds the character `c`.
pub fn str_contains(s: &str, c: char) -> (r: bool)
    ensures
        r == s@.contains(c),
{
    vec_contains(&chars_of(s), c)
}

/// Whether two character sequences are equal.
pub fn chars_eq(a: &Vec<char>, b: &Vec<char>) -> (r: bool)
    ensures
        r == (a@ == b@),
{
    if a.len() != b.len() {
        return false;
    }
    let mut i: usize = 0;
    while i < a.len()
        invariant
            i <= a.len() == b.len(),
            forall|k: int| 0 <= k < i ==> a@[k] == b@[k],
        decreases a.len() - i,
    {
        if a[i] != b[i] {
            return false;
        }
        i = i + 1;
    }
    assert(a@ =~= b@);
    true
}


/// Trimming keeps a contiguous part of the text: what it drops before and after is
/// white space, and what it keeps, unless empty, begins and ends with a character that
/// is not white space.
pub proof fn lemma_trim_drops_only_white_space(s: Seq<char>)
    ensures
        exists|i: int, j: int|
            0 <= i <= j <= s.len() && #[trigger] s.subrange(i, j) == trim(s) && (forall|k: int|
                0 <= k < i ==> is_white_space(s[k])) && (forall|k: int|
                j <= k < s.len() ==> is_white_space(s[k])) && (i < j ==> !is_white_space(s[i])
                && !is_white_space(s[j - 1])),
{
    let (i, t) = lemma_trim_start_part(s);
    let j = lemma_trim_end_part(t);
    assert(s.subrange(i, i + j) =~= t.subrange(0, j));
    assert forall|k: int| i + j <= k < s.len() implies is_white_space(s[k]) by {
        assert(s[k] == t[k - i]);
    }
    if j > 0 {
        assert(s[i] == t[0]);
        assert(s[i + j - 1] == t[j - 1]);
    }
    assert(s.subrange(i, i + j) == trim(s));
}

proof fn lemma_trim_start_part(s: Seq<char>) -> (r: (int, Seq<char>))
    ensures
        0 <= r.0 <= s.len(),
        r.1 == s.skip(r.0),
        r.1 == trim_start(s),
        forall|k: int| 0 <= k < r.0 ==> is_white_space(s[k]),
        r.1.len() > 0 ==> !is_white_space(r.1[0]),
    decreases s.len(),
{
    if s.len() > 0 && is_white_space(s[0]) {
        let (i, t) = lemma_trim_start_part(s.drop_first());
        assert(s.skip(i + 1) =~= s.drop_first().skip(i));
        assert forall|k: int| 0 <= k < i + 1 implies is_white_space(s[k]) by {
            if k > 0 {
                assert(s[k] == s.drop_first()[k - 1]);
            }
        }
        (i + 1, t)
    } else {
        assert(s.skip(0) =~= s);
        (0, s)
    }
}

proof fn lemma_trim_end_part(s: Seq<char>) -> (j: int)
    ensures
        0 <= j <= s.len(),
        s.subrange(0, j) == trim_end(s),
        forall|k: int| j <= k < s.len() ==> is_white_space(s[k]),
        j > 0 ==> !is_white_space(s[j - 1]),
    decreases s.len(),
{
    if s.len() > 0 && is_white_space(s.last()) {
        let j = lemma_trim_end_part(s.drop_last());
        assert(s.subrange(0, j) =~= s.drop_last().subrange(0, j));
        assert forall|k: int| j <= k < s.len() implies is_white_space(s[k]) by {
            if k < s.len() - 1 {
                assert(s[k] == s.drop_last()[k]);
            }
        }
        j
    } else {
        assert(s.subrange(0, s.len() as int) =~= s);
        s.len() as int
    }
}

} // verus!
