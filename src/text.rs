//! Character-level helpers over strings, with their specifications.
use vstd::prelude::*;

verus! {

/// The characters of `s`, in order.
pub fn chars_of(s: &str) -> (r: Vec<char>)
    ensures
        r@ == s@,
{
    let mut out: Vec<char> = Vec::new();
    for c in it: s.chars()
        invariant
            out@ == it.seq().take(it.index() as int),
    {
        out.push(c);
    }
    out
}

/// Relies on `FromIterator<char> for String`: the string holds exactly the given characters.
#[verifier::external_body]
pub(crate) fn string_from_chars(v: &Vec<char>) -> (r: String)
    ensures
        r@ == v@,
{
    v.iter().collect()
}


/// Copies `v[lo..hi]`.
pub fn slice_chars(v: &Vec<char>, lo: usize, hi: usize) -> (r: Vec<char>)
    requires
        lo <= hi <= v@.len(),
    ensures
        r@ == v@.subrange(lo as int, hi as int),
{
    let mut out: Vec<char> = Vec::new();
    let mut i: usize = lo;
    while i < hi
        invariant
            lo <= i <= hi <= v@.len(),
            out@ == v@.subrange(lo as int, i as int),
        decreases hi - i,
    {
        out.push(v[i]);
        i = i + 1;
        assert(out@ =~= v@.subrange(lo as int, i as int));
    }
    out
}

/// ASCII case folding of one character, as a code point.
pub open spec fn lower_code(c: char) -> u32 {
    if 65 <= (c as u32) <= 90 {
        ((c as u32) + 32) as u32
    } else {
        c as u32
    }
}

/// Equality of two characters up to ASCII case.
pub open spec fn eq_ci(a: char, b: char) -> bool {
    lower_code(a) == lower_code(b)
}

/// Equality of two character sequences up to ASCII case.
pub open spec fn seq_eq_ci(a: Seq<char>, b: Seq<char>) -> bool {
    a.len() == b.len() && forall|j: int| 0 <= j < a.len() ==> eq_ci(#[trigger] a[j], b[j])
}

/// `needle` occurs in `hay` at position `i`, up to ASCII case.
pub open spec fn occurs_ci_at(hay: Seq<char>, needle: Seq<char>, i: int) -> bool {
    0 <= i && i + needle.len() <= hay.len() && forall|j: int|
        0 <= j < needle.len() ==> eq_ci(#[trigger] hay[i + j], needle[j])
}

/// `needle` occurs somewhere in `hay`, up to ASCII case.
pub open spec fn contains_ci(hay: Seq<char>, needle: Seq<char>) -> bool {
    exists|i: int| occurs_ci_at(hay, needle, i)
}

fn lower_code_of(c: char) -> (r: u32)
    ensures
        r == lower_code(c),
{
    let u = c as u32;
    if 65 <= u && u <= 90 {
        u + 32
    } else {
        u
    }
}

/// Whether `a` and `b` are equal up to ASCII case.
pub fn eq_ignore_case(a: &Vec<char>, b: &str) -> (r: bool)
    ensures
        r == seq_eq_ci(a@, b@),
{
    let n = b.unicode_len();
    if a.len() != n {
        return false;
    }
    let mut i: usize = 0;
    while i < n
        invariant
            i <= n,
            n == a@.len(),
            n == b@.len(),
            forall|j: int| 0 <= j < i ==> eq_ci(#[trigger] a@[j], b@[j]),
        decreases n - i,
    {
        if lower_code_of(a[i]) != lower_code_of(b.get_char(i)) {
            return false;
        }
        i = i + 1;
    }
    true
}

/// Whether `needle` occurs in `hay`, up to ASCII case.
pub fn contains_ignore_case(hay: &Vec<char>, needle: &str) -> (r: bool)
    ensures
        r == contains_ci(hay@, needle@),
{
    let nc = chars_of(needle);
    let n = nc.len();
    if n == 0 {
        assert(occurs_ci_at(hay@, needle@, 0));
        return true;
    }
    if n > hay.len() {
        return false;
    }
    let last = hay.len() - n;
    let mut i: usize = 0;
    while i <= last
        invariant
            n == needle@.len(),
            nc@ == needle@,
            last + n == hay@.len(),
            hay@.len() == hay.len(),
            n > 0,
            forall|k: int| 0 <= k < i ==> !occurs_ci_at(hay@, needle@, k),
        decreases last + 1 - i,
    {
        let mut j: usize = 0;
        let mut ok: bool = true;
        while j < n
            invariant
                j <= n,
                i <= last,
                n == needle@.len(),
                nc@ == needle@,
                last + n == hay@.len(),
            hay@.len() == hay.len(),
                n > 0,
                ok == forall|t: int| 0 <= t < j ==> eq_ci(#[trigger] hay@[i + t], needle@[t]),
            decreases n - j,
        {
            if lower_code_of(hay[i + j]) != lower_code_of(nc[j]) {
                ok = false;
            }
            j = j + 1;
        }
        if ok {
            assert(occurs_ci_at(hay@, needle@, i as int));
            return true;
        }
        i = i + 1;
    }
    assert forall|k: int| !occurs_ci_at(hay@, needle@, k) by {
        if 0 <= k && k + n <= hay@.len() {
            assert(k < i);
        }
    }
    false
}

/// Unicode `White_Space`, as `char::is_whitespace` documents it.
pub open spec fn is_ws(c: char) -> bool {
    let u = c as u32;
    (9 <= u <= 13) || u == 32 || u == 0x85 || u == 0xA0 || u == 0x1680 || (0x2000 <= u <= 0x200A)
        || u == 0x2028 || u == 0x2029 || u == 0x202F || u == 0x205F || u == 0x3000
}

/// The characters that a trim removes: white space, or double quotes.
pub open spec fn trims(c: char, quotes: bool) -> bool {
    if quotes {
        c == '"'
    } else {
        is_ws(c)
    }
}

pub open spec fn strip_leading(s: Seq<char>, quotes: bool) -> Seq<char>
    decreases s.len(),
{
    if s.len() > 0 && trims(s[0], quotes) {
        strip_leading(s.drop_first(), quotes)
    } else {
        s
    }
}

pub open spec fn strip_trailing(s: Seq<char>, quotes: bool) -> Seq<char>
    decreases s.len(),
{
    if s.len() > 0 && trims(s.last(), quotes) {
        strip_trailing(s.drop_last(), quotes)
    } else {
        s
    }
}

/// `s` without leading and trailing white space (as `str::trim`).
pub open spec fn trim_ws(s: Seq<char>) -> Seq<char> {
    strip_trailing(strip_leading(s, false), false)
}

/// `s` without leading and trailing double quotes (as `str::trim_matches('"')`).
pub open spec fn trim_quotes(s: Seq<char>) -> Seq<char> {
    strip_trailing(strip_leading(s, true), true)
}

fn trims_exec(c: char, quotes: bool) -> (r: bool)
    ensures
        r == trims(c, quotes),
{
    if quotes {
        c == '"'
    } else {
        let u = c as u32;
        (9 <= u && u <= 13) || u == 32 || u == 0x85 || u == 0xA0 || u == 0x1680 || (0x2000 <= u
            && u <= 0x200A) || u == 0x2028 || u == 0x2029 || u == 0x202F || u == 0x205F || u
            == 0x3000
    }
}

proof fn lemma_strip_leading_skip(s: Seq<char>, i: int, quotes: bool)
    requires
        0 <= i <= s.len(),
        forall|k: int| 0 <= k < i ==> trims(#[trigger] s[k], quotes),
    ensures
        strip_leading(s, quotes) == strip_leading(s.subrange(i, s.len() as int), quotes),
    decreases i,
{
    if i > 0 {
        assert(trims(s[0], quotes));
        let t = s.drop_first();
        assert forall|k: int| 0 <= k < i - 1 implies trims(#[trigger] t[k], quotes) by {
            assert(t[k] == s[k + 1]);
        }
        lemma_strip_leading_skip(t, i - 1, quotes);
        assert(t.subrange(i - 1, t.len() as int) =~= s.subrange(i, s.len() as int));
    } else {
        assert(s.subrange(0, s.len() as int) =~= s);
    }
}

proof fn lemma_strip_trailing_skip(s: Seq<char>, j: int, quotes: bool)
    requires
        0 <= j <= s.len(),
        forall|k: int| j <= k < s.len() ==> trims(#[trigger] s[k], quotes),
    ensures
        strip_trailing(s, quotes) == strip_trailing(s.subrange(0, j), quotes),
    decreases s.len() - j,
{
    if j < s.len() {
        assert(trims(s.last(), quotes));
        let t = s.drop_last();
        lemma_strip_trailing_skip(t, j, quotes);
        assert(t.subrange(0, j) =~= s.subrange(0, j));
    } else {
        assert(s.subrange(0, j) =~= s);
    }
}

/// `v` without the leading and trailing characters that `quotes` selects.
pub fn trim_chars(v: &Vec<char>, quotes: bool) -> (r: Vec<char>)
    ensures
        r@ == strip_trailing(strip_leading(v@, quotes), quotes),
{
    let n = v.len();
    let mut i: usize = 0;
    while i < n && trims_exec(v[i], quotes)
        invariant
            i <= n == v@.len(),
            forall|k: int| 0 <= k < i ==> trims(#[trigger] v@[k], quotes),
        decreases n - i,
    {
        i = i + 1;
    }
    proof {
        lemma_strip_leading_skip(v@, i as int, quotes);
    }
    let ghost rest = v@.subrange(i as int, n as int);
    assert(strip_leading(rest, quotes) == rest);
    let mut j: usize = n;
    while j > i && trims_exec(v[j - 1], quotes)
        invariant
            i <= j <= n == v@.len(),
            rest == v@.subrange(i as int, n as int),
            forall|k: int| j - i <= k < rest.len() ==> trims(#[trigger] rest[k], quotes),
        decreases j,
    {
        j = j - 1;
    }
    proof {
        lemma_strip_trailing_skip(rest, j - i, quotes);
        if j > i {
            assert(rest.subrange(0, j - i).last() == v@[j - 1]);
        }
        assert(rest.subrange(0, j - i) =~= v@.subrange(i as int, j as int));
    }
    slice_chars(v, i, j)
}

/// Whether `a` and `b` hold the same characters.
pub fn same_chars(a: &Vec<char>, b: &Vec<char>) -> (r: bool)
    ensures
        r == (a@ == b@),
{
    if a.len() != b.len() {
        return false;
    }
    let mut i: usize = 0;
    while i < a.len()
        invariant
            i <= a@.len() == b@.len(),
            forall|k: int| 0 <= k < i ==> a@[k] == b@[k],
        decreases a@.len() - i,
    {
        if a[i] != b[i] {
            return false;
        }
        i = i + 1;
    }
    assert(a@ =~= b@);
    true
}

/// Appends the characters of `v` to `out`.
pub fn push_all(out: &mut Vec<char>, v: &Vec<char>)
    ensures
        final(out)@ == old(out)@ + v@,
{
    let ghost start = out@;
    let mut i: usize = 0;
    while i < v.len()
        invariant
            i <= v@.len(),
            out@ == start + v@.take(i as int),
        decreases v@.len() - i,
    {
        out.push(v[i]);
        i = i + 1;
        assert(out@ =~= start + v@.take(i as int));
    }
    assert(v@.take(v@.len() as int) =~= v@);
}

/// `s` without leading and trailing white space.
pub fn trim_string(s: &str) -> (r: String)
    ensures
        r@ == trim_ws(s@),
{
    let cs = chars_of(s);
    let t = trim_chars(&cs, false);
    string_from_chars(&t)
}

/// The name of what `String::from_utf16` returns for a sequence of code units.
pub uninterp spec fn utf16_decoded(units: Seq<u16>) -> Option<Seq<char>>;

/// Relies on `String::from_utf16`: decodes UTF-16 text, or fails (on an unpaired
/// surrogate); the result depends on the code units alone.
#[verifier::external_body]
fn decode_utf16(units: &[u16]) -> (r: Option<String>)
    ensures
        match r {
            Some(s) => utf16_decoded(units@) == Some(s@),
            None => utf16_decoded(units@).is_none(),
        },
{
    String::from_utf16(units).ok()
}

/// Number of code units before the first NUL of `b`, or all of them.
pub open spec fn nul_prefix_len(b: Seq<u16>) -> int
    decreases b.len(),
{
    if b.len() == 0 || b[0] == 0 {
        0
    } else {
        1 + nul_prefix_len(b.drop_first())
    }
}

/// The text of a NUL-terminated UTF-16 buffer, trimmed; none where it is empty
/// or does not decode.
pub open spec fn wide_text(b: Seq<u16>) -> Option<Seq<char>> {
    let n = nul_prefix_len(b);
    if n == 0 {
        None
    } else {
        match utf16_decoded(b.take(n)) {
            Some(s) => Some(trim_ws(s)),
            None => None,
        }
    }
}

/// Reads the text of a NUL-terminated UTF-16 buffer: the code units before the
/// first NUL (all of them where there is none), decoded and trimmed. None where
/// that prefix is empty or is not valid UTF-16.
pub fn string_from_wide(buffer: &[u16]) -> (r: Option<String>)
    ensures
        match r {
            Some(s) => wide_text(buffer@) == Some(s@),
            None => wide_text(buffer@).is_none(),
        },
{
    let mut units: Vec<u16> = Vec::new();
    let mut i: usize = 0;
    assert(buffer@.skip(0) =~= buffer@);
    while i < buffer.len() && buffer[i] != 0
        invariant
            i <= buffer@.len(),
            units@ == buffer@.take(i as int),
            nul_prefix_len(buffer@) == i + nul_prefix_len(buffer@.skip(i as int)),
        decreases buffer@.len() - i,
    {
        assert(buffer@.skip(i as int).drop_first() =~= buffer@.skip(i + 1));
        units.push(buffer[i]);
        i = i + 1;
        assert(units@ =~= buffer@.take(i as int));
    }
    assert(nul_prefix_len(buffer@.skip(i as int)) == 0);
    if i == 0 {
        return None;
    }
    match decode_utf16(units.as_slice()) {
        Some(s) => Some(trim_string(s.as_str())),
        None => None,
    }
}

/// The name of the UTF-16 code units of a text.
pub uninterp spec fn utf16_of(s: Seq<char>) -> Seq<u16>;

/// Relies on `str::encode_utf16`: the UTF-16 encoding of the text.
#[verifier::external_body]
fn encode_utf16(s: &str) -> (r: Vec<u16>)
    ensures
        r@ == utf16_of(s@),
{
    s.encode_utf16().collect()
}

/// The NUL-terminated UTF-16 form of `value`, as the platform's wide-string
/// functions take it.
pub fn wide_string(value: &str) -> (r: Vec<u16>)
    ensures
        r@ == utf16_of(value@).push(0),
{
    let mut w = encode_utf16(value);
    w.push(0);
    w
}

/// The name of what `str::to_lowercase` returns for a string.
pub uninterp spec fn lower_of(s: Seq<char>) -> Seq<char>;

/// Relies on `str::to_lowercase`: the Unicode lower-case form, a function of the characters alone.
#[verifier::external_body]
pub(crate) fn to_lower(s: &str) -> (r: String)
    ensures
        r@ == lower_of(s@),
{
    s.to_lowercase()
}

/// `a` is at most `b` in lexicographic order of code points (the order of `String`).
pub open spec fn chars_le(a: Seq<char>, b: Seq<char>) -> bool
    decreases a.len(),
{
    if a.len() == 0 {
        true
    } else if b.len() == 0 {
        false
    } else if (a[0] as u32) != (b[0] as u32) {
        (a[0] as u32) < (b[0] as u32)
    } else {
        chars_le(a.drop_first(), b.drop_first())
    }
}

/// Whether `a` is at most `b` in lexicographic order of code points.
pub fn chars_at_most(a: &Vec<char>, b: &Vec<char>) -> (r: bool)
    ensures
        r == chars_le(a@, b@),
{
    let mut i: usize = 0;
    assert(a@.skip(0) =~= a@ && b@.skip(0) =~= b@);
    while i < a.len() && i < b.len() && (a[i] as u32) == (b[i] as u32)
        invariant
            i <= a@.len(),
            i <= b@.len(),
            chars_le(a@, b@) == chars_le(a@.skip(i as int), b@.skip(i as int)),
        decreases a@.len() - i,
    {
        proof {
            let sa = a@.skip(i as int);
            let sb = b@.skip(i as int);
            assert(sa.drop_first() =~= a@.skip(i + 1));
            assert(sb.drop_first() =~= b@.skip(i + 1));
        }
        i = i + 1;
    }
    if i == a.len() {
        true
    } else if i == b.len() {
        false
    } else {
        (a[i] as u32) < (b[i] as u32)
    }
}

} // verus!
