//! Decisions of the clipboard watcher, and the snapshot it hands out.
use vstd::prelude::*;
use vstd::utf8::{decode_utf8, encode_utf8, valid_utf8};
use crate::text::{chars_of, push_all, slice_chars, string_from_chars, trim_chars, trim_ws};

verus! {

/// What the clipboard held at one change.
pub struct ClipboardSnapshot {
    pub sequence: u32,
    pub timestamp: i64,
    pub format: String,
    pub text: Option<String>,
    pub html: Option<String>,
    pub image: Option<Vec<u8>>,
}

/// The names of the formats present, in the order text, html, image.
pub open spec fn format_names(text: bool, html: bool, image: bool) -> Seq<Seq<char>> {
    let a: Seq<Seq<char>> = if text { seq!["text"@] } else { seq![] };
    let b: Seq<Seq<char>> = if html { seq!["html"@] } else { seq![] };
    let c: Seq<Seq<char>> = if image { seq!["image"@] } else { seq![] };
    a + b + c
}

/// `names` joined by commas.
pub open spec fn comma_joined(names: Seq<Seq<char>>) -> Seq<char>
    decreases names.len(),
{
    if names.len() == 0 {
        seq![]
    } else if names.len() == 1 {
        names[0]
    } else {
        comma_joined(names.drop_last()) + seq![','] + names.last()
    }
}

/// The format label of a snapshot: the formats present joined by commas, or
/// `unknown` where there is none.
pub open spec fn format_label(text: bool, html: bool, image: bool) -> Seq<char> {
    if !text && !html && !image {
        "unknown"@
    } else {
        comma_joined(format_names(text, html, image))
    }
}

fn add_name(out: &mut Vec<char>, name: &str, first: bool, Ghost(names): Ghost<Seq<Seq<char>>>)
    requires
        old(out)@ == comma_joined(names),
        first == (names.len() == 0),
    ensures
        final(out)@ == comma_joined(names.push(name@)),
{
    let ghost before = out@;
    let nc = chars_of(name);
    assert(names.push(name@).drop_last() =~= names);
    if first {
        assert(comma_joined(names) == Seq::<char>::empty());
        push_all(out, &nc);
        assert(out@ =~= name@);
    } else {
        out.push(',');
        push_all(out, &nc);
        assert(out@ =~= before + seq![','] + name@);
    }
}

/// The format label for the formats present.
pub fn describe_formats(text: bool, html: bool, image: bool) -> (r: String)
    ensures
        r@ == format_label(text, html, image),
{
    if !text && !html && !image {
        return "unknown".to_owned();
    }
    let mut out: Vec<char> = Vec::new();
    let ghost mut names: Seq<Seq<char>> = seq![];
    assert(comma_joined(names) == Seq::<char>::empty());
    let mut first = true;
    if text {
        add_name(&mut out, "text", first, Ghost(names));
        first = false;
        proof {
            names = names.push("text"@);
        }
    }
    if html {
        add_name(&mut out, "html", first, Ghost(names));
        first = false;
        proof {
            names = names.push("html"@);
        }
    }
    if image {
        add_name(&mut out, "image", first, Ghost(names));
        proof {
            names = names.push("image"@);
        }
    }
    assert(names =~= format_names(text, html, image));
    string_from_chars(&out)
}

impl ClipboardSnapshot {
    /// The snapshot of change `sequence` taken at `timestamp` (milliseconds),
    /// labelled with the formats present.
    pub fn new(
        sequence: u32,
        timestamp: i64,
        text: Option<String>,
        html: Option<String>,
        image: Option<Vec<u8>>,
    ) -> (r: ClipboardSnapshot)
        ensures
            r.sequence == sequence,
            r.timestamp == timestamp,
            r.format@ == format_label(text is Some, html is Some, image is Some),
            r.text == text,
            r.html == html,
            r.image == image,
    {
        let format = describe_formats(text.is_some(), html.is_some(), image.is_some());
        ClipboardSnapshot { sequence, timestamp, format, text, html, image }
    }
}

/// Whether the watcher takes a snapshot: the clipboard's sequence number is
/// known (not 0) and differs from the last one seen.
pub fn should_capture(last_sequence: u32, current: u32) -> (r: bool)
    ensures
        r == (current != 0 && current != last_sequence),
{
    current != 0 && current != last_sequence
}

/// Whether opening the clipboard is tried again after `attempts` failed retries:
/// at most five retries are made.
pub fn may_retry_open(attempts: u32) -> (r: bool)
    ensures
        r == (attempts < 5),
{
    attempts < 5
}


/// `needle` occurs in `hay` at position `i`, character for character.
pub open spec fn occurs_at(hay: Seq<char>, needle: Seq<char>, i: int) -> bool {
    0 <= i && i + needle.len() <= hay.len() && hay.subrange(i, i + needle.len()) == needle
}

/// The first position at or after `i` where `needle` occurs in `hay`, or -1.
pub open spec fn find_from(hay: Seq<char>, needle: Seq<char>, i: int) -> int
    decreases hay.len() + 1 - i,
{
    if i < 0 || i + needle.len() > hay.len() {
        -1
    } else if occurs_at(hay, needle, i) {
        i
    } else {
        find_from(hay, needle, i + 1)
    }
}

/// What precedes the first line break of `s`.
pub open spec fn first_line(s: Seq<char>) -> Seq<char>
    decreases s.len(),
{
    if s.len() == 0 || s[0] == '\n' {
        seq![]
    } else {
        seq![s[0]] + first_line(s.drop_first())
    }
}

/// The value of a sequence of decimal digits (0 for none).
pub open spec fn decimal_number(s: Seq<char>) -> Option<nat>
    decreases s.len(),
{
    if s.len() == 0 {
        Some(0)
    } else {
        let u = s.last() as u32;
        match decimal_number(s.drop_last()) {
            Some(a) => if 48 <= u <= 57 {
                Some(a * 10 + (u - 48) as nat)
            } else {
                None
            },
            None => None,
        }
    }
}

/// What parsing an unsigned number of machine size reads: an optional `+`, then
/// at least one decimal digit, with a value that fits.
pub open spec fn machine_number(s: Seq<char>) -> Option<nat> {
    let d = if s.len() > 0 && s[0] == '+' {
        s.drop_first()
    } else {
        s
    };
    if d.len() == 0 {
        None
    } else {
        match decimal_number(d) {
            Some(v) => if v <= usize::MAX {
                Some(v)
            } else {
                None
            },
            None => None,
        }
    }
}

/// The number on the line that starts at position `at` of `raw`.
pub open spec fn number_at(raw: Seq<char>, at: int) -> Option<nat> {
    machine_number(trim_ws(first_line(raw.skip(at))))
}

/// The HTML that a clipboard `HTML Format` text carries: where it starts with a
/// `Version:` header holding `StartHTML:`, `EndHTML:`, `StartFragment:` and
/// `EndFragment:`, the bytes from the `StartHTML` offset (0 where unreadable) to
/// the `EndHTML` offset (the end where unreadable), if they form a non-empty
/// range of whole characters; otherwise the text itself.
pub open spec fn html_payload(raw: Seq<char>) -> Seq<char> {
    let b = encode_utf8(raw);
    let sh = find_from(raw, "StartHTML:"@, 0);
    let eh = find_from(raw, "EndHTML:"@, 0);
    if raw.len() < 8 || raw.take(8) != "Version:"@ || find_from(raw, "StartFragment:"@, 0) < 0
        || find_from(raw, "EndFragment:"@, 0) < 0 || sh < 0 || eh < 0 {
        raw
    } else {
        let so: int = match number_at(raw, sh + 10) {
            Some(v) => v as int,
            None => 0,
        };
        let eo: int = match number_at(raw, eh + 8) {
            Some(v) => v as int,
            None => b.len() as int,
        };
        if so < b.len() && eo <= b.len() && so < eo && valid_utf8(b.subrange(so, eo)) {
            decode_utf8(b.subrange(so, eo))
        } else {
            raw
        }
    }
}

fn find_chars(hay: &Vec<char>, needle: &str) -> (r: Option<usize>)
    ensures
        match r {
            Some(k) => find_from(hay@, needle@, 0) == k as int,
            None => find_from(hay@, needle@, 0) == -1,
        },
{
    let nc = chars_of(needle);
    let n = nc.len();
    let hl = hay.len();
    let mut i: usize = 0;
    if n > hl {
        return None;
    }
    while i <= hl - n
        invariant
            n <= hl,
            n == needle@.len(),
            nc@ == needle@,
            hl == hay@.len(),
            find_from(hay@, needle@, 0) == find_from(hay@, needle@, i as int),
        decreases hl - n + 1 - i,
    {
        let mut j: usize = 0;
        let mut ok: bool = true;
        while j < n
            invariant
                j <= n,
                i + n <= hl,
                n == needle@.len(),
                nc@ == needle@,
                hl == hay@.len(),
                ok == forall|t: int| 0 <= t < j ==> hay@[i + t] == needle@[t],
            decreases n - j,
        {
            if hay[i + j] != nc[j] {
                ok = false;
            }
            j = j + 1;
        }
        if ok {
            assert(hay@.subrange(i as int, i + n) =~= needle@);
            return Some(i);
        }
        assert(!(hay@.subrange(i as int, i + n) =~= needle@));
        i = i + 1;
    }
    None
}

fn line_number(raw: &Vec<char>, at: usize) -> (r: Option<usize>)
    requires
        at <= raw@.len(),
    ensures
        match r {
            Some(v) => number_at(raw@, at as int) == Some(v as nat),
            None => number_at(raw@, at as int).is_none(),
        },
{
    let rest = slice_chars(raw, at, raw.len());
    assert(rest@ =~= raw@.skip(at as int));
    let mut k: usize = 0;
    assert(rest@.skip(0) =~= rest@);
    while k < rest.len() && rest[k] != '\n'
        invariant
            k <= rest@.len(),
            first_line(rest@) == rest@.take(k as int) + first_line(rest@.skip(k as int)),
        decreases rest@.len() - k,
    {
        let ghost t = rest@.skip(k as int);
        assert(t.drop_first() =~= rest@.skip(k + 1));
        assert(rest@.take(k + 1) =~= rest@.take(k as int) + seq![t[0]]);
        k = k + 1;
    }
    assert(first_line(rest@.skip(k as int)) =~= seq![]);
    assert(rest@.take(k as int) + seq![] =~= rest@.take(k as int));
    let line = slice_chars(&rest, 0, k);
    let t = trim_chars(&line, false);
    assert(line@ == first_line(rest@));
    assert(number_at(raw@, at as int) == machine_number(t@));
    let d = if t.len() > 0 && t[0] == '+' {
        slice_chars(&t, 1, t.len())
    } else {
        slice_chars(&t, 0, t.len())
    };
    assert(d@ =~= (if t@.len() > 0 && t@[0] == '+' { t@.drop_first() } else { t@ }));
    if d.len() == 0 {
        return None;
    }
    let mut acc: usize = 0;
    let mut i: usize = 0;
    assert(d@.take(0) =~= Seq::<char>::empty());
    while i < d.len()
        invariant
            i <= d@.len(),
            d@.len() > 0,
            decimal_number(d@.take(i as int)) == Some(acc as nat),
            number_at(raw@, at as int) == machine_number(t@),
            machine_number(t@) == (match decimal_number(d@) {
                Some(v) => if v <= usize::MAX {
                    Some(v)
                } else {
                    None
                },
                None => None,
            }),
        decreases d@.len() - i,
    {
        let ghost p = d@.take(i + 1);
        assert(p.drop_last() =~= d@.take(i as int));
        assert(p.last() == d@[i as int]);
        let u = d[i] as u32;
        if u < 48 || u > 57 {
            proof {
                assert(decimal_number(p) is None);
                if decimal_number(d@) is Some {
                    lemma_decimal_grows(d@, i + 1);
                }
            }
            return None;
        }
        let v = (u - 48) as usize;
        if acc > (usize::MAX - v) / 10 {
            proof {
                assert(acc * 10 + v > usize::MAX) by (nonlinear_arith)
                    requires
                        acc > (usize::MAX - v) / 10,
                        v < 10,
                ;
                assert(decimal_number(p) == Some((acc * 10 + v) as nat));
                if decimal_number(d@) is Some {
                    lemma_decimal_grows(d@, i + 1);
                }
            }
            return None;
        }
        assert(acc * 10 + v <= usize::MAX) by (nonlinear_arith)
            requires
                acc <= (usize::MAX - v) / 10,
                v < 10,
        ;
        acc = acc * 10 + v;
        i = i + 1;
    }
    assert(d@.take(d@.len() as int) =~= d@);
    Some(acc)
}

proof fn lemma_decimal_grows(s: Seq<char>, i: int)
    requires
        0 <= i <= s.len(),
        decimal_number(s) is Some,
    ensures
        decimal_number(s.take(i)) is Some,
        decimal_number(s.take(i))->0 <= decimal_number(s)->0,
    decreases s.len(),
{
    if i == s.len() {
        assert(s.take(i) =~= s);
    } else {
        let d = s.drop_last();
        assert(decimal_number(d) is Some);
        lemma_decimal_grows(d, i);
        assert(d.take(i) =~= s.take(i));
    }
}

/// Relies on `String::from_utf8`: the text whose UTF-8 encoding is `bytes`,
/// or none where they are not valid UTF-8.
#[verifier::external_body]
fn string_from_utf8(bytes: Vec<u8>) -> (r: Option<String>)
    ensures
        r is Some <==> valid_utf8(bytes@),
        r is Some ==> r->0@ == decode_utf8(bytes@),
{
    String::from_utf8(bytes).ok()
}

/// The HTML that a clipboard `HTML Format` text carries.
pub fn html_fragment(raw: &str) -> (r: String)
    ensures
        r@ == html_payload(raw@),
{
    proof {
        reveal_strlit("Version:");
        reveal_strlit("StartHTML:");
        reveal_strlit("EndHTML:");
    }
    let cs = chars_of(raw);
    let starts = cs.len() >= 8 && crate::text::same_chars(&slice_chars(&cs, 0, 8), &chars_of("Version:"));
    if !starts {
        return raw.to_owned();
    }
    let sf = find_chars(&cs, "StartFragment:");
    let ef = find_chars(&cs, "EndFragment:");
    let sh = find_chars(&cs, "StartHTML:");
    let eh = find_chars(&cs, "EndHTML:");
    if sf.is_none() || ef.is_none() || sh.is_none() || eh.is_none() {
        return raw.to_owned();
    }
    let sh = sh.unwrap();
    let eh = eh.unwrap();
    proof {
        lemma_find_bounds(cs@, "StartHTML:"@, 0);
        lemma_find_bounds(cs@, "EndHTML:"@, 0);
    }
    let bytes = raw.as_bytes();
    let n = bytes.len();
    let so = match line_number(&cs, sh + 10) {
        Some(v) => v,
        None => 0,
    };
    let eo = match line_number(&cs, eh + 8) {
        Some(v) => v,
        None => n,
    };
    if so < n && eo <= n && so < eo {
        let mut part: Vec<u8> = Vec::new();
        let mut i: usize = so;
        while i < eo
            invariant
                so <= i <= eo <= n == bytes@.len(),
                part@ == bytes@.subrange(so as int, i as int),
            decreases eo - i,
        {
            part.push(bytes[i]);
            i = i + 1;
            assert(part@ =~= bytes@.subrange(so as int, i as int));
        }
        match string_from_utf8(part) {
            Some(s) => s,
            None => raw.to_owned(),
        }
    } else {
        raw.to_owned()
    }
}

proof fn lemma_find_bounds(hay: Seq<char>, needle: Seq<char>, i: int)
    ensures
        find_from(hay, needle, i) >= 0 ==> find_from(hay, needle, i) + needle.len() <= hay.len(),
    decreases hay.len() + 1 - i,
{
    if !(i < 0 || i + needle.len() > hay.len()) && !occurs_at(hay, needle, i) {
        lemma_find_bounds(hay, needle, i + 1);
    }
}

} // verus!
