//! Window handles as text, and the key strokes of a paste.
use vstd::prelude::*;
use crate::text::{chars_of, slice_chars, string_from_chars, trim_chars, trim_ws};

verus! {

/// The upper-case hexadecimal digit of `d`.
pub open spec fn hex_char(d: nat) -> char {
    "0123456789ABCDEF"@[d as int]
}

/// The last `k` hexadecimal digits of `n`, zero-padded.
pub open spec fn hex_digits(n: nat, k: nat) -> Seq<char>
    decreases k,
{
    if k == 0 {
        seq![]
    } else {
        hex_digits(n / 16, (k - 1) as nat).push(hex_char(n % 16))
    }
}

/// A window handle as text: sixteen upper-case hexadecimal digits.
pub fn format_window_handle(handle: u64) -> (r: String)
    ensures
        r@ == hex_digits(handle as nat, 16),
{
    let digits = "0123456789ABCDEF";
    proof {
        reveal_strlit("0123456789ABCDEF");
    }
    let mut out: Vec<char> = Vec::new();
    let mut cur: u64 = handle;
    let mut k: u64 = 0;
    assert(hex_digits(handle as nat, 16) == hex_digits(cur as nat, 16) + out@);
    while k < 16
        invariant
            k <= 16,
            digits@ == "0123456789ABCDEF"@,
            digits@.len() == 16,
            hex_digits(handle as nat, 16) == hex_digits(cur as nat, (16 - k) as nat) + out@,
        decreases 16 - k,
    {
        let d = (cur % 16) as usize;
        let c = digits.get_char(d);
        let ghost before = out@;
        out.insert(0, c);
        assert(out@ =~= seq![c] + before);
        assert(hex_digits(cur as nat, (16 - k) as nat) == hex_digits((cur / 16) as nat, (16 - k - 1) as nat).push(hex_char(cur as nat % 16)));
        assert(hex_digits((cur / 16) as nat, (16 - k - 1) as nat).push(c) + before =~= hex_digits((cur / 16) as nat, (16 - k - 1) as nat) + out@);
        cur = cur / 16;
        k = k + 1;
    }
    assert(hex_digits(cur as nat, 0) == Seq::<char>::empty());
    assert(Seq::<char>::empty() + out@ =~= out@);
    string_from_chars(&out)
}

/// The value of a hexadecimal digit, in either case.
pub open spec fn hex_value(c: char) -> Option<nat> {
    let u = c as u32;
    if 48 <= u <= 57 {
        Some((u - 48) as nat)
    } else if 97 <= u <= 102 {
        Some((u - 87) as nat)
    } else if 65 <= u <= 70 {
        Some((u - 55) as nat)
    } else {
        None
    }
}

/// The value of a sequence of hexadecimal digits (0 for none).
pub open spec fn hex_number(s: Seq<char>) -> Option<nat>
    decreases s.len(),
{
    if s.len() == 0 {
        Some(0)
    } else {
        match (hex_number(s.drop_last()), hex_value(s.last())) {
            (Some(a), Some(d)) => Some(a * 16 + d),
            _ => None,
        }
    }
}

/// What a base-16 parse of an unsigned integer reads: an optional `+`, then at
/// least one hexadecimal digit.
pub open spec fn radix16(s: Seq<char>) -> Option<nat> {
    let d = if s.len() > 0 && s[0] == '+' {
        s.drop_first()
    } else {
        s
    };
    if d.len() == 0 {
        None
    } else {
        hex_number(d)
    }
}

/// Text that names no window handle.
#[derive(Debug, Clone, Copy, PartialEq, Eq)]
pub struct InvalidHandle;

/// The handle that a text names: blank text and 0 name none (`Ok(None)`);
/// otherwise, after an optional `0x`, it is a 64-bit hexadecimal number.
pub open spec fn window_handle(h: Seq<char>) -> Result<Option<u64>, InvalidHandle> {
    let t = trim_ws(h);
    let u = if t.len() >= 2 && t[0] == '0' && t[1] == 'x' {
        t.skip(2)
    } else {
        t
    };
    if t.len() == 0 {
        Ok(None)
    } else {
        match radix16(u) {
            Some(v) => if v > u64::MAX {
                Err(InvalidHandle)
            } else if v == 0 {
                Ok(None)
            } else {
                Ok(Some(v as u64))
            },
            None => Err(InvalidHandle),
        }
    }
}

fn digit_value(c: char) -> (r: Option<u64>)
    ensures
        match r {
            Some(d) => hex_value(c) == Some(d as nat) && d < 16,
            None => hex_value(c).is_none(),
        },
{
    let u = c as u32;
    if 48 <= u && u <= 57 {
        Some((u - 48) as u64)
    } else if 97 <= u && u <= 102 {
        Some((u - 87) as u64)
    } else if 65 <= u && u <= 70 {
        Some((u - 55) as u64)
    } else {
        None
    }
}

proof fn lemma_hex_number_grows(s: Seq<char>, i: int)
    requires
        0 <= i <= s.len(),
        hex_number(s) is Some,
    ensures
        hex_number(s.take(i)) is Some,
        hex_number(s.take(i))->0 <= hex_number(s)->0,
    decreases s.len(),
{
    if i == s.len() {
        assert(s.take(i) =~= s);
    } else {
        let d = s.drop_last();
        assert(hex_number(d) is Some);
        lemma_hex_number_grows(d, i);
        assert(d.take(i) =~= s.take(i));
    }
}

/// Parses the text of a window handle: blank text and 0 name no window.
pub fn parse_window_handle(handle: &str) -> (r: Result<Option<u64>, InvalidHandle>)
    ensures
        r == window_handle(handle@),
{
    let hc = chars_of(handle);
    let t = trim_chars(&hc, false);
    if t.len() == 0 {
        return Ok(None);
    }
    let u = if t.len() >= 2 && t[0] == '0' && t[1] == 'x' {
        slice_chars(&t, 2, t.len())
    } else {
        slice_chars(&t, 0, t.len())
    };
    assert(u@ =~= (if t@.len() >= 2 && t@[0] == '0' && t@[1] == 'x' { t@.skip(2) } else { t@ }));
    let d = if u.len() > 0 && u[0] == '+' {
        slice_chars(&u, 1, u.len())
    } else {
        slice_chars(&u, 0, u.len())
    };
    assert(d@ =~= (if u@.len() > 0 && u@[0] == '+' { u@.drop_first() } else { u@ }));
    if d.len() == 0 {
        return Err(InvalidHandle);
    }
    assert(radix16(u@) == hex_number(d@));
    assert(t@.len() > 0);
    let mut acc: u64 = 0;
    let mut i: usize = 0;
    assert(d@.take(0) =~= Seq::<char>::empty());
    while i < d.len()
        invariant
            i <= d@.len(),
            hex_number(d@.take(i as int)) == Some(acc as nat),
            radix16(u@) == hex_number(d@),
            t@ == trim_ws(handle@),
            t@.len() > 0,
            u@ == (if t@.len() >= 2 && t@[0] == '0' && t@[1] == 'x' { t@.skip(2) } else { t@ }),
        decreases d@.len() - i,
    {
        let ghost p = d@.take(i + 1);
        assert(p.drop_last() =~= d@.take(i as int));
        assert(p.last() == d@[i as int]);
        match digit_value(d[i]) {
            Some(v) => {
                if acc > (u64::MAX - v) / 16 {
                    proof {
                        assert(acc * 16 + v > u64::MAX) by (nonlinear_arith)
                            requires
                                acc > (u64::MAX - v) / 16,
                                v < 16,
                        ;
                        assert(hex_number(p) == Some((acc * 16 + v) as nat));
                        if hex_number(d@) is Some {
                            lemma_hex_number_grows(d@, i + 1);
                        }
                    }
                    return Err(InvalidHandle);
                }
                assert(acc * 16 + v <= u64::MAX) by (nonlinear_arith)
                    requires
                        acc <= (u64::MAX - v) / 16,
                        v < 16,
                ;
                acc = acc * 16 + v;
            },
            None => {
                proof {
                    assert(hex_number(p) is None);
                    if hex_number(d@) is Some {
                        lemma_hex_number_grows(d@, i + 1);
                    }
                }
                return Err(InvalidHandle);
            },
        }
        i = i + 1;
    }
    assert(d@.take(d@.len() as int) =~= d@);
    if acc == 0 {
        Ok(None)
    } else {
        Ok(Some(acc))
    }
}

/// A virtual-key code and whether the stroke releases the key.
pub type KeyStroke = (u16, bool);

/// The virtual-key code of the Control key.
pub const KEY_CONTROL: u16 = 0x11;

/// The virtual-key code of the V key.
pub const KEY_V: u16 = 0x56;

/// The strokes of Ctrl+V: Control down, V down, V up, Control up.
pub fn paste_strokes() -> (r: Vec<KeyStroke>)
    ensures
        r@ == seq![(KEY_CONTROL, false), (KEY_V, false), (KEY_V, true), (KEY_CONTROL, true)],
{
    let mut v: Vec<KeyStroke> = Vec::new();
    v.push((KEY_CONTROL, false));
    v.push((KEY_V, false));
    v.push((KEY_V, true));
    v.push((KEY_CONTROL, true));
    assert(v@ =~= seq![(KEY_CONTROL, false), (KEY_V, false), (KEY_V, true), (KEY_CONTROL, true)]);
    v
}

} // verus!
