use vstd::prelude::*;
use vstd::utf8::valid_utf8;

verus! {

/// What the interface is doing, which decides how keys are read.
#[derive(Debug, Clone, Copy, PartialEq, Eq, Structural)]
pub enum InputMode {
    Browse,
    Compose,
    Splash,
    CardView,
    ViewReplies,
    ComposeReply,
    ConfirmQuit,
    Search,
    SearchResults,
    ThemePicker,
    Help,
    ReactionPicker,
}

/// A key press or mouse click decoded from terminal input.
#[derive(Debug, Clone, PartialEq, Eq, Structural)]
pub enum KeyEvent {
    Up,
    Down,
    Left,
    Right,
    Enter,
    Tab,
    Backspace,
    Escape,
    Char(char),
    MouseClick(u16, u16),
}

/* Decimal fields of a mouse report, as `u16::from_str` reads them. */

pub open spec fn is_digit(b: u8) -> bool {
    48 <= b <= 57
}

pub open spec fn all_digits(d: Seq<u8>) -> bool {
    forall|i: int| 0 <= i < d.len() ==> is_digit(#[trigger] d[i])
}

/// The value of a string of decimal digits.
pub open spec fn dec_value(d: Seq<u8>) -> nat
    decreases d.len(),
{
    if d.len() == 0 {
        0
    } else {
        dec_value(d.drop_last()) * 10 + (d.last() - 48) as nat
    }
}

/// `u16::from_str` on a field: an optional `+`, then at least one digit,
/// and a value that fits in 16 bits.
pub open spec fn parse_u16(f: Seq<u8>) -> Option<u16> {
    let d = if f.len() > 0 && f[0] == 43u8 {
        f.drop_first()
    } else {
        f
    };
    if d.len() > 0 && all_digits(d) && dec_value(d) <= u16::MAX {
        Some(dec_value(d) as u16)
    } else {
        None
    }
}

pub proof fn lemma_dec_value_prefix(d: Seq<u8>, k: int)
    requires
        0 <= k <= d.len(),
        all_digits(d),
    ensures
        dec_value(d.take(k)) <= dec_value(d),
    decreases d.len() - k,
{
    if k < d.len() {
        lemma_dec_value_prefix(d, k + 1);
        assert(d.take(k + 1).drop_last() =~= d.take(k));
        assert(is_digit(d[k]));
        assert(dec_value(d.take(k)) * 10 >= dec_value(d.take(k))) by (nonlinear_arith);
    } else {
        assert(d.take(k) =~= d);
    }
}

fn parse_u16_field(f: &[u8]) -> (r: Option<u16>)
    ensures
        r == parse_u16(f@),
{
    let start: usize = if f.len() > 0 && f[0] == 43u8 {
        1
    } else {
        0
    };
    let ghost d = if f@.len() > 0 && f@[0] == 43u8 {
        f@.drop_first()
    } else {
        f@
    };
    assert(d =~= f@.subrange(start as int, f@.len() as int));
    if start == f.len() {
        return None;
    }
    let mut v: u32 = 0;
    let mut i: usize = start;
    while i < f.len()
        invariant
            start <= i <= f.len(),
            d =~= f@.subrange(start as int, f@.len() as int),
            d == (if f@.len() > 0 && f@[0] == 43u8 {
                f@.drop_first()
            } else {
                f@
            }),
            d.len() > 0,
            v == dec_value(d.take(i - start)),
            v <= u16::MAX,
            all_digits(d.take(i - start)),
        decreases f.len() - i,
    {
        let b = f[i];
        assert(d.take(i - start + 1).drop_last() =~= d.take(i - start));
        assert(d[i - start] == b);
        if b < 48 || b > 57 {
            assert(!is_digit(d[i - start]));
            return None;
        }
        v = v * 10 + (b - 48) as u32;
        assert(all_digits(d.take(i - start + 1)));
        if v > 65535 {
            proof {
                if all_digits(d) {
                    lemma_dec_value_prefix(d, (i - start + 1) as int);
                }
            }
            return None;
        }
        i += 1;
    }
    assert(d.take(f.len() - start) =~= d);
    Some(v as u16)
}

/* Splitting the parameters of a mouse report on `;`, as `str::split` does. */

/// The index of the first `;` at or after `k` in `p`, or `p.len()` when there is none.
pub open spec fn field_end(p: Seq<u8>, k: nat) -> nat
    decreases p.len() - k,
{
    if k >= p.len() {
        p.len()
    } else if p[k as int] == 59u8 {
        k
    } else {
        field_end(p, k + 1)
    }
}

/// The next field of `p` from `start` (`None` once the split is exhausted),
/// and where the field after it starts.
pub open spec fn next_field(p: Seq<u8>, start: Option<nat>) -> (Option<Seq<u8>>, Option<nat>) {
    match start {
        None => (None, None),
        Some(s) => {
            let e = field_end(p, s);
            (Some(p.subrange(s as int, e as int)), if e < p.len() {
                Some(e + 1)
            } else {
                None
            })
        },
    }
}

pub proof fn lemma_field_end_bounds(p: Seq<u8>, k: nat)
    requires
        k <= p.len(),
    ensures
        k <= field_end(p, k) <= p.len(),
        field_end(p, k) < p.len() ==> p[field_end(p, k) as int] == 59u8,
    decreases p.len() - k,
{
    if k < p.len() && p[k as int] != 59u8 {
        lemma_field_end_bounds(p, k + 1);
    }
}

fn find_field_end(p: &[u8], k: usize) -> (e: usize)
    requires
        k <= p.len(),
    ensures
        e == field_end(p@, k as nat),
{
    let mut e = k;
    while e < p.len() && p[e] != 59u8
        invariant
            k <= e <= p.len(),
            field_end(p@, e as nat) == field_end(p@, k as nat),
        decreases p.len() - e,
    {
        e += 1;
    }
    e
}

/* Mouse reports: ESC [ < button ; col ; row (M | m). */

/// The index of the first `M` or `m` at or after `k`.
pub open spec fn report_end(d: Seq<u8>, k: nat) -> Option<nat>
    decreases d.len() - k,
{
    if k >= d.len() {
        None
    } else if d[k as int] == 77u8 || d[k as int] == 109u8 {
        Some(k)
    } else {
        report_end(d, k + 1)
    }
}

/// A mouse report at the start of `d` (which begins with ESC [ <): a click of the
/// left button at zero-based (column, row) when it is a press, any other report
/// as `Char('\0')`; with the number of bytes consumed.
pub open spec fn sgr_mouse(d: Seq<u8>) -> Option<(KeyEvent, usize)> {
    match report_end(d, 0) {
        None => None,
        Some(end) => {
            let params = d.subrange(3, end as int);
            let f0 = next_field(params, Some(0));
            let f1 = next_field(params, f0.1);
            let f2 = next_field(params, f1.1);
            if !valid_utf8(params) {
                None
            } else {
                match (f0.0, f1.0, f2.0) {
                    (Some(a), Some(b), Some(c)) => match (
                        parse_u16(a),
                        parse_u16(b),
                        parse_u16(c),
                    ) {
                        (Some(button), Some(col), Some(row)) => {
                            if d[end as int] == 77u8 && button == 0 {
                                Some(
                                    (
                                        KeyEvent::MouseClick(
                                            if col > 0 {
                                                (col - 1) as u16
                                            } else {
                                                0
                                            },
                                            if row > 0 {
                                                (row - 1) as u16
                                            } else {
                                                0
                                            },
                                        ),
                                        (end + 1) as usize,
                                    ),
                                )
                            } else {
                                Some((KeyEvent::Char('\0'), (end + 1) as usize))
                            }
                        },
                        _ => None,
                    },
                    _ => None,
                }
            }
        },
    }
}

/// Whether `b` is valid UTF-8.
/// Trusted: std's `str::from_utf8` succeeds exactly when the bytes are valid UTF-8.
#[verifier::external_body]
fn utf8_ok(b: &[u8]) -> (ok: bool)
    ensures
        ok == valid_utf8(b@),
{
    std::str::from_utf8(b).is_ok()
}

pub open spec fn opt_nat(o: Option<usize>) -> Option<nat> {
    match o {
        Some(s) => Some(s as nat),
        None => None,
    }
}

fn next_field_exec(p: &[u8], start: Option<usize>) -> (r: (Option<&[u8]>, Option<usize>))
    requires
        start matches Some(s) ==> s <= p.len(),
    ensures
        r.0 matches Some(f) ==> next_field(p@, opt_nat(start)).0 == Some(f@),
        r.0 is None ==> next_field(p@, opt_nat(start)).0 is None,
        opt_nat(r.1) == next_field(p@, opt_nat(start)).1,
        r.1 matches Some(s) ==> s <= p.len(),
{
    match start {
        None => (None, None),
        Some(s) => {
            let e = find_field_end(p, s);
            proof {
                lemma_field_end_bounds(p@, s as nat);
            }
            let f = vstd::slice::slice_subrange(p, s, e);
            if e < p.len() {
                (Some(f), Some(e + 1))
            } else {
                (Some(f), None)
            }
        },
    }
}

/// Decodes a mouse report at the start of `data`.
fn parse_sgr_mouse(data: &[u8]) -> (r: Option<(KeyEvent, usize)>)
    requires
        data.len() >= 3,
        data@[0] == 0x1bu8,
        data@[1] == 91u8,
        data@[2] == 60u8,
    ensures
        r == sgr_mouse(data@),
        r matches Some(p) ==> 4 <= p.1 <= data.len(),
{
    let mut end: usize = 0;
    while end < data.len() && data[end] != 77u8 && data[end] != 109u8
        invariant
            end <= data.len(),
            report_end(data@, end as nat) == report_end(data@, 0),
        decreases data.len() - end,
    {
        end += 1;
    }
    if end == data.len() {
        return None;
    }
    assert(end >= 3);
    let is_press = data[end] == 77u8;
    let params = vstd::slice::slice_subrange(data, 3, end);
    let f0 = next_field_exec(params, Some(0));
    let f1 = next_field_exec(params, f0.1);
    let f2 = next_field_exec(params, f1.1);
    if !utf8_ok(params) {
        return None;
    }
    let a = match f0.0 {
        Some(a) => a,
        None => {
            return None;
        },
    };
    let b = match f1.0 {
        Some(b) => b,
        None => {
            return None;
        },
    };
    let c = match f2.0 {
        Some(c) => c,
        None => {
            return None;
        },
    };
    let button = match parse_u16_field(a) {
        Some(v) => v,
        None => {
            return None;
        },
    };
    let col = match parse_u16_field(b) {
        Some(v) => v,
        None => {
            return None;
        },
    };
    let row = match parse_u16_field(c) {
        Some(v) => v,
        None => {
            return None;
        },
    };
    if is_press && button == 0 {
        Some((KeyEvent::MouseClick(col.saturating_sub(1), row.saturating_sub(1)), end + 1))
    } else {
        Some((KeyEvent::Char('\0'), end + 1))
    }
}


/* Decoding a chunk of terminal input. */

/// The event (if any) that starts `d`, and the number of bytes it takes (at least one).
/// Escape sequences: arrows and back-tab (ESC [ A/B/C/D/Z), mouse reports (ESC [ <);
/// a lone ESC is Escape; CR and LF are Enter; DEL and BS are Backspace; Ctrl-C reads as
/// `q`; printable ASCII is itself; anything else is skipped.
pub open spec fn parse_one(d: Seq<u8>) -> (Seq<KeyEvent>, nat) {
    let b = d[0];
    if b == 0x1bu8 {
        if 2 < d.len() && d[1] == 91u8 {
            if d[2] == 60u8 {
                match sgr_mouse(d) {
                    Some(p) => (seq![p.0], p.1 as nat),
                    None => (Seq::empty(), 3),
                }
            } else if d[2] == 65u8 {
                (seq![KeyEvent::Up], 3)
            } else if d[2] == 66u8 {
                (seq![KeyEvent::Down], 3)
            } else if d[2] == 67u8 {
                (seq![KeyEvent::Right], 3)
            } else if d[2] == 68u8 {
                (seq![KeyEvent::Left], 3)
            } else if d[2] == 90u8 {
                (seq![KeyEvent::Tab], 3)
            } else {
                (Seq::empty(), 3)
            }
        } else {
            (seq![KeyEvent::Escape], 1)
        }
    } else if b == 0x0du8 || b == 0x0au8 {
        (seq![KeyEvent::Enter], 1)
    } else if b == 0x09u8 {
        (seq![KeyEvent::Tab], 1)
    } else if b == 0x7fu8 || b == 0x08u8 {
        (seq![KeyEvent::Backspace], 1)
    } else if b == 0x03u8 {
        (seq![KeyEvent::Char('q')], 1)
    } else if 0x20u8 <= b < 0x7fu8 {
        (seq![KeyEvent::Char(b as char)], 1)
    } else {
        (Seq::empty(), 1)
    }
}

/// All events decoded from `d`, in order.
pub open spec fn parse_events(d: Seq<u8>) -> Seq<KeyEvent>
    decreases d.len(),
{
    if d.len() == 0 {
        Seq::empty()
    } else {
        let r = parse_one(d);
        if 1 <= r.1 <= d.len() {
            r.0 + parse_events(d.skip(r.1 as int))
        } else {
            r.0
        }
    }
}

/// A key event that, if it is a character, is an ASCII one.
pub open spec fn ascii_event(e: KeyEvent) -> bool {
    e matches KeyEvent::Char(c) ==> (c as u32) < 0x80
}

/// Every character event decoded from input is ASCII: bytes outside printable ASCII
/// never become characters.
pub proof fn law_parsed_chars_ascii(d: Seq<u8>)
    ensures
        forall|i: int| 0 <= i < parse_events(d).len() ==> ascii_event(#[trigger] parse_events(d)[i]),
    decreases d.len(),
{
    if d.len() > 0 {
        let r = parse_one(d);
        assert forall|i: int| 0 <= i < r.0.len() implies ascii_event(#[trigger] r.0[i]) by {
            if d[0] == 0x1bu8 && 2 < d.len() && d[1] == 91u8 && d[2] == 60u8 {
                match sgr_mouse(d) {
                    Some(p) => {
                        assert(p.0 is MouseClick || p.0 == KeyEvent::Char('\0'));
                    },
                    None => {},
                }
            } else if 0x20u8 <= d[0] < 0x7fu8 {
                assert(((d[0] as char) as u32) == d[0]);
            }
        }
        if 1 <= r.1 <= d.len() {
            let rest = d.skip(r.1 as int);
            law_parsed_chars_ascii(rest);
            let all = r.0 + parse_events(rest);
            assert forall|i: int| 0 <= i < all.len() implies ascii_event(#[trigger] all[i]) by {
                if i < r.0.len() {
                    assert(all[i] == r.0[i]);
                } else {
                    assert(all[i] == parse_events(rest)[i - r.0.len()]);
                }
            }
        }
    }
}

/// Printable ASCII input reads as the same characters, one event per byte.
pub proof fn law_printable_input(d: Seq<u8>)
    requires
        forall|i: int| 0 <= i < d.len() ==> 0x20u8 <= #[trigger] d[i] < 0x7fu8,
    ensures
        parse_events(d) == d.map_values(|b: u8| KeyEvent::Char(b as char)),
    decreases d.len(),
{
    if d.len() > 0 {
        let rest = d.skip(1);
        assert forall|i: int| 0 <= i < rest.len() implies 0x20u8 <= #[trigger] rest[i] < 0x7fu8 by {
            assert(rest[i] == d[i + 1]);
        }
        law_printable_input(rest);
        assert(0x20u8 <= d[0] < 0x7fu8);
        assert(d.map_values(|b: u8| KeyEvent::Char(b as char)) =~= seq![KeyEvent::Char(d[0] as char)]
            + rest.map_values(|b: u8| KeyEvent::Char(b as char)));
    } else {
        assert(d.map_values(|b: u8| KeyEvent::Char(b as char)) =~= Seq::<KeyEvent>::empty());
    }
}

/// Decodes terminal input bytes into key events.
pub fn parse(data: &[u8]) -> (events: Vec<KeyEvent>)
    ensures
        events@ == parse_events(data@),
{
    let mut events: Vec<KeyEvent> = Vec::new();
    let mut i: usize = 0;
    assert(data@.skip(0) =~= data@);
    while i < data.len()
        invariant
            i <= data.len(),
            parse_events(data@) == events@ + parse_events(data@.skip(i as int)),
        decreases data.len() - i,
    {
        let ghost rest = data@.skip(i as int);
        let ghost before = events@;
        let b = data[i];
        assert(rest[0] == b);
        let mut n: usize = 1;
        if b == 0x1b {
            if 2 < data.len() - i && data[i + 1] == 91u8 {
                assert(rest[1] == data@[i + 1] && rest[2] == data@[i + 2]);
                if data[i + 2] == 60u8 {
                    let tail = vstd::slice::slice_subrange(data, i, data.len());
                    assert(tail@ =~= rest);
                    match parse_sgr_mouse(tail) {
                        Some((event, end)) => {
                            events.push(event);
                            n = end;
                        },
                        None => {
                            n = 3;
                        },
                    }
                } else {
                    let c = data[i + 2];
                    if c == 65u8 {
                        events.push(KeyEvent::Up);
                    } else if c == 66u8 {
                        events.push(KeyEvent::Down);
                    } else if c == 67u8 {
                        events.push(KeyEvent::Right);
                    } else if c == 68u8 {
                        events.push(KeyEvent::Left);
                    } else if c == 90u8 {
                        events.push(KeyEvent::Tab);
                    }
                    n = 3;
                }
            } else {
                events.push(KeyEvent::Escape);
            }
        } else if b == 0x0d || b == 0x0a {
            events.push(KeyEvent::Enter);
        } else if b == 0x09 {
            events.push(KeyEvent::Tab);
        } else if b == 0x7f || b == 0x08 {
            events.push(KeyEvent::Backspace);
        } else if b == 0x03 {
            events.push(KeyEvent::Char('q'));
        } else if b >= 0x20 && b < 0x7f {
            events.push(KeyEvent::Char(b as char));
        }
        proof {
            let r = parse_one(rest);
            assert(r.1 == n as nat);
            assert(events@ =~= before + r.0);
            assert(rest.skip(n as int) =~= data@.skip(i + n));
            assert(before + (r.0 + parse_events(rest.skip(n as int))) =~= events@ + parse_events(
                data@.skip(i + n),
            ));
        }
        i = i + n;
    }
    assert(events@ + parse_events(data@.skip(data.len() as int)) =~= events@);
    events
}

} // verus!
