use vstd::prelude::*;
use crate::blocked_items::{blocked_list, blocked_words};
use crate::text::{
    char_is_alphanumeric, contains, contains_chars, is_alnum, is_whitespace, is_ws, lowercase,
    ascii_alnum, ascii_lower, ascii_lower_text, ascii_upper, ascii_upper_text, is_ascii_text, occurs_at,
    to_lower,
    byte_len, byte_len_upto, char_len_utf8, chars_of, lemma_byte_len_concat, lemma_byte_len_push,
    lemma_byte_len_take, lemma_non_ws_concat, lemma_non_ws_free, lemma_words_text, lemma_words_wf,
    non_ws, split_words, string_of, well_formed_words, words, digits, push_digits, push_str,
    string_from,
};
use vstd::utf8::encode_utf8;
use vstd::seq_lib::lemma_flatten_alt_concat;

verus! {

/// A confession as it is stored and shown on the canvas.
#[derive(Clone, Debug)]
pub struct Confession {
    pub id: i64,
    pub text: String,
    pub x: i64,
    pub y: i64,
    pub votes: i64,
    pub reply_count: i64,
    pub author_fingerprint: String,
    pub created_at: String,
}

/// Longest confession, in bytes.
pub const MAX_LENGTH: usize = 280;

/// Width of a confession box on the canvas, borders included.
pub const BOX_WIDTH: u16 = 42;

/// Width available for text inside a confession box (borders and padding removed).
pub const BOX_INNER_WIDTH: usize = 38;

/* How old a confession looks. */

/// How long ago something happened, given the seconds since (a negative count reads
/// as now): under a minute "just now", then whole minutes, hours or days.
pub open spec fn age_words(secs: int) -> Seq<char> {
    let s = if secs < 0 {
        0
    } else {
        secs
    };
    if s < 60 {
        "just now"@
    } else if s < 3600 {
        digits((s / 60) as nat) + "m ago"@
    } else if s < 86400 {
        digits((s / 3600) as nat) + "h ago"@
    } else {
        digits((s / 86400) as nat) + "d ago"@
    }
}

/// The age of something posted `secs` seconds ago, in words (see `age_words`).
pub fn age_text(secs: i64) -> (r: String)
    ensures
        r@ == age_words(secs as int),
{
    let s: u64 = if secs < 0 {
        0
    } else {
        secs as u64
    };
    if s < 60 {
        return string_from("just now");
    }
    let mut r = String::new();
    if s < 3600 {
        push_digits(&mut r, s / 60);
        push_str(&mut r, "m ago");
    } else if s < 86400 {
        push_digits(&mut r, s / 3600);
        push_str(&mut r, "h ago");
    } else {
        push_digits(&mut r, s / 86400);
        push_str(&mut r, "d ago");
    }
    proof {
        assert(Seq::<char>::empty() + digits((s / 60) as nat) =~= digits((s / 60) as nat));
        assert(Seq::<char>::empty() + digits((s / 3600) as nat) =~= digits((s / 3600) as nat));
        assert(Seq::<char>::empty() + digits((s / 86400) as nat) =~= digits((s / 86400) as nat));
    }
    r
}

/* Greedy word wrapping. */

/// The number of leading characters of `s`, starting the count at `k`,
/// whose UTF-8 encoding fits in `w` bytes.
pub open spec fn fit_from(s: Seq<char>, w: nat, k: nat) -> nat
    decreases s.len() - k,
{
    if k < s.len() && byte_len(s.take(k + 1int)) <= w {
        fit_from(s, w, k + 1)
    } else {
        k
    }
}

/// The longest prefix of `s` (in characters) whose UTF-8 encoding fits in `w` bytes.
pub open spec fn fit_count(s: Seq<char>, w: nat) -> nat {
    fit_from(s, w, 0)
}

pub proof fn lemma_fit_from_bounds(s: Seq<char>, w: nat, k: nat)
    requires
        k <= s.len(),
        byte_len(s.take(k as int)) <= w,
    ensures
        k <= fit_from(s, w, k) <= s.len(),
        byte_len(s.take(fit_from(s, w, k) as int)) <= w,
        fit_from(s, w, k) < s.len() ==> byte_len(s.take(fit_from(s, w, k) + 1int)) > w,
    decreases s.len() - k,
{
    if k < s.len() && byte_len(s.take(k + 1int)) <= w {
        lemma_fit_from_bounds(s, w, k + 1);
    }
}

pub proof fn lemma_fit_count_bounds(s: Seq<char>, w: nat)
    ensures
        fit_count(s, w) <= s.len(),
        byte_len(s.take(fit_count(s, w) as int)) <= w,
        fit_count(s, w) < s.len() ==> byte_len(s.take(fit_count(s, w) + 1int)) > w,
{
    assert(s.take(0) =~= Seq::<char>::empty());
    lemma_fit_from_bounds(s, w, 0);
}

/// Cutting a word that is too long for a line into pieces of exactly `w` bytes:
/// the full pieces, and the remainder (at most `w` bytes).
pub open spec fn chunk_split(word: Seq<char>, w: nat) -> (Seq<Seq<char>>, Seq<char>)
    decreases word.len(),
{
    if byte_len(word) <= w {
        (Seq::empty(), word)
    } else {
        let k = fit_count(word, w);
        if 0 < k <= word.len() {
            let r = chunk_split(word.skip(k as int), w);
            (seq![word.take(k as int)] + r.0, r.1)
        } else {
            (Seq::empty(), word)
        }
    }
}

/// A word can be cut into `w`-byte pieces only where character boundaries fall on
/// multiples of `w` bytes; anywhere else `str::split_at` panics.
pub open spec fn splittable(word: Seq<char>, w: nat) -> bool
    decreases word.len(),
{
    byte_len(word) <= w || {
        let k = fit_count(word, w);
        &&& 0 < k <= word.len()
        &&& byte_len(word.take(k as int)) == w
        &&& splittable(word.skip(k as int), w)
    }
}

/// Every word of `text` can be wrapped at `w` bytes.
pub open spec fn wrappable(text: Seq<char>, w: nat) -> bool {
    forall|i: int| 0 <= i < words(text).len() ==> splittable(#[trigger] words(text)[i], w)
}

/// Adding one word to the lines built so far (finished lines, current line).
pub open spec fn wrap_step(st: (Seq<Seq<char>>, Seq<char>), word: Seq<char>, w: nat) -> (
    Seq<Seq<char>>,
    Seq<char>,
) {
    let lines = st.0;
    let cur = st.1;
    if byte_len(word) > w {
        let lines1 = if cur.len() > 0 {
            lines.push(cur)
        } else {
            lines
        };
        let cs = chunk_split(word, w);
        (lines1 + cs.0, cs.1)
    } else if cur.len() == 0 {
        (lines, word)
    } else if byte_len(cur) + 1 + byte_len(word) <= w {
        (lines, cur.push(' ') + word)
    } else {
        (lines.push(cur), word)
    }
}

pub open spec fn wrap_scan(ws: Seq<Seq<char>>, w: nat) -> (Seq<Seq<char>>, Seq<char>)
    decreases ws.len(),
{
    if ws.len() == 0 {
        (Seq::empty(), Seq::empty())
    } else {
        wrap_step(wrap_scan(ws.drop_last(), w), ws.last(), w)
    }
}

/// The lines of `text` wrapped greedily at `w` bytes: words are packed on a line,
/// separated by one space, while they fit; words longer than a line are cut.
/// An empty text gives one empty line.
pub open spec fn wrap_lines(text: Seq<char>, w: nat) -> Seq<Seq<char>> {
    let st = wrap_scan(words(text), w);
    let lines = if st.1.len() > 0 {
        st.0.push(st.1)
    } else {
        st.0
    };
    if lines.len() == 0 {
        seq![Seq::empty()]
    } else {
        lines
    }
}

pub open spec fn views(v: Seq<Vec<char>>) -> Seq<Seq<char>> {
    v.map_values(|l: Vec<char>| l@)
}

pub open spec fn string_views(v: Seq<String>) -> Seq<Seq<char>> {
    v.map_values(|l: String| l@)
}

/// Every line fits in `w` bytes.
pub open spec fn lines_fit(lines: Seq<Seq<char>>, w: nat) -> bool {
    forall|i: int| 0 <= i < lines.len() ==> byte_len(#[trigger] lines[i]) <= w
}

pub proof fn lemma_chunk_split_fit(word: Seq<char>, w: nat)
    requires
        splittable(word, w),
    ensures
        lines_fit(chunk_split(word, w).0, w),
        byte_len(chunk_split(word, w).1) <= w,
    decreases word.len(),
{
    if byte_len(word) > w {
        let k = fit_count(word, w);
        lemma_chunk_split_fit(word.skip(k as int), w);
        let r = chunk_split(word.skip(k as int), w);
        assert forall|i: int| 0 <= i < (seq![word.take(k as int)] + r.0).len() implies byte_len(
            #[trigger] (seq![word.take(k as int)] + r.0)[i],
        ) <= w by {
            if i > 0 {
                assert((seq![word.take(k as int)] + r.0)[i] == r.0[i - 1]);
            }
        }
    }
}

pub proof fn lemma_wrap_scan_fit(ws: Seq<Seq<char>>, w: nat)
    requires
        forall|i: int| 0 <= i < ws.len() ==> splittable(#[trigger] ws[i], w),
    ensures
        lines_fit(wrap_scan(ws, w).0, w),
        byte_len(wrap_scan(ws, w).1) <= w,
    decreases ws.len(),
{
    if ws.len() > 0 {
        let prev = ws.drop_last();
        assert forall|i: int| 0 <= i < prev.len() implies splittable(#[trigger] prev[i], w) by {
            assert(prev[i] == ws[i]);
        }
        lemma_wrap_scan_fit(prev, w);
        let st = wrap_scan(prev, w);
        let word = ws.last();
        assert(splittable(ws[ws.len() - 1], w));
        if byte_len(word) > w {
            lemma_chunk_split_fit(word, w);
            let lines1 = if st.1.len() > 0 {
                st.0.push(st.1)
            } else {
                st.0
            };
            let cs = chunk_split(word, w);
            assert forall|i: int| 0 <= i < (lines1 + cs.0).len() implies byte_len(
                #[trigger] (lines1 + cs.0)[i],
            ) <= w by {
                if i >= lines1.len() {
                    assert((lines1 + cs.0)[i] == cs.0[i - lines1.len()]);
                } else {
                    assert((lines1 + cs.0)[i] == lines1[i]);
                }
            }
        } else if st.1.len() > 0 && byte_len(st.1) + 1 + byte_len(word) <= w {
            lemma_byte_len_push(st.1, ' ');
            lemma_byte_len_concat(st.1.push(' '), word);
        }
    }
}

/// Every wrapped line fits the width, and there is always at least one line.
pub proof fn lemma_wrap_lines_fit(text: Seq<char>, w: nat)
    requires
        wrappable(text, w),
    ensures
        lines_fit(wrap_lines(text, w), w),
        wrap_lines(text, w).len() >= 1,
{
    let ws = words(text);
    assert forall|i: int| 0 <= i < ws.len() implies splittable(#[trigger] ws[i], w) by {
        assert(splittable(words(text)[i], w));
    }
    lemma_wrap_scan_fit(ws, w);
    let st = wrap_scan(ws, w);
    if st.1.len() > 0 {
        assert forall|i: int| 0 <= i < st.0.push(st.1).len() implies byte_len(
            #[trigger] st.0.push(st.1)[i],
        ) <= w by {
            if i < st.0.len() {
                assert(st.0.push(st.1)[i] == st.0[i]);
            }
        }
    }
    let e = Seq::<char>::empty();
    assert(encode_utf8(e) =~= Seq::<u8>::empty());
    assert(seq![e][0] == e);
}


proof fn lemma_chunk_split_text(word: Seq<char>, w: nat)
    ensures
        chunk_split(word, w).0.flatten_alt() + chunk_split(word, w).1 == word,
    decreases word.len(),
{
    if byte_len(word) <= w {
        assert(Seq::<Seq<char>>::empty().flatten_alt() + word =~= word);
    } else {
        let k = fit_count(word, w);
        if 0 < k <= word.len() {
            lemma_chunk_split_text(word.skip(k as int), w);
            let r = chunk_split(word.skip(k as int), w);
            let head = seq![word.take(k as int)];
            lemma_flatten_alt_concat(head, r.0);
            assert(head.drop_last() =~= Seq::<Seq<char>>::empty());
            assert(Seq::<Seq<char>>::empty().flatten_alt() =~= Seq::<char>::empty());
            assert(head.last() == word.take(k as int));
            assert(head.flatten_alt() =~= word.take(k as int));
            assert(word.take(k as int) + word.skip(k as int) =~= word);
            assert(word.take(k as int) + r.0.flatten_alt() + r.1 =~= word.take(k as int) + (
            r.0.flatten_alt() + r.1));
        } else {
            assert(Seq::<Seq<char>>::empty().flatten_alt() + word =~= word);
        }
    }
}

proof fn lemma_wrap_scan_text(ws: Seq<Seq<char>>, w: nat)
    requires
        well_formed_words(ws),
    ensures
        non_ws(wrap_scan(ws, w).0.flatten_alt()) + non_ws(wrap_scan(ws, w).1) == ws.flatten_alt(),
    decreases ws.len(),
{
    if ws.len() == 0 {
        assert(non_ws(Seq::<Seq<char>>::empty().flatten_alt()) + non_ws(Seq::<char>::empty())
            =~= Seq::<char>::empty());
    } else {
        let prev = ws.drop_last();
        assert(well_formed_words(prev)) by {
            assert forall|i: int| 0 <= i < prev.len() implies #[trigger] prev[i].len() > 0
                && forall|j: int| 0 <= j < prev[i].len() ==> !is_ws(#[trigger] prev[i][j]) by {
                assert(prev[i] == ws[i]);
            }
        }
        lemma_wrap_scan_text(prev, w);
        let st = wrap_scan(prev, w);
        let lines = st.0;
        let cur = st.1;
        let word = ws.last();
        assert(word == ws[ws.len() - 1]);
        assert forall|j: int| 0 <= j < word.len() implies !is_ws(#[trigger] word[j]) by {
            assert(ws[ws.len() - 1][j] == word[j]);
        }
        lemma_non_ws_free(word);
        assert(ws.flatten_alt() == prev.flatten_alt() + word);
        let lf = lines.flatten_alt();
        if cur.len() > 0 {
            assert(lines.push(cur).drop_last() =~= lines);
            assert(lines.push(cur).flatten_alt() == lf + cur);
            lemma_non_ws_concat(lf, cur);
        } else {
            assert(non_ws(cur) =~= Seq::<char>::empty());
        }
        if byte_len(word) > w {
            let lines1 = if cur.len() > 0 {
                lines.push(cur)
            } else {
                lines
            };
            let cs = chunk_split(word, w);
            assert(non_ws(lines1.flatten_alt()) == non_ws(lf) + non_ws(cur)) by {
                if cur.len() == 0 {
                    assert(non_ws(lf) + non_ws(cur) =~= non_ws(lf));
                }
            }
            lemma_flatten_alt_concat(lines1, cs.0);
            lemma_non_ws_concat(lines1.flatten_alt(), cs.0.flatten_alt());
            lemma_chunk_split_text(word, w);
            lemma_non_ws_concat(cs.0.flatten_alt(), cs.1);
            assert(non_ws(lines1.flatten_alt()) + non_ws(cs.0.flatten_alt()) + non_ws(cs.1)
                =~= non_ws(lines1.flatten_alt()) + (non_ws(cs.0.flatten_alt()) + non_ws(cs.1)));
            assert(non_ws(lf) + non_ws(cur) + word =~= prev.flatten_alt() + word);
        } else if cur.len() == 0 {
            assert(non_ws(lf) + non_ws(cur) =~= non_ws(lf));
        } else if byte_len(cur) + 1 + byte_len(word) <= w {
            assert(cur.push(' ').drop_last() =~= cur);
            assert(is_ws(' '));
            assert(non_ws(cur.push(' ')) == non_ws(cur));
            lemma_non_ws_concat(cur.push(' '), word);
            assert(non_ws(lf) + (non_ws(cur) + word) =~= non_ws(lf) + non_ws(cur) + word);
        } else {
            lemma_non_ws_concat(lf, cur);
        }
    }
}

/// Wrapping keeps every non-whitespace character of the text, in order: it only
/// drops whitespace between words and puts single spaces or line breaks there.
pub proof fn law_wrap_keeps_text(text: Seq<char>, w: nat)
    ensures
        non_ws(wrap_lines(text, w).flatten()) == non_ws(text),
{
    let ws = words(text);
    lemma_words_wf(text);
    lemma_wrap_scan_text(ws, w);
    lemma_words_text(text);
    let st = wrap_scan(ws, w);
    let lines = if st.1.len() > 0 {
        st.0.push(st.1)
    } else {
        st.0
    };
    if st.1.len() > 0 {
        assert(st.0.push(st.1).drop_last() =~= st.0);
        lemma_non_ws_concat(st.0.flatten_alt(), st.1);
    } else {
        assert(non_ws(st.0.flatten_alt()) + non_ws(st.1) =~= non_ws(st.0.flatten_alt()));
    }
    assert(non_ws(lines.flatten_alt()) == non_ws(text));
    if lines.len() == 0 {
        let e = seq![Seq::<char>::empty()];
        e.lemma_flatten_and_flatten_alt_are_equivalent();
        assert(e.drop_last() =~= Seq::<Seq<char>>::empty());
        assert(e.flatten_alt() =~= Seq::<char>::empty());
        assert(lines.flatten_alt() =~= Seq::<char>::empty());
    } else {
        lines.lemma_flatten_and_flatten_alt_are_equivalent();
    }
}


/// The characters `v[lo..hi]`.
pub fn subvec(v: &Vec<char>, lo: usize, hi: usize) -> (r: Vec<char>)
    requires
        lo <= hi <= v.len(),
    ensures
        r@ == v@.subrange(lo as int, hi as int),
{
    let mut r: Vec<char> = Vec::new();
    let mut i = lo;
    while i < hi
        invariant
            lo <= i <= hi <= v.len(),
            r@ == v@.subrange(lo as int, i as int),
        decreases hi - i,
    {
        r.push(v[i]);
        assert(v@.subrange(lo as int, i + 1) =~= v@.subrange(lo as int, i as int).push(v@[i as int]));
        i += 1;
    }
    r
}

/// The number of leading characters of `v` that fit in `w` bytes.
fn fit_count_exec(v: &Vec<char>, w: usize) -> (k: usize)
    ensures
        k == fit_count(v@, w as nat),
{
    let mut k: usize = 0;
    let mut acc: usize = 0;
    assert(v@.take(0) =~= Seq::<char>::empty());
    assert(encode_utf8(Seq::<char>::empty()) =~= Seq::<u8>::empty());
    while k < v.len()
        invariant
            k <= v.len(),
            acc == byte_len(v@.take(k as int)),
            acc <= w,
            fit_from(v@, w as nat, k as nat) == fit_count(v@, w as nat),
        decreases v.len() - k,
    {
        let n = char_len_utf8(v[k]);
        proof {
            assert(v@.take(k as int + 1) =~= v@.take(k as int).push(v@[k as int]));
            lemma_byte_len_push(v@.take(k as int), v@[k as int]);
        }
        if n > w - acc {
            return k;
        }
        acc = acc + n;
        k += 1;
    }
    k
}

/// Cuts `word` into `w`-byte pieces appended to `lines`; returns the remainder.
fn chunk_word(word: Vec<char>, w: usize, lines: &mut Vec<Vec<char>>) -> (rest: Vec<char>)
    requires
        splittable(word@, w as nat),
    ensures
        views(final(lines)@) == views(old(lines)@) + chunk_split(word@, w as nat).0,
        rest@ == chunk_split(word@, w as nat).1,
{
    let mut remaining = word;
    let ghost orig = word@;
    let ghost start = views(lines@);
    loop
        invariant
            start == views(old(lines)@),
            orig == word@,
            splittable(remaining@, w as nat),
            views(lines@) + chunk_split(remaining@, w as nat).0 == start + chunk_split(orig, w as nat).0,
            chunk_split(remaining@, w as nat).1 == chunk_split(orig, w as nat).1,
        decreases remaining@.len(),
    {
        match byte_len_upto(&remaining, w) {
            Some(_) => {
                assert(chunk_split(remaining@, w as nat).0 =~= Seq::<Seq<char>>::empty());
                assert(views(lines@) + Seq::<Seq<char>>::empty() =~= views(lines@));
                return remaining;
            },
            None => {},
        }
        let k = fit_count_exec(&remaining, w);
        proof {
            lemma_fit_count_bounds(remaining@, w as nat);
        }
        let chunk = subvec(&remaining, 0, k);
        let rest = subvec(&remaining, k, remaining.len());
        proof {
            let r = chunk_split(rest@, w as nat);
            assert(chunk@ =~= remaining@.take(k as int));
            assert(rest@ =~= remaining@.skip(k as int));
            assert(views(lines@.push(chunk)) =~= views(lines@).push(chunk@));
            assert(views(lines@).push(chunk@) + r.0 =~= views(lines@) + (seq![chunk@] + r.0));
        }
        lines.push(chunk);
        remaining = rest;
    }
}

/// Whether `word` can be cut into `w`-byte pieces (see `splittable`).
fn word_splittable(word: &Vec<char>, w: usize) -> (b: bool)
    ensures
        b == splittable(word@, w as nat),
{
    let mut remaining = subvec(word, 0, word.len());
    assert(remaining@ =~= word@);
    loop
        invariant
            splittable(remaining@, w as nat) == splittable(word@, w as nat),
        decreases remaining@.len(),
    {
        match byte_len_upto(&remaining, w) {
            Some(_) => {
                return true;
            },
            None => {},
        }
        let k = fit_count_exec(&remaining, w);
        proof {
            lemma_fit_count_bounds(remaining@, w as nat);
        }
        if k == 0 {
            return false;
        }
        let chunk = subvec(&remaining, 0, k);
        assert(chunk@ =~= remaining@.take(k as int));
        match byte_len_upto(&chunk, w) {
            Some(n) => {
                if n != w {
                    return false;
                }
            },
            None => {
                return false;
            },
        }
        let rest = subvec(&remaining, k, remaining.len());
        assert(rest@ =~= remaining@.skip(k as int));
        remaining = rest;
    }
}

/// Whether every word of `text` can be wrapped at `w` bytes, so that `wrap_text`
/// may be called (see `wrappable`).
pub fn wraps(text: &str, w: usize) -> (b: bool)
    ensures
        b == wrappable(text@, w as nat),
{
    let chars = chars_of(text);
    let ws = split_words(&chars);
    let mut i: usize = 0;
    while i < ws.len()
        invariant
            i <= ws.len(),
            chars@ == text@,
            ws@.len() == words(text@).len(),
            forall|j: int| 0 <= j < ws@.len() ==> #[trigger] ws@[j]@ == words(text@)[j],
            forall|j: int| 0 <= j < i ==> splittable(#[trigger] words(text@)[j], w as nat),
        decreases ws.len() - i,
    {
        assert(ws@[i as int]@ == words(text@)[i as int]);
        if !word_splittable(&ws[i], w) {
            return false;
        }
        i += 1;
    }
    true
}

/// Wraps `text` into lines of at most `max_width` bytes: words are packed greedily,
/// separated by single spaces, and words longer than a line are cut.
/// An empty or blank text gives one empty line.
pub fn wrap_text(text: &str, max_width: usize) -> (lines: Vec<String>)
    requires
        wrappable(text@, max_width as nat),
    ensures
        string_views(lines@) == wrap_lines(text@, max_width as nat),
        lines@.len() >= 1,
        lines_fit(string_views(lines@), max_width as nat),
{
    let w = max_width;
    let chars = chars_of(text);
    let ws = split_words(&chars);
    let ghost gw = words(text@);
    let mut lines: Vec<Vec<char>> = Vec::new();
    let mut cur: Vec<char> = Vec::new();
    let mut cur_bytes: usize = 0;
    let mut i: usize = 0;
    proof {
        assert(gw.take(0) =~= Seq::<Seq<char>>::empty());
        assert(views(lines@) =~= Seq::<Seq<char>>::empty());
        assert(encode_utf8(Seq::<char>::empty()) =~= Seq::<u8>::empty());
    }
    while i < ws.len()
        invariant
            i <= ws.len(),
            ws@.len() == gw.len(),
            gw == words(text@),
            forall|j: int| 0 <= j < ws@.len() ==> #[trigger] ws@[j]@ == gw[j],
            wrappable(text@, w as nat),
            views(lines@) == wrap_scan(gw.take(i as int), w as nat).0,
            cur@ == wrap_scan(gw.take(i as int), w as nat).1,
            cur_bytes == byte_len(cur@),
            cur_bytes <= w,
        decreases ws.len() - i,
    {
        let word = ws[i].clone();
        proof {
            assert(gw.take(i as int + 1).drop_last() =~= gw.take(i as int));
            assert(gw.take(i as int + 1).last() == gw[i as int]);
            assert(word@ == gw[i as int]);
            assert(splittable(words(text@)[i as int], w as nat));
            let pre = gw.take(i as int + 1);
            assert forall|j: int| 0 <= j < pre.len() implies splittable(#[trigger] pre[j], w as nat) by {
                assert(pre[j] == words(text@)[j]);
            }
            lemma_wrap_scan_fit(pre, w as nat);
        }
        match byte_len_upto(&word, w) {
            None => {
                if cur.len() > 0 {
                    proof {
                        assert(views(lines@.push(cur)) =~= views(lines@).push(cur@));
                    }
                    lines.push(cur);
                }
                let ghost before = views(lines@);
                let rest = chunk_word(word, w, &mut lines);
                cur = rest;
                proof {
                    let pre = gw.take(i as int + 1);
                    assert(byte_len(cur@) <= w);
                }
                match byte_len_upto(&cur, w) {
                    Some(n) => { cur_bytes = n; },
                    None => { assert(false); },
                }
            },
            Some(wb) => {
                if cur.len() == 0 {
                    cur = word;
                    cur_bytes = wb;
                } else if wb < w - cur_bytes {
                    proof {
                        lemma_byte_len_push(cur@, ' ');
                        lemma_byte_len_concat(cur@.push(' '), word@);
                    }
                    let ghost old_cur = cur@;
                    cur.push(' ');
                    let mut j: usize = 0;
                    while j < word.len()
                        invariant
                            j <= word.len(),
                            cur@ == old_cur.push(' ') + word@.take(j as int),
                        decreases word.len() - j,
                    {
                        cur.push(word[j]);
                        assert(old_cur.push(' ') + word@.take(j + 1) =~= (old_cur.push(' ') + word@.take(j as int)).push(word@[j as int]));
                        j += 1;
                    }
                    assert(word@.take(word.len() as int) =~= word@);
                    cur_bytes = cur_bytes + 1 + wb;
                } else {
                    proof {
                        assert(views(lines@.push(cur)) =~= views(lines@).push(cur@));
                    }
                    lines.push(cur);
                    cur = word;
                    cur_bytes = wb;
                }
            },
        }
        i += 1;
    }
    assert(gw.take(ws.len() as int) =~= gw);
    if cur.len() > 0 {
        proof {
            assert(views(lines@.push(cur)) =~= views(lines@).push(cur@));
        }
        lines.push(cur);
    }
    if lines.len() == 0 {
        lines.push(Vec::new());
        proof {
            assert(views(lines@) =~= seq![Seq::<char>::empty()]);
        }
    }
    let mut out: Vec<String> = Vec::new();
    let mut k: usize = 0;
    while k < lines.len()
        invariant
            k <= lines.len(),
            string_views(out@) =~= views(lines@).take(k as int),
        decreases lines.len() - k,
    {
        let s = string_of(&lines[k]);
        let ghost prev = out@;
        out.push(s);
        assert(out@ =~= prev.push(s));
        assert(string_views(prev.push(s)) =~= string_views(prev).push(s@));
        assert(views(lines@)[k as int] == lines@[k as int]@);
        assert(views(lines@).take(k as int + 1) =~= views(lines@).take(k as int).push(views(lines@)[k as int]));
        k += 1;
    }
    assert(views(lines@).take(lines.len() as int) =~= views(lines@));
    proof {
        lemma_wrap_lines_fit(text@, w as nat);
    }
    out
}


/* Moderation. */

/// Look-alike characters folded before matching: digits and symbols used in place of letters.
pub open spec fn unleet(c: char) -> char {
    if c == '0' {
        'o'
    } else if c == '1' {
        'i'
    } else if c == '3' {
        'e'
    } else if c == '4' {
        'a'
    } else if c == '5' {
        's'
    } else if c == '7' {
        't'
    } else if c == '@' {
        'a'
    } else if c == '$' {
        's'
    } else if c == '!' {
        'i'
    } else {
        c
    }
}

fn unleet_char(c: char) -> (r: char)
    ensures
        r == unleet(c),
{
    if c == '0' {
        'o'
    } else if c == '1' {
        'i'
    } else if c == '3' {
        'e'
    } else if c == '4' {
        'a'
    } else if c == '5' {
        's'
    } else if c == '7' {
        't'
    } else if c == '@' {
        'a'
    } else if c == '$' {
        's'
    } else if c == '!' {
        'i'
    } else {
        c
    }
}

/// Look-alikes folded, then everything but letters, digits and whitespace dropped.
pub open spec fn fold_keep(s: Seq<char>) -> Seq<char>
    decreases s.len(),
{
    if s.len() == 0 {
        Seq::empty()
    } else {
        let c = unleet(s.last());
        let p = fold_keep(s.drop_last());
        if is_alnum(c) || is_ws(c) {
            p.push(c)
        } else {
            p
        }
    }
}

/// `fold_keep` with ASCII letters and digits as the characters kept besides whitespace.
pub open spec fn fold_keep_ascii(s: Seq<char>) -> Seq<char>
    decreases s.len(),
{
    if s.len() == 0 {
        Seq::empty()
    } else {
        let c = unleet(s.last());
        let p = fold_keep_ascii(s.drop_last());
        if ascii_alnum(c) || is_ws(c) {
            p.push(c)
        } else {
            p
        }
    }
}

/// The normalized form of an ASCII text.
pub open spec fn normalized_ascii(text: Seq<char>) -> Seq<char> {
    fold_keep_ascii(ascii_lower_text(text))
}

/// Whether an ASCII text is free of blocked phrases (see `allowed`).
pub open spec fn allowed_ascii(text: Seq<char>) -> bool {
    forall|i: int|
        0 <= i < blocked_list().len() ==> !contains(normalized_ascii(text), #[trigger] blocked_list()[i])
            && !contains(ascii_lower_text(text), blocked_list()[i])
}

/// The form of a text that blocked phrases are matched against: lowercased,
/// look-alikes folded, punctuation removed.
pub open spec fn normalized(text: Seq<char>) -> Seq<char> {
    fold_keep(lowercase(text))
}

/// Lowercases `text`, folds look-alike characters and drops punctuation.
pub fn normalize(text: &str) -> (r: Vec<char>)
    ensures
        r@ == normalized(text@),
        is_ascii_text(text@) ==> r@ == normalized_ascii(text@),
{
    let lower = to_lower(text);
    let cs = chars_of(lower.as_str());
    let mut r: Vec<char> = Vec::new();
    let mut i: usize = 0;
    while i < cs.len()
        invariant
            i <= cs.len(),
            r@ == fold_keep(cs@.take(i as int)),
            cs@ == lowercase(text@),
            is_ascii_text(text@) ==> cs@ == ascii_lower_text(text@),
            is_ascii_text(text@) ==> r@ == fold_keep_ascii(cs@.take(i as int)),
        decreases cs.len() - i,
    {
        let c = unleet_char(cs[i]);
        assert(cs@.take(i as int + 1).drop_last() =~= cs@.take(i as int));
        proof {
            if is_ascii_text(text@) {
                assert((text@[i as int] as u32) < 0x80);
                assert(cs@[i as int] == ascii_lower(text@[i as int]));
            }
        }
        if char_is_alphanumeric(c) || is_whitespace(c) {
            r.push(c);
        }
        i += 1;
    }
    assert(cs@.take(cs.len() as int) =~= cs@);
    r
}

/// A text is allowed when no blocked phrase occurs in its lowercase form
/// nor in its normalized form.
pub open spec fn allowed(text: Seq<char>) -> bool {
    forall|i: int|
        0 <= i < blocked_list().len() ==> !contains(normalized(text), #[trigger] blocked_list()[i])
            && !contains(lowercase(text), blocked_list()[i])
}

/// Whether `text` is free of blocked phrases.
pub fn is_allowed(text: &str) -> (b: bool)
    ensures
        b == allowed(text@),
        is_ascii_text(text@) ==> b == allowed_ascii(text@),
{
    let normalized_text = normalize(text);
    let lower = to_lower(text);
    let lower_chars = chars_of(lower.as_str());
    proof {
        if is_ascii_text(text@) {
            assert(normalized(text@) == normalized_ascii(text@));
            assert(lowercase(text@) == ascii_lower_text(text@));
        }
    }
    let words = blocked_words();
    let mut i: usize = 0;
    while i < words.len()
        invariant
            i <= words.len(),
            words@.len() == blocked_list().len(),
            forall|j: int| 0 <= j < words@.len() ==> #[trigger] words@[j]@ == blocked_list()[j],
            normalized_text@ == normalized(text@),
            lower_chars@ == lowercase(text@),
            is_ascii_text(text@) ==> normalized(text@) == normalized_ascii(text@),
            is_ascii_text(text@) ==> lowercase(text@) == ascii_lower_text(text@),
            forall|j: int|
                0 <= j < i ==> !contains(normalized(text@), #[trigger] blocked_list()[j])
                    && !contains(lowercase(text@), blocked_list()[j]),
        decreases words.len() - i,
    {
        let w = chars_of(words[i]);
        assert(w@ == blocked_list()[i as int]);
        if contains_chars(&normalized_text, &w) || contains_chars(&lower_chars, &w) {
            return false;
        }
        i += 1;
    }
    true
}

/* Laws of the blocked-phrase filter (on ASCII text, where `is_allowed` is `allowed_ascii`). */

proof fn lemma_fold_keep_ascii_concat(a: Seq<char>, b: Seq<char>)
    ensures
        fold_keep_ascii(a + b) == fold_keep_ascii(a) + fold_keep_ascii(b),
    decreases b.len(),
{
    if b.len() == 0 {
        assert(a + b =~= a);
        assert(fold_keep_ascii(a) + fold_keep_ascii(b) =~= fold_keep_ascii(a));
    } else {
        lemma_fold_keep_ascii_concat(a, b.drop_last());
        assert((a + b).drop_last() =~= a + b.drop_last());
        assert((a + b).last() == b.last());
        let c = unleet(b.last());
        if ascii_alnum(c) || is_ws(c) {
            assert(fold_keep_ascii(a) + fold_keep_ascii(b.drop_last()).push(c) =~= (fold_keep_ascii(a)
                + fold_keep_ascii(b.drop_last())).push(c));
        }
    }
}

proof fn lemma_lower_concat(a: Seq<char>, b: Seq<char>)
    ensures
        ascii_lower_text(a + b) == ascii_lower_text(a) + ascii_lower_text(b),
{
    assert(ascii_lower_text(a + b) =~= ascii_lower_text(a) + ascii_lower_text(b));
}

proof fn lemma_contains_within(a: Seq<char>, x: Seq<char>, b: Seq<char>, w: Seq<char>)
    requires
        contains(x, w),
    ensures
        contains(a + x + b, w),
{
    let i = choose|i: int| occurs_at(x, w, i);
    assert((a + x + b).subrange(a.len() + i, a.len() + i + w.len()) =~= x.subrange(i, i + w.len()));
    assert(occurs_at(a + x + b, w, a.len() + i));
}

proof fn lemma_forms_concat(p: Seq<char>, s: Seq<char>, q: Seq<char>)
    ensures
        ascii_lower_text(p + s + q) == ascii_lower_text(p) + ascii_lower_text(s) + ascii_lower_text(q),
        normalized_ascii(p + s + q) == normalized_ascii(p) + normalized_ascii(s) + normalized_ascii(q),
{
    lemma_lower_concat(p + s, q);
    lemma_lower_concat(p, s);
    lemma_fold_keep_ascii_concat(ascii_lower_text(p) + ascii_lower_text(s), ascii_lower_text(q));
    lemma_fold_keep_ascii_concat(ascii_lower_text(p), ascii_lower_text(s));
}

/// Adding text around a blocked text never unblocks it.
pub proof fn law_blocked_stays_blocked(p: Seq<char>, s: Seq<char>, q: Seq<char>)
    requires
        !allowed_ascii(s),
    ensures
        !allowed_ascii(p + s + q),
{
    let i = choose|i: int|
        0 <= i < blocked_list().len() && !(!contains(normalized_ascii(s), #[trigger] blocked_list()[i])
            && !contains(ascii_lower_text(s), blocked_list()[i]));
    let w = blocked_list()[i];
    lemma_forms_concat(p, s, q);
    if contains(normalized_ascii(s), w) {
        lemma_contains_within(normalized_ascii(p), normalized_ascii(s), normalized_ascii(q), w);
    } else {
        lemma_contains_within(ascii_lower_text(p), ascii_lower_text(s), ascii_lower_text(q), w);
    }
}

/// Letter case does not matter: a text is allowed exactly when its upper- or lowercase
/// form is.
pub proof fn law_case_does_not_matter(s: Seq<char>)
    ensures
        allowed_ascii(ascii_upper_text(s)) == allowed_ascii(s),
        allowed_ascii(ascii_lower_text(s)) == allowed_ascii(s),
{
    assert(ascii_lower_text(ascii_upper_text(s)) =~= ascii_lower_text(s));
    assert(ascii_lower_text(ascii_lower_text(s)) =~= ascii_lower_text(s));
}

/// A character that the filter drops: ASCII punctuation other than the look-alikes
/// `@`, `$` and `!`.
pub open spec fn filler(c: char) -> bool {
    &&& (c as u32) < 0x80
    &&& !ascii_alnum(c)
    &&& !is_ws(c)
    &&& unleet(c) == c
}

/// `s` spells `w`: each character of `w` written in either case or as its look-alike
/// (`0` for o, `1` or `!` for i, `3` for e, `4` or `@` for a, `5` or `$` for s, `7` for
/// t), with punctuation (`filler`) anywhere.
pub open spec fn spells(s: Seq<char>, w: Seq<char>) -> bool
    decreases s.len(),
{
    if s.len() == 0 {
        w.len() == 0
    } else if filler(s[0]) {
        spells(s.drop_first(), w)
    } else {
        &&& w.len() > 0
        &&& (s[0] as u32) < 0x80
        &&& unleet(ascii_lower(s[0])) == w[0]
        &&& spells(s.drop_first(), w.drop_first())
    }
}

/// A phrase made of lowercase ASCII letters and spaces.
pub open spec fn plain_phrase(w: Seq<char>) -> bool {
    forall|j: int| 0 <= j < w.len() ==> (0x61 <= (#[trigger] w[j] as u32) <= 0x7a || w[j] == ' ')
}

proof fn lemma_spells_normalizes(s: Seq<char>, w: Seq<char>)
    requires
        spells(s, w),
        plain_phrase(w),
    ensures
        normalized_ascii(s) == w,
    decreases s.len(),
{
    if s.len() == 0 {
        assert(ascii_lower_text(s) =~= Seq::<char>::empty());
    } else {
        let head = seq![s[0]];
        let rest = s.drop_first();
        assert(head + rest =~= s);
        lemma_forms_concat(head, rest, Seq::empty());
        assert(head + rest + Seq::<char>::empty() =~= s);
        assert(ascii_lower_text(Seq::<char>::empty()) =~= Seq::<char>::empty());
        assert(normalized_ascii(Seq::<char>::empty()) =~= Seq::<char>::empty());
        let lh = ascii_lower_text(head);
        assert(lh =~= seq![ascii_lower(s[0])]);
        assert(lh.drop_last() =~= Seq::<char>::empty());
        let c = unleet(ascii_lower(s[0]));
        if filler(s[0]) {
            assert(!(ascii_alnum(c) || is_ws(c)));
            assert(normalized_ascii(head) =~= Seq::<char>::empty());
            lemma_spells_normalizes(rest, w);
            assert(Seq::<char>::empty() + w + Seq::<char>::empty() =~= w);
        } else {
            let wr = w.drop_first();
            assert(plain_phrase(wr)) by {
                assert forall|j: int| 0 <= j < wr.len() implies (0x61 <= (#[trigger] wr[j] as u32) <= 0x7a
                    || wr[j] == ' ') by {
                    assert(wr[j] == w[j + 1]);
                }
            }
            lemma_spells_normalizes(rest, wr);
            assert(0x61 <= (w[0] as u32) <= 0x7a || w[0] == ' ');
            assert(ascii_alnum(c) || is_ws(c));
            assert(normalized_ascii(head) =~= seq![c]);
            assert(seq![c] + wr + Seq::<char>::empty() =~= w);
        }
    }
}

/// A blocked phrase stays blocked however it is spelled (see `spells`), wherever it
/// stands in a text.
pub proof fn law_spelled_phrase_blocked(p: Seq<char>, s: Seq<char>, q: Seq<char>, i: int)
    requires
        0 <= i < blocked_list().len(),
        spells(s, blocked_list()[i]),
    ensures
        !allowed_ascii(p + s + q),
{
    reveal_strlit("kill yourself");
    reveal_strlit("kys");
    reveal_strlit("go die");
    let w = blocked_list()[i];
    assert(plain_phrase(w));
    lemma_spells_normalizes(s, w);
    assert(occurs_at(normalized_ascii(s), w, 0)) by {
        assert(normalized_ascii(s).subrange(0, w.len() as int) =~= w);
    }
    assert(!allowed_ascii(s));
    law_blocked_stays_blocked(p, s, q);
}

/* Box geometry. */

/// Height in rows of a confession box: its wrapped lines plus the two borders
/// (the line count is taken modulo 2^16, as `as u16` does).
pub open spec fn box_height(text: Seq<char>) -> int {
    (wrap_lines(text, BOX_INNER_WIDTH as nat).len() as int) % 65536 + 2
}

/// The box height of `text` can be computed without a panic.
pub open spec fn height_ok(text: Seq<char>) -> bool {
    &&& wrappable(text, BOX_INNER_WIDTH as nat)
    &&& box_height(text) <= u16::MAX
}

/// Whether the box height of `text` can be computed (see `height_ok`).
pub fn height_fits(text: &str) -> (b: bool)
    ensures
        b == height_ok(text@),
{
    if !wraps(text, BOX_INNER_WIDTH) {
        return false;
    }
    let lines = wrap_text(text, BOX_INNER_WIDTH);
    let n = lines.len() % 65536;
    n + 2 <= 65535
}

/// Height of the box that shows `text` on the canvas.
pub fn confession_height(text: &str) -> (h: u16)
    requires
        height_ok(text@),
    ensures
        h == box_height(text@),
        h >= 2,
{
    let lines = wrap_text(text, BOX_INNER_WIDTH);
    proof {
        lemma_wrap_lines_fit(text@, BOX_INNER_WIDTH as nat);
    }
    let len = lines.len();
    let n = len as u16;
    assert(n == len % 65536) by (bit_vector)
        requires
            n == len as u16,
    ;
    n + 2
}

} // verus!
