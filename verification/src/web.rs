use vstd::prelude::*;
use crate::confession::{string_views, wrap_text, wrappable, wrap_lines};
use crate::reply::Reply;
use crate::text::{
    byte_len, byte_len_upto, chars_of, digits, int_text, int_to_string, push_char, push_digits,
    push_int, push_str,
};

verus! {

/* Escaping text for HTML. */

/// The HTML form of one character: `&`, `<`, `>` and `"` become entities.
pub open spec fn escape_char(c: char) -> Seq<char> {
    if c == '&' {
        "&amp;"@
    } else if c == '<' {
        "&lt;"@
    } else if c == '>' {
        "&gt;"@
    } else if c == '"' {
        "&quot;"@
    } else {
        seq![c]
    }
}

/// `s` with every character escaped for HTML.
pub open spec fn escaped(s: Seq<char>) -> Seq<char>
    decreases s.len(),
{
    if s.len() == 0 {
        Seq::empty()
    } else {
        escaped(s.drop_last()) + escape_char(s.last())
    }
}

/// Escaped text holds no `<`, `>` or `"`, so it cannot open a tag or leave an attribute.
pub proof fn law_escaped_is_inert(s: Seq<char>)
    ensures
        forall|i: int|
            0 <= i < escaped(s).len() ==> #[trigger] escaped(s)[i] != '<' && escaped(s)[i] != '>'
                && escaped(s)[i] != '"',
    decreases s.len(),
{
    reveal_strlit("&amp;");
    reveal_strlit("&lt;");
    reveal_strlit("&gt;");
    reveal_strlit("&quot;");
    if s.len() > 0 {
        law_escaped_is_inert(s.drop_last());
        let p = escaped(s.drop_last());
        let t = escape_char(s.last());
        assert forall|i: int| 0 <= i < (p + t).len() implies #[trigger] (p + t)[i] != '<' && (p
            + t)[i] != '>' && (p + t)[i] != '"' by {
            if i < p.len() {
                assert((p + t)[i] == p[i]);
            } else {
                assert((p + t)[i] == t[i - p.len()]);
            }
        }
    }
}

/// Reads HTML text back, left to right: each of the entities `&amp;`, `&lt;`, `&gt;`
/// and `&quot;` becomes its character; everything else stays.
pub open spec fn unescape(t: Seq<char>) -> Seq<char>
    decreases t.len(),
{
    if t.len() == 0 {
        Seq::empty()
    } else if t.len() >= 5 && t.take(5) == "&amp;"@ {
        seq!['&'] + unescape(t.skip(5))
    } else if t.len() >= 4 && t.take(4) == "&lt;"@ {
        seq!['<'] + unescape(t.skip(4))
    } else if t.len() >= 4 && t.take(4) == "&gt;"@ {
        seq!['>'] + unescape(t.skip(4))
    } else if t.len() >= 6 && t.take(6) == "&quot;"@ {
        seq!['"'] + unescape(t.skip(6))
    } else {
        seq![t[0]] + unescape(t.skip(1))
    }
}

proof fn lemma_escaped_front(s: Seq<char>)
    requires
        s.len() > 0,
    ensures
        escaped(s) == escape_char(s[0]) + escaped(s.skip(1)),
    decreases s.len(),
{
    if s.len() == 1 {
        assert(s.skip(1) =~= Seq::<char>::empty());
        assert(s.drop_last() =~= Seq::<char>::empty());
        assert(Seq::<char>::empty() + escape_char(s[0]) =~= escape_char(s[0]) + Seq::<char>::empty());
    } else {
        let d = s.drop_last();
        lemma_escaped_front(d);
        assert(d.skip(1) =~= s.skip(1).drop_last());
        assert(s.skip(1).last() == s.last());
        assert(escape_char(s[0]) + escaped(d.skip(1)) + escape_char(s.last()) =~= escape_char(s[0]) + (
        escaped(d.skip(1)) + escape_char(s.last())));
    }
}

proof fn lemma_unescape_char(c: char, rest: Seq<char>)
    ensures
        unescape(escape_char(c) + rest) == seq![c] + unescape(rest),
{
    reveal_strlit("&amp;");
    reveal_strlit("&lt;");
    reveal_strlit("&gt;");
    reveal_strlit("&quot;");
    let t = escape_char(c) + rest;
    if c == '&' {
        assert(t.take(5) =~= "&amp;"@);
        assert(t.skip(5) =~= rest);
    } else if c == '<' {
        assert(t.len() >= 5 ==> t[1] != "&amp;"@[1]);
        assert(t.take(4) =~= "&lt;"@);
        assert(t.skip(4) =~= rest);
    } else if c == '>' {
        assert(t.len() >= 5 ==> t[1] != "&amp;"@[1]);
        assert(t[1] != "&lt;"@[1]);
        assert(t.take(4) =~= "&gt;"@);
        assert(t.skip(4) =~= rest);
    } else if c == '"' {
        assert(t[1] != "&amp;"@[1]);
        assert(t[1] != "&lt;"@[1]);
        assert(t[1] != "&gt;"@[1]);
        assert(t.take(6) =~= "&quot;"@);
        assert(t.skip(6) =~= rest);
    } else {
        assert(t[0] == c);
        assert(t.len() >= 5 ==> t.take(5)[0] != "&amp;"@[0]);
        assert(t.len() >= 4 ==> t.take(4)[0] != "&lt;"@[0]);
        assert(t.len() >= 4 ==> t.take(4)[0] != "&gt;"@[0]);
        assert(t.len() >= 6 ==> t.take(6)[0] != "&quot;"@[0]);
        assert(t.skip(1) =~= rest);
    }
}

/// Reading escaped text back gives the original text.
pub proof fn law_unescape_escaped(s: Seq<char>)
    ensures
        unescape(escaped(s)) == s,
    decreases s.len(),
{
    if s.len() > 0 {
        lemma_escaped_front(s);
        lemma_unescape_char(s[0], escaped(s.skip(1)));
        law_unescape_escaped(s.skip(1));
        assert(seq![s[0]] + s.skip(1) =~= s);
    }
}

fn push_escaped(out: &mut String, s: &str)
    ensures
        final(out)@ == old(out)@ + escaped(s@),
{
    let cs = chars_of(s);
    let mut i: usize = 0;
    assert(old(out)@ + escaped(cs@.take(0)) =~= old(out)@) by {
        assert(cs@.take(0) =~= Seq::<char>::empty());
    }
    while i < cs.len()
        invariant
            i <= cs.len(),
            cs@ == s@,
            out@ == old(out)@ + escaped(cs@.take(i as int)),
        decreases cs.len() - i,
    {
        let c = cs[i];
        let ghost before = out@;
        if c == '&' {
            push_str(out, "&amp;");
        } else if c == '<' {
            push_str(out, "&lt;");
        } else if c == '>' {
            push_str(out, "&gt;");
        } else if c == '"' {
            push_str(out, "&quot;");
        } else {
            push_char(out, c);
        }
        assert(cs@.take(i + 1).drop_last() =~= cs@.take(i as int));
        assert(out@ =~= before + escape_char(c));
        assert(old(out)@ + escaped(cs@.take(i + 1)) =~= old(out)@ + escaped(cs@.take(i as int))
            + escape_char(c));
        i += 1;
    }
    assert(cs@.take(cs.len() as int) =~= cs@);
}

/// Escapes `&`, `<`, `>` and `"` for use in HTML text and attributes.
pub fn html_escape(s: &str) -> (r: String)
    ensures
        r@ == escaped(s@),
{
    let mut r = String::new();
    push_escaped(&mut r, s);
    assert(r@ =~= escaped(s@));
    r
}

/* Repeated characters and joined lines. */

pub open spec fn repeat(c: char, n: nat) -> Seq<char> {
    Seq::new(n, |i: int| c)
}

fn push_repeat(out: &mut String, c: char, n: usize)
    ensures
        final(out)@ == old(out)@ + repeat(c, n as nat),
{
    let mut i: usize = 0;
    while i < n
        invariant
            i <= n,
            out@ == old(out)@ + repeat(c, i as nat),
        decreases n - i,
    {
        push_char(out, c);
        assert(old(out)@ + repeat(c, (i + 1) as nat) =~= (old(out)@ + repeat(c, i as nat)).push(c));
        i += 1;
    }
}

/// `a - b`, or 0 when `b` is larger (as `saturating_sub` gives it).
pub open spec fn sat_sub(a: int, b: int) -> nat {
    if a > b {
        (a - b) as nat
    } else {
        0
    }
}

/// The lines joined with newlines.
pub open spec fn join_lines(ls: Seq<Seq<char>>) -> Seq<char>
    decreases ls.len(),
{
    if ls.len() == 0 {
        Seq::empty()
    } else if ls.len() == 1 {
        ls[0]
    } else {
        join_lines(ls.drop_last()) + seq!['\n'] + ls.last()
    }
}

fn join_strings(ls: &Vec<String>) -> (r: String)
    ensures
        r@ == join_lines(string_views(ls@)),
{
    let ghost v = string_views(ls@);
    let mut r = String::new();
    let mut i: usize = 0;
    while i < ls.len()
        invariant
            i <= ls.len(),
            v == string_views(ls@),
            r@ == join_lines(v.take(i as int)),
        decreases ls.len() - i,
    {
        if i > 0 {
            push_char(&mut r, '\n');
        }
        push_str(&mut r, ls[i].as_str());
        proof {
            let t = v.take(i + 1);
            assert(t.drop_last() =~= v.take(i as int));
            assert(t.last() == ls@[i as int]@);
            if i == 0 {
                assert(join_lines(v.take(0)) =~= Seq::<char>::empty());
                assert(r@ =~= t[0]);
            }
        }
        i += 1;
    }
    assert(v.take(ls.len() as int) =~= v);
    r
}

/// The number of characters of `s` whose UTF-8 bytes, added to `extra`, stay under `width`:
/// `width - (extra + byte_len(s))`, or 0.
fn pad_for(s: &str, extra: usize, width: usize) -> (n: usize)
    requires
        extra <= width,
    ensures
        n == sat_sub(width as int, extra + byte_len(s@)),
{
    let cs = chars_of(s);
    match byte_len_upto(&cs, width - extra) {
        Some(b) => width - extra - b,
        None => 0,
    }
}

/* The landing page. */

pub const LANDING_0: &'static str = r##"<!DOCTYPE html>
<html lang="en">
<head>
  <meta charset="utf-8">
  <meta name="viewport" content="width=device-width, initial-scale=1">
  <title>eipi.boo</title>
  <meta property="og:title" content="eipi.boo">
  <meta property="og:description" content=""##;

pub const LANDING_1: &'static str = r##" confessions from "##;

pub const LANDING_2: &'static str = r##" strangers over ssh">
  <meta property="og:type" content="website">
  <link rel="preconnect" href="https://fonts.googleapis.com">
  <link rel="preconnect" href="https://fonts.gstatic.com" crossorigin>
  <link href="https://fonts.googleapis.com/css2?family=JetBrains+Mono:wght@400;700&display=swap" rel="stylesheet">
  <style>
    * { margin: 0; padding: 0; box-sizing: border-box; }
    body {
      background: #faf4ed;
      color: #575279;
      font-family: 'JetBrains Mono', 'Courier New', monospace;
      display: flex;
      justify-content: center;
      align-items: center;
      min-height: 100vh;
    }
    .container {
      text-align: center;
      padding: 2rem;
    }
    h1 {
      font-size: 3rem;
      color: #b4637a;
      margin-bottom: 0.5rem;
    }
    .tagline {
      color: #9893a5;
      font-size: 1.1rem;
      margin-bottom: 2rem;
    }
    .stats {
      display: flex;
      justify-content: center;
      gap: 2rem;
      margin-bottom: 2rem;
      flex-wrap: wrap;
    }
    .stat {
      text-align: center;
    }
    .stat-num {
      font-size: 1.8rem;
      color: #b4637a;
      font-weight: bold;
      display: block;
    }
    .stat-label {
      font-size: 0.8rem;
      color: #9893a5;
    }
    .cmd {
      background: #f2e9e1;
      border: 1px solid #dfdad9;
      border-radius: 8px;
      padding: 1.2rem 2rem;
      display: inline-block;
      margin-bottom: 1.5rem;
    }
    .cmd span {
      color: #56949f;
      font-size: 1.3rem;
    }
    .cmd code {
      color: #286983;
      font-size: 1.3rem;
      font-weight: bold;
    }
    .online {
      color: #56949f;
      font-size: 0.85rem;
      margin-bottom: 1.5rem;
    }
    .online .dot {
      display: inline-block;
      width: 8px;
      height: 8px;
      background: #56949f;
      border-radius: 50%;
      margin-right: 4px;
      animation: pulse 2s infinite;
    }
    @keyframes pulse {
      0%, 100% { opacity: 1; }
      50% { opacity: 0.4; }
    }
    .footer {
      color: #9893a5;
      font-size: 0.85rem;
    }
    .footer a {
      color: #907aa9;
      text-decoration: none;
    }
    .footer a:hover {
      text-decoration: underline;
    }
  </style>
</head>
<body>
  <div class="container">
    <h1>eipi.boo</h1>
    <p class="tagline">confess over ssh</p>
    <div class="stats">
      <div class="stat">
        <span class="stat-num">"##;

pub const LANDING_3: &'static str = r##"</span>
        <span class="stat-label">confessions</span>
      </div>
      <div class="stat">
        <span class="stat-num">"##;

pub const LANDING_4: &'static str = r##"</span>
        <span class="stat-label">humans</span>
      </div>
      <div class="stat">
        <span class="stat-num">"##;

pub const LANDING_5: &'static str = r##"</span>
        <span class="stat-label">replies</span>
      </div>
      <div class="stat">
        <span class="stat-num">"##;

pub const LANDING_6: &'static str = r##"</span>
        <span class="stat-label">reactions</span>
      </div>
    </div>
    <div class="cmd">
      <span>$ </span><code>ssh eipi.boo</code>
    </div>
    <p class="online"><span class="dot"></span>"##;

pub const LANDING_7: &'static str = r##" online now</p>
    <p class="footer">
      <a href="https://github.com/pwnwriter/eipi.boo">source</a>
    </p>
  </div>
</body>
</html>"##;

pub const PAGE_0: &'static str = r##"<!DOCTYPE html>
<html lang="en">
<head>
  <meta charset="utf-8">
  <meta name="viewport" content="width=device-width, initial-scale=1">
  <title>confession #"##;

pub const PAGE_1: &'static str = r##" | eipi.boo</title>
  <meta property="og:title" content="confession #"##;

pub const PAGE_2: &'static str = r##" | eipi.boo">
  <meta property="og:description" content=""##;

pub const PAGE_3: &'static str = r##"">
  <meta property="og:type" content="article">
  <meta property="og:url" content="https://eipi.boo/c/"##;

pub const PAGE_4: &'static str = r##"">
  <meta name="twitter:card" content="summary">
  <meta name="twitter:title" content="confession #"##;

pub const PAGE_5: &'static str = r##" | eipi.boo">
  <meta name="twitter:description" content=""##;

pub const PAGE_6: &'static str = r##"">
  <link rel="preconnect" href="https://fonts.googleapis.com">
  <link rel="preconnect" href="https://fonts.gstatic.com" crossorigin>
  <link href="https://fonts.googleapis.com/css2?family=JetBrains+Mono:wght@400;700&display=swap" rel="stylesheet">
  <style>
    * { margin: 0; padding: 0; box-sizing: border-box; }
    body {
      background: #faf4ed;
      color: #575279;
      font-family: 'JetBrains Mono', 'Courier New', monospace;
      display: flex;
      flex-direction: column;
      justify-content: center;
      align-items: center;
      min-height: 100vh;
    }
    .ascii {
      white-space: pre;
      font-size: 14px;
      line-height: 1.4;
      color: #575279;
      font-family: 'JetBrains Mono', 'Courier New', monospace;
    }
    .ascii .border { color: #9893a5; }
    .ascii .dots-red { color: #b4637a; }
    .ascii .dots-yellow { color: #ea9d34; }
    .ascii .dots-green { color: #56949f; }
    .ascii .age { color: #9893a5; }
    .ascii .heart { color: #b4637a; }
    .ascii .man { color: #9893a5; }
    .cta {
      text-align: center;
      margin-top: 2rem;
    }
    .cta .cmd {
      background: #f2e9e1;
      border: 1px solid #dfdad9;
      border-radius: 6px;
      padding: 0.6rem 1.2rem;
      display: inline-block;
    }
    .cta .cmd code {
      color: #286983;
      font-weight: bold;
    }
    .actions {
      margin-top: 1.5rem;
      display: flex;
      gap: 0.5rem;
      flex-wrap: wrap;
      justify-content: center;
    }
    .actions button {
      background: #f2e9e1;
      border: 1px solid #dfdad9;
      border-radius: 6px;
      padding: 0.5rem 1rem;
      color: #575279;
      font-family: 'JetBrains Mono', 'Courier New', monospace;
      font-size: 0.8rem;
      cursor: pointer;
      display: inline-flex;
      align-items: center;
      gap: 0.4rem;
      transition: background 0.15s;
    }
    .actions button:hover {
      background: #dfdad9;
    }
    .actions button.copied {
      background: #56949f;
      color: #faf4ed;
      border-color: #56949f;
    }
    .actions .share-row {
      display: flex;
      gap: 0.4rem;
    }
    .actions .share-row button {
      padding: 0.5rem 0.7rem;
    }
    .replies {
      width: 100%;
      max-width: 480px;
      margin: 2rem auto 0;
      padding: 0 1rem;
    }
    .replies-head {
      color: #56949f;
      font-size: 0.85rem;
      margin-bottom: 0.75rem;
    }
    .reply {
      background: #f2e9e1;
      border-left: 2px solid #907aa9;
      border-radius: 4px;
      padding: 0.6rem 0.9rem;
      margin-bottom: 0.6rem;
    }
    .reply-head {
      display: flex;
      gap: 0.5rem;
      align-items: baseline;
      margin-bottom: 0.3rem;
    }
    .reply-name {
      color: #907aa9;
      font-weight: bold;
      font-size: 0.8rem;
    }
    .reply-time {
      color: #9893a5;
      font-size: 0.75rem;
    }
    .reply-text {
      color: #575279;
      font-size: 0.9rem;
      line-height: 1.4;
      white-space: pre-wrap;
      word-break: break-word;
    }
  </style>
</head>
<body>
  <pre class="ascii" id="card">"##;

pub const PAGE_7: &'static str = r##"</pre>
  "##;

pub const PAGE_8: &'static str = r##"
  <div class="cta">
    <p style="color: #9893a5; font-size: 0.85rem; margin-bottom: 0.5rem;">react and reply over ssh</p>
    <div class="cmd"><code>$ ssh eipi.boo</code></div>
  </div>
  <div class="actions">
    <button onclick="copyLink()"><span id="copy-icon">⎘</span> <span id="copy-text">copy link</span></button>
    <div class="share-row">
      <button onclick="shareX()" title="share on X">𝕏</button>
      <button onclick="shareFB()" title="share on Facebook">f</button>
      <button onclick="shareWA()" title="share on WhatsApp">w</button>
      <button id="native-share" onclick="nativeShare()" title="share" style="display:none">↗ share</button>
    </div>
    <button onclick="saveImage()">⤓ save image</button>
  </div>
  <canvas id="canvas" style="display:none;"></canvas>
  <script>
  const pageUrl = 'https://eipi.boo/c/"##;

pub const PAGE_9: &'static str = r##"';
  const shareText = 'anonymous confession on eipi.boo';

  function copyLink() {
    navigator.clipboard.writeText(pageUrl).then(() => {
      const btn = document.getElementById('copy-text');
      const icon = document.getElementById('copy-icon');
      btn.textContent = 'copied!';
      icon.textContent = '✓';
      btn.parentElement.classList.add('copied');
      setTimeout(() => {
        btn.textContent = 'copy link';
        icon.textContent = '⎘';
        btn.parentElement.classList.remove('copied');
      }, 2000);
    });
  }

  function shareX() {
    window.open('https://x.com/intent/tweet?url=' + encodeURIComponent(pageUrl) + '&text=' + encodeURIComponent(shareText), '_blank');
  }

  function shareFB() {
    window.open('https://www.facebook.com/sharer/sharer.php?u=' + encodeURIComponent(pageUrl), '_blank');
  }

  function shareWA() {
    window.open('https://wa.me/?text=' + encodeURIComponent(shareText + ' ' + pageUrl), '_blank');
  }

  function nativeShare() {
    navigator.share({ title: 'confession on eipi.boo', text: shareText, url: pageUrl }).catch(() => {});
  }

  if (navigator.share) {
    document.getElementById('native-share').style.display = 'inline-flex';
  }

  async function saveImage() {
    await document.fonts.ready;
    const pre = document.getElementById('card');
    const canvas = document.getElementById('canvas');
    const ctx = canvas.getContext('2d');
    const lines = pre.textContent.split('\n');
    const fontSize = 14;
    const lineHeight = fontSize * 1.4;
    const padding = 40;
    ctx.font = fontSize + 'px JetBrains Mono, Courier New, monospace';
    let maxWidth = 0;
    for (const line of lines) {
      const w = ctx.measureText(line).width;
      if (w > maxWidth) maxWidth = w;
    }
    canvas.width = maxWidth + padding * 2;
    canvas.height = lines.length * lineHeight + padding * 2;
    ctx.fillStyle = '#faf4ed';
    ctx.fillRect(0, 0, canvas.width, canvas.height);
    ctx.font = fontSize + 'px JetBrains Mono, Courier New, monospace';
    ctx.fillStyle = '#575279';
    ctx.textBaseline = 'top';
    for (let i = 0; i < lines.length; i++) {
      ctx.fillText(lines[i], padding, padding + i * lineHeight);
    }
    ctx.fillStyle = '#9893a5';
    ctx.font = '12px JetBrains Mono, Courier New, monospace';
    ctx.fillText('eipi.boo', canvas.width - padding - ctx.measureText('eipi.boo').width, canvas.height - 24);
    const link = document.createElement('a');
    link.download = 'confession-"##;

pub const PAGE_10: &'static str = r##".png';
    link.href = canvas.toDataURL('image/png');
    link.click();
  }
  </script>
</body>
</html>"##;


/// The landing page with the site's totals and the number of viewers online.
pub open spec fn landing_page_text(confessions: i64, humans: i64, replies: i64, reactions: i64, online: usize) -> Seq<char> {
    LANDING_0@ + int_text(confessions as int) + LANDING_1@ + int_text(humans as int) + LANDING_2@
        + int_text(confessions as int) + LANDING_3@ + int_text(humans as int) + LANDING_4@
        + int_text(replies as int) + LANDING_5@ + int_text(reactions as int) + LANDING_6@
        + digits(online as nat) + LANDING_7@
}

/// Renders the landing page.
pub fn landing_page(confessions: i64, humans: i64, replies: i64, reactions: i64, online: usize) -> (r: String)
    ensures
        r@ == landing_page_text(confessions, humans, replies, reactions, online),
{
    let mut r = String::new();
    push_str(&mut r, LANDING_0);
    push_int(&mut r, confessions);
    push_str(&mut r, LANDING_1);
    push_int(&mut r, humans);
    push_str(&mut r, LANDING_2);
    push_int(&mut r, confessions);
    push_str(&mut r, LANDING_3);
    push_int(&mut r, humans);
    push_str(&mut r, LANDING_4);
    push_int(&mut r, replies);
    push_str(&mut r, LANDING_5);
    push_int(&mut r, reactions);
    push_str(&mut r, LANDING_6);
    push_digits(&mut r, online as u64);
    push_str(&mut r, LANDING_7);
    assert(r@ =~= landing_page_text(confessions, humans, replies, reactions, online));
    r
}


/* The ASCII card of a confession page. */

/// Width of the card between its borders.
pub const CARD_INNER: usize = 46;

pub const SPAN_BORDER: &'static str = "<span style=\"color:#9893a5\">";

pub const SPAN_CLOSE: &'static str = "</span>";

pub const CARD_DOTS: &'static str = "<span style=\"color:#b4637a\">●</span> <span style=\"color:#ea9d34\">●</span> <span style=\"color:#56949f\">●</span>";

pub const LOVE_MARK: &'static str = "<span style=\"color:#b4637a\">♥</span> ";

pub const REPLY_MARK: &'static str = "  <span style=\"color:#56949f\">↩</span> ";

pub const REACTION_MARK: &'static str = "  <span style=\"color:#ea9d34\">✦</span> ";

/// A border cell: `│` in the border colour.
pub open spec fn bar() -> Seq<char> {
    SPAN_BORDER@ + "│"@ + SPAN_CLOSE@
}

pub open spec fn card_top() -> Seq<char> {
    SPAN_BORDER@ + "╭"@ + repeat('─', 46) + "╮"@ + SPAN_CLOSE@
}

pub open spec fn card_age_line(age: Seq<char>) -> Seq<char> {
    bar() + "  "@ + CARD_DOTS@ + repeat(' ', sat_sub(46, (7 + byte_len(age) + 2) as int)) + SPAN_BORDER@
        + escaped(" "@ + age + " "@) + SPAN_CLOSE@ + bar()
}

pub open spec fn card_rule() -> Seq<char> {
    SPAN_BORDER@ + "│"@ + repeat('─', 46) + "│"@ + SPAN_CLOSE@
}

pub open spec fn card_blank() -> Seq<char> {
    bar() + repeat(' ', 46) + bar()
}

pub open spec fn card_text_line(l: Seq<char>) -> Seq<char> {
    bar() + "  "@ + escaped(l) + repeat(' ', sat_sub(46, (l.len() + 2) as int)) + bar()
}

pub open spec fn footer_left(love: i64, replies: i64, reactions: i64) -> Seq<char> {
    "  "@ + (if love > 0 {
        LOVE_MARK@ + int_text(love as int)
    } else {
        Seq::empty()
    }) + (if replies > 0 {
        REPLY_MARK@ + int_text(replies as int)
    } else {
        Seq::empty()
    }) + (if reactions > 0 {
        REACTION_MARK@ + int_text(reactions as int)
    } else {
        Seq::empty()
    })
}

/// The visible width of the footer's left part (markup excluded).
pub open spec fn footer_left_width(love: i64, replies: i64, reactions: i64) -> int {
    2int + (if love > 0 {
        2 + int_text(love as int).len() as int
    } else {
        0int
    }) + (if replies > 0 {
        4 + int_text(replies as int).len() as int
    } else {
        0int
    }) + (if reactions > 0 {
        4 + int_text(reactions as int).len() as int
    } else {
        0int
    })
}

pub open spec fn card_footer(love: i64, replies: i64, reactions: i64, position: Seq<char>) -> Seq<char> {
    bar() + footer_left(love, replies, reactions) + repeat(
        ' ',
        sat_sub(46, footer_left_width(love, replies, reactions) + byte_len(position) + 2),
    ) + SPAN_BORDER@ + position + "  "@ + SPAN_CLOSE@ + bar()
}

pub open spec fn card_bottom() -> Seq<char> {
    SPAN_BORDER@ + "╰"@ + repeat('─', 23) + "┬"@ + repeat('─', 22) + "╯"@ + SPAN_CLOSE@
}

/// The face of the figure holding the card: calmer for short confessions.
pub open spec fn card_face(text: Seq<char>) -> Seq<char> {
    let n = byte_len(text);
    if n < 70 {
        "\\(^_^)/"@
    } else if n < 150 {
        "\\(o_o)/"@
    } else if n < 220 {
        "\\(>_<)/"@
    } else {
        "\\(x_x)/"@
    }
}

/// The lines of the card, from its top border to the figure's feet.
pub open spec fn card_lines(
    text: Seq<char>,
    age: Seq<char>,
    love: i64,
    replies: i64,
    reactions: i64,
    position: Seq<char>,
) -> Seq<Seq<char>> {
    seq![card_top(), card_age_line(age), card_rule(), card_blank()] + wrap_lines(text, 42).map_values(
        |l: Seq<char>| card_text_line(l),
    ) + seq![
        card_blank(),
        card_rule(),
        card_footer(love, replies, reactions, position),
        card_bottom(),
        SPAN_BORDER@ + repeat(' ', 24) + "│"@ + SPAN_CLOSE@,
        SPAN_BORDER@ + repeat(' ', 21) + card_face(text) + SPAN_CLOSE@,
        SPAN_BORDER@ + repeat(' ', 24) + "│"@ + SPAN_CLOSE@,
        SPAN_BORDER@ + repeat(' ', 23) + "/ \\"@ + SPAN_CLOSE@,
    ]
}

fn bar_string(out: &mut String)
    ensures
        final(out)@ == old(out)@ + bar(),
{
    push_str(out, SPAN_BORDER);
    push_str(out, "│");
    push_str(out, SPAN_CLOSE);
    assert(final(out)@ =~= old(out)@ + bar());
}

fn decimal_width(v: i64) -> (n: usize)
    ensures
        n == int_text(v as int).len(),
        n <= 20,
{
    proof {
        crate::text::lemma_int_text_len(v);
    }
    let s = int_to_string(v);
    chars_of(s.as_str()).len()
}

fn top_line() -> (r: String)
    ensures
        r@ == card_top(),
{
    let mut top = String::new();
    push_str(&mut top, SPAN_BORDER);
    push_str(&mut top, "╭");
    push_repeat(&mut top, '─', CARD_INNER);
    push_str(&mut top, "╮");
    push_str(&mut top, SPAN_CLOSE);
    assert(top@ =~= card_top());
    top
}

fn age_line(age: &str) -> (r: String)
    ensures
        r@ == card_age_line(age@),
{
    let mut line = String::new();
    bar_string(&mut line);
    push_str(&mut line, "  ");
    push_str(&mut line, CARD_DOTS);
    let dots_pad = pad_for(age, 9, CARD_INNER);
    push_repeat(&mut line, ' ', dots_pad);
    push_str(&mut line, SPAN_BORDER);
    let mut age_display = String::new();
    push_str(&mut age_display, " ");
    push_str(&mut age_display, age);
    push_str(&mut age_display, " ");
    push_escaped(&mut line, age_display.as_str());
    push_str(&mut line, SPAN_CLOSE);
    bar_string(&mut line);
    assert(age_display@ =~= " "@ + age@ + " "@);
    assert(line@ =~= card_age_line(age@));
    line
}

fn rule_line() -> (r: String)
    ensures
        r@ == card_rule(),
{
    let mut rule = String::new();
    push_str(&mut rule, SPAN_BORDER);
    push_str(&mut rule, "│");
    push_repeat(&mut rule, '─', CARD_INNER);
    push_str(&mut rule, "│");
    push_str(&mut rule, SPAN_CLOSE);
    assert(rule@ =~= card_rule());
    rule
}

fn blank_line() -> (r: String)
    ensures
        r@ == card_blank(),
{
    let mut blank = String::new();
    bar_string(&mut blank);
    push_repeat(&mut blank, ' ', CARD_INNER);
    bar_string(&mut blank);
    assert(blank@ =~= card_blank());
    blank
}

fn text_line(line: &str) -> (r: String)
    requires
        byte_len(line@) <= 42,
    ensures
        r@ == card_text_line(line@),
{
    let dcols = chars_of(line).len();
    proof {
        if line@.len() > 0 {
            crate::text::lemma_byte_len_pos(line@);
        }
    }
    let right_pad = if dcols + 2 < CARD_INNER {
        CARD_INNER - (dcols + 2)
    } else {
        0
    };
    let mut tl = String::new();
    bar_string(&mut tl);
    push_str(&mut tl, "  ");
    push_escaped(&mut tl, line);
    push_repeat(&mut tl, ' ', right_pad);
    bar_string(&mut tl);
    assert(tl@ =~= card_text_line(line@));
    tl
}

fn footer_left_part(love: i64, replies: i64, reactions: i64) -> (r: (String, usize))
    ensures
        r.0@ == footer_left(love, replies, reactions),
        r.1 == footer_left_width(love, replies, reactions),
        r.1 <= 2 + 22 + 24 + 24,
{
    let mut part = String::new();
    push_str(&mut part, "  ");
    let ghost p0 = part@;
    let mut left_width: usize = 2;
    if love > 0 {
        push_str(&mut part, LOVE_MARK);
        push_int(&mut part, love);
        left_width = left_width + 2 + decimal_width(love);
    }
    let ghost p1 = part@;
    assert(p1 =~= p0 + (if love > 0 {
        LOVE_MARK@ + int_text(love as int)
    } else {
        Seq::empty()
    }));
    if replies > 0 {
        push_str(&mut part, REPLY_MARK);
        push_int(&mut part, replies);
        left_width = left_width + 4 + decimal_width(replies);
    }
    let ghost p2 = part@;
    assert(p2 =~= p1 + (if replies > 0 {
        REPLY_MARK@ + int_text(replies as int)
    } else {
        Seq::empty()
    }));
    if reactions > 0 {
        push_str(&mut part, REACTION_MARK);
        push_int(&mut part, reactions);
        left_width = left_width + 4 + decimal_width(reactions);
    }
    assert(part@ =~= p2 + (if reactions > 0 {
        REACTION_MARK@ + int_text(reactions as int)
    } else {
        Seq::empty()
    }));
    assert(part@ =~= footer_left(love, replies, reactions));
    (part, left_width)
}

fn footer_line(love: i64, replies: i64, reactions: i64, position: &str) -> (r: String)
    ensures
        r@ == card_footer(love, replies, reactions, position@),
{
    let (left, left_width) = footer_left_part(love, replies, reactions);
    let mut footer = String::new();
    bar_string(&mut footer);
    push_str(&mut footer, left.as_str());
    let footer_pad = if left_width + 2 <= CARD_INNER {
        pad_for(position, left_width + 2, CARD_INNER)
    } else {
        0
    };
    push_repeat(&mut footer, ' ', footer_pad);
    push_str(&mut footer, SPAN_BORDER);
    push_str(&mut footer, position);
    push_str(&mut footer, "  ");
    push_str(&mut footer, SPAN_CLOSE);
    bar_string(&mut footer);
    assert(footer@ =~= card_footer(love, replies, reactions, position@));
    footer
}

fn bottom_line() -> (r: String)
    ensures
        r@ == card_bottom(),
{
    let mut bottom = String::new();
    push_str(&mut bottom, SPAN_BORDER);
    push_str(&mut bottom, "╰");
    push_repeat(&mut bottom, '─', 23);
    push_str(&mut bottom, "┬");
    push_repeat(&mut bottom, '─', 22);
    push_str(&mut bottom, "╯");
    push_str(&mut bottom, SPAN_CLOSE);
    assert(bottom@ =~= card_bottom());
    bottom
}

fn figure_line(indent: usize, body: &str) -> (r: String)
    ensures
        r@ == SPAN_BORDER@ + repeat(' ', indent as nat) + body@ + SPAN_CLOSE@,
{
    let mut m = String::new();
    push_str(&mut m, SPAN_BORDER);
    push_repeat(&mut m, ' ', indent);
    push_str(&mut m, body);
    push_str(&mut m, SPAN_CLOSE);
    assert(m@ =~= SPAN_BORDER@ + repeat(' ', indent as nat) + body@ + SPAN_CLOSE@);
    m
}

fn face_of(text: &str) -> (f: &'static str)
    ensures
        f@ == card_face(text@),
{
    let text_chars = chars_of(text);
    match byte_len_upto(&text_chars, 219) {
        Some(n) => if n < 70 {
            "\\(^_^)/"
        } else if n < 150 {
            "\\(o_o)/"
        } else {
            "\\(>_<)/"
        },
        None => "\\(x_x)/",
    }
}

/// The card of a confession as HTML-coloured text, lines joined by newlines.
pub fn build_ascii_card(
    text: &str,
    age: &str,
    love: i64,
    replies: i64,
    reactions: i64,
    position: &str,
) -> (r: String)
    requires
        wrappable(text@, 42),
    ensures
        r@ == join_lines(card_lines(text@, age@, love, replies, reactions, position@)),
{
    let wrapped = wrap_text(text, CARD_INNER - 4);
    let ghost wl = wrap_lines(text@, 42);
    let mut lines: Vec<String> = Vec::new();
    lines.push(top_line());
    lines.push(age_line(age));
    lines.push(rule_line());
    lines.push(blank_line());
    let ghost head = seq![card_top(), card_age_line(age@), card_rule(), card_blank()];
    assert(string_views(lines@) =~= head);
    let mut i: usize = 0;
    while i < wrapped.len()
        invariant
            i <= wrapped.len(),
            string_views(wrapped@) == wl,
            wl == wrap_lines(text@, 42),
            crate::confession::lines_fit(wl, 42),
            string_views(lines@) == head + wl.take(i as int).map_values(|l: Seq<char>| card_text_line(l)),
        decreases wrapped.len() - i,
    {
        assert(wrapped@[i as int]@ == wl[i as int]);
        let tl = text_line(wrapped[i].as_str());
        let ghost before = lines@;
        lines.push(tl);
        assert(string_views(lines@) =~= string_views(before).push(tl@));
        assert(wl.take(i + 1).map_values(|l: Seq<char>| card_text_line(l)) =~= wl.take(i as int).map_values(
            |l: Seq<char>| card_text_line(l),
        ).push(card_text_line(wl[i as int])));
        i += 1;
    }
    assert(wl.take(wrapped.len() as int) =~= wl);
    lines.push(blank_line());
    lines.push(rule_line());
    lines.push(footer_line(love, replies, reactions, position));
    lines.push(bottom_line());
    lines.push(figure_line(24, "│"));
    lines.push(figure_line(21, face_of(text)));
    lines.push(figure_line(24, "│"));
    lines.push(figure_line(23, "/ \\"));
    assert(string_views(lines@) =~= card_lines(text@, age@, love, replies, reactions, position@));
    join_strings(&lines)
}

/* The replies under a confession page. */

pub const REPLIES_HEAD: &'static str = "<div class=\"replies\"><div class=\"replies-head\">↩ ";

pub const REPLY_OPEN: &'static str = "<div class=\"reply\"><div class=\"reply-head\"><span class=\"reply-name\">";

pub const REPLY_TIME: &'static str = "</span><span class=\"reply-time\">· ";

pub const REPLY_TEXT: &'static str = "</span></div><div class=\"reply-text\">";

pub const REPLY_CLOSE: &'static str = "</div></div>";

/// The HTML of the first `n` replies, each with its age.
pub open spec fn reply_items(rs: Seq<Reply>, ages: Seq<Seq<char>>, n: nat) -> Seq<char>
    decreases n,
{
    if n == 0 {
        Seq::empty()
    } else {
        let k = n - 1;
        reply_items(rs, ages, (n - 1) as nat) + REPLY_OPEN@ + escaped(rs[k].name@) + REPLY_TIME@
            + escaped(ages[k]) + REPLY_TEXT@ + escaped(rs[k].text@) + REPLY_CLOSE@
    }
}

/// The replies block: empty without replies, else a heading with the count and one
/// entry per reply.
pub open spec fn replies_html(rs: Seq<Reply>, ages: Seq<Seq<char>>) -> Seq<char> {
    if rs.len() == 0 {
        Seq::empty()
    } else {
        REPLIES_HEAD@ + digits(rs.len()) + " "@ + (if rs.len() == 1 {
            "reply"@
        } else {
            "replies"@
        }) + "</div>"@ + reply_items(rs, ages, rs.len()) + "</div>"@
    }
}

/// Renders the replies of a confession; `ages[i]` is how long ago reply `i` was posted.
pub fn build_replies_html(replies: &[Reply], ages: &[String]) -> (r: String)
    requires
        ages@.len() == replies@.len(),
    ensures
        r@ == replies_html(replies@, string_views(ages@)),
{
    if replies.len() == 0 {
        return String::new();
    }
    let ghost av = string_views(ages@);
    let mut out = String::new();
    push_str(&mut out, REPLIES_HEAD);
    push_digits(&mut out, replies.len() as u64);
    push_str(&mut out, " ");
    if replies.len() == 1 {
        push_str(&mut out, "reply");
    } else {
        push_str(&mut out, "replies");
    }
    push_str(&mut out, "</div>");
    let ghost head = out@;
    let mut i: usize = 0;
    while i < replies.len()
        invariant
            i <= replies.len(),
            ages@.len() == replies@.len(),
            av == string_views(ages@),
            out@ == head + reply_items(replies@, av, i as nat),
        decreases replies.len() - i,
    {
        let ghost before = out@;
        push_str(&mut out, REPLY_OPEN);
        push_escaped(&mut out, replies[i].name.as_str());
        push_str(&mut out, REPLY_TIME);
        push_escaped(&mut out, ages[i].as_str());
        push_str(&mut out, REPLY_TEXT);
        push_escaped(&mut out, replies[i].text.as_str());
        push_str(&mut out, REPLY_CLOSE);
        assert(av[i as int] == ages@[i as int]@);
        assert(out@ =~= head + reply_items(replies@, av, (i + 1) as nat));
        i += 1;
    }
    push_str(&mut out, "</div>");
    assert(out@ =~= replies_html(replies@, av));
    out
}

/* The page of one confession. */

/// At most the first 160 characters of `text`.
pub open spec fn preview(text: Seq<char>) -> Seq<char> {
    if text.len() <= 160 {
        text
    } else {
        text.take(160)
    }
}

/// The description shown in link previews.
pub open spec fn page_description(text: Seq<char>, reactions: i64, reply_count: i64) -> Seq<char> {
    preview(text) + " | "@ + int_text(reactions as int) + " reactions, "@ + int_text(
        reply_count as int,
    ) + " replies"@
}

pub open spec fn confession_page_text(
    id: i64,
    text: Seq<char>,
    age: Seq<char>,
    love: i64,
    reactions: i64,
    rs: Seq<Reply>,
    ages: Seq<Seq<char>>,
    total: i64,
) -> Seq<char> {
    let reply_count = rs.len() as i64;
    let desc = escaped(page_description(text, reactions, reply_count));
    let position = int_text(id as int) + "/"@ + int_text(total as int);
    let card = join_lines(card_lines(text, age, love, reply_count, reactions, position));
    let id_text = int_text(id as int);
    PAGE_0@ + id_text + PAGE_1@ + id_text + PAGE_2@ + desc + PAGE_3@ + id_text + PAGE_4@ + id_text
        + PAGE_5@ + desc + PAGE_6@ + card + PAGE_7@ + replies_html(rs, ages) + PAGE_8@ + id_text
        + PAGE_9@ + id_text + PAGE_10@
}

/// Renders the page of confession `id` (`total` confessions in all), with its age,
/// loves, reactions and replies; `reply_ages[i]` is how long ago reply `i` was posted.
pub fn confession_page(
    id: i64,
    text: &str,
    age: &str,
    love: i64,
    reactions: i64,
    replies: &[Reply],
    reply_ages: &[String],
    total: i64,
) -> (r: String)
    requires
        wrappable(text@, 42),
        reply_ages@.len() == replies@.len(),
    ensures
        r@ == confession_page_text(id, text@, age@, love, reactions, replies@, string_views(reply_ages@), total),
{
    let reply_count = replies.len() as i64;
    let cs = chars_of(text);
    let mut desc_raw = String::new();
    let mut k: usize = 0;
    while k < cs.len() && k < 160
        invariant
            k <= cs.len(),
            k <= 160,
            cs@ == text@,
            desc_raw@ == text@.take(k as int),
        decreases cs.len() - k,
    {
        push_char(&mut desc_raw, cs[k]);
        assert(text@.take(k + 1) =~= text@.take(k as int).push(cs@[k as int]));
        k += 1;
    }
    assert(desc_raw@ =~= preview(text@));
    push_str(&mut desc_raw, " | ");
    push_int(&mut desc_raw, reactions);
    push_str(&mut desc_raw, " reactions, ");
    push_int(&mut desc_raw, reply_count);
    push_str(&mut desc_raw, " replies");
    assert(desc_raw@ =~= page_description(text@, reactions, reply_count));
    let desc = html_escape(desc_raw.as_str());
    let mut position = String::new();
    push_int(&mut position, id);
    push_str(&mut position, "/");
    push_int(&mut position, total);
    let card = build_ascii_card(text, age, love, reply_count, reactions, position.as_str());
    let rh = build_replies_html(replies, reply_ages);
    let id_text = int_to_string(id);
    let mut r = String::new();
    push_str(&mut r, PAGE_0);
    push_str(&mut r, id_text.as_str());
    push_str(&mut r, PAGE_1);
    push_str(&mut r, id_text.as_str());
    push_str(&mut r, PAGE_2);
    push_str(&mut r, desc.as_str());
    push_str(&mut r, PAGE_3);
    push_str(&mut r, id_text.as_str());
    push_str(&mut r, PAGE_4);
    push_str(&mut r, id_text.as_str());
    push_str(&mut r, PAGE_5);
    push_str(&mut r, desc.as_str());
    push_str(&mut r, PAGE_6);
    push_str(&mut r, card.as_str());
    push_str(&mut r, PAGE_7);
    push_str(&mut r, rh.as_str());
    push_str(&mut r, PAGE_8);
    push_str(&mut r, id_text.as_str());
    push_str(&mut r, PAGE_9);
    push_str(&mut r, id_text.as_str());
    push_str(&mut r, PAGE_10);
    assert(position@ =~= int_text(id as int) + "/"@ + int_text(total as int));
    assert(r@ =~= confession_page_text(id, text@, age@, love, reactions, replies@, string_views(reply_ages@), total));
    r
}

} // verus!
