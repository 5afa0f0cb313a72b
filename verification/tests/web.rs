use eipi::confession::wrap_text;
use eipi::reply::Reply;
use eipi::web::{build_ascii_card, build_replies_html, confession_page, html_escape, landing_page};

fn esc(s: &str) -> String {
    s.replace('&', "&amp;").replace('<', "&lt;").replace('>', "&gt;").replace('"', "&quot;")
}

/// The card as the page draws it, built step by step from its description.
fn expected_card(
    text: &str,
    age: &str,
    love: i64,
    replies: i64,
    reactions: i64,
    position: &str,
) -> String {
    let iw: usize = 46;
    let b = "#9893a5";
    let mut lines: Vec<String> = Vec::new();
    lines.push(format!("<span style=\"color:{}\">╭{}╮</span>", b, "─".repeat(iw)));
    let age_display = format!(" {} ", age);
    let dots = "<span style=\"color:#b4637a\">●</span> <span style=\"color:#ea9d34\">●</span> <span style=\"color:#56949f\">●</span>";
    let dots_pad = iw.saturating_sub(7 + age_display.len());
    lines.push(format!(
        "<span style=\"color:{b}\">│</span>  {}{}<span style=\"color:{b}\">{}</span><span style=\"color:{b}\">│</span>",
        dots,
        " ".repeat(dots_pad),
        esc(&age_display),
        b = b
    ));
    lines.push(format!("<span style=\"color:{}\">│{}│</span>", b, "─".repeat(iw)));
    let blank = format!(
        "<span style=\"color:{b}\">│</span>{}<span style=\"color:{b}\">│</span>",
        " ".repeat(iw),
        b = b
    );
    lines.push(blank.clone());
    for line in wrap_text(text, iw - 4) {
        let pad = iw.saturating_sub(line.chars().count() + 2);
        lines.push(format!(
            "<span style=\"color:{b}\">│</span>  {}{}<span style=\"color:{b}\">│</span>",
            esc(&line),
            " ".repeat(pad),
            b = b
        ));
    }
    lines.push(blank);
    lines.push(format!("<span style=\"color:{}\">│{}│</span>", b, "─".repeat(iw)));
    let mut left = String::from("  ");
    let mut left_len: usize = 2;
    if love > 0 {
        left.push_str(&format!("<span style=\"color:#b4637a\">♥</span> {}", love));
        left_len += 2 + love.to_string().len();
    }
    if replies > 0 {
        left.push_str(&format!("  <span style=\"color:#56949f\">↩</span> {}", replies));
        left_len += 4 + replies.to_string().len();
    }
    if reactions > 0 {
        left.push_str(&format!("  <span style=\"color:#ea9d34\">✦</span> {}", reactions));
        left_len += 4 + reactions.to_string().len();
    }
    let pos_part = format!("{}  ", position);
    let footer_pad = iw.saturating_sub(left_len + pos_part.len());
    lines.push(format!(
        "<span style=\"color:{b}\">│</span>{}{}<span style=\"color:{b}\">{}</span><span style=\"color:{b}\">│</span>",
        left,
        " ".repeat(footer_pad),
        pos_part,
        b = b
    ));
    let mid = iw / 2;
    lines.push(format!(
        "<span style=\"color:{}\">╰{}┬{}╯</span>",
        b,
        "─".repeat(mid),
        "─".repeat(iw - mid - 1)
    ));
    let center = mid + 1;
    let n = text.len();
    let face = if n < 70 {
        "\\(^_^)/"
    } else if n < 150 {
        "\\(o_o)/"
    } else if n < 220 {
        "\\(>_<)/"
    } else {
        "\\(x_x)/"
    };
    lines.push(format!("<span style=\"color:{}\">{}│</span>", b, " ".repeat(center)));
    lines.push(format!("<span style=\"color:{}\">{}{}</span>", b, " ".repeat(center - 3), face));
    lines.push(format!("<span style=\"color:{}\">{}│</span>", b, " ".repeat(center)));
    lines.push(format!("<span style=\"color:{}\">{}/ \\</span>", b, " ".repeat(center - 1)));
    lines.join("\n")
}

#[test]
fn escape_replaces_the_four_special_characters() {
    assert_eq!(html_escape("<a href=\"x\">&</a>"), "&lt;a href=&quot;x&quot;&gt;&amp;&lt;/a&gt;");
    assert_eq!(html_escape("it's fine"), "it's fine");
    assert_eq!(html_escape("&lt;"), "&amp;lt;");
    assert_eq!(html_escape(""), "");
}

#[test]
fn landing_page_shows_the_numbers() {
    let page = landing_page(12, 5, 30, 7, 3);
    assert!(page.starts_with("<!DOCTYPE html>"));
    assert!(page.ends_with("</html>"));
    assert!(page.contains("<meta property=\"og:description\" content=\"12 confessions from 5 strangers over ssh\">"));
    assert!(page.contains("<span class=\"stat-num\">12</span>\n        <span class=\"stat-label\">confessions</span>"));
    assert!(page.contains("<span class=\"stat-num\">5</span>\n        <span class=\"stat-label\">humans</span>"));
    assert!(page.contains("<span class=\"stat-num\">30</span>\n        <span class=\"stat-label\">replies</span>"));
    assert!(page.contains("<span class=\"stat-num\">7</span>\n        <span class=\"stat-label\">reactions</span>"));
    assert!(page.contains("<span class=\"dot\"></span>3 online now</p>"));
    assert!(page.contains("* { margin: 0; padding: 0; box-sizing: border-box; }"));
}

#[test]
fn landing_page_negative_counts() {
    let page = landing_page(-1, 0, 0, 0, 0);
    assert!(page.contains("content=\"-1 confessions from 0 strangers over ssh\""));
}

#[test]
fn ascii_card_short_text() {
    let got = build_ascii_card("hello <world>", "2h ago", 3, 1, 0, "7/9");
    assert_eq!(got, expected_card("hello <world>", "2h ago", 3, 1, 0, "7/9"));
    assert_eq!(got.lines().count(), 13);
}

#[test]
fn ascii_card_long_text_and_all_counters() {
    let text = "this is a somewhat longer confession that will need more than one line of the card to fit in, and then some more words to pass one hundred fifty bytes in all";
    assert!(text.len() >= 150 && text.len() < 220);
    let got = build_ascii_card(text, "just now", 12, 345, 6789, "123/456");
    assert_eq!(got, expected_card(text, "just now", 12, 345, 6789, "123/456"));
    assert!(got.contains("\\(>_<)/"));
}

#[test]
fn ascii_card_faces_by_length() {
    let t70 = "a".repeat(70);
    assert!(build_ascii_card(&t70, "", 0, 0, 0, "1/1").contains("\\(o_o)/"));
    let t69 = "a".repeat(69);
    assert!(build_ascii_card(&t69, "", 0, 0, 0, "1/1").contains("\\(^_^)/"));
    let t220 = "a".repeat(220);
    assert_eq!(
        build_ascii_card(&t220, "", 0, 0, 0, "1/1"),
        expected_card(&t220, "", 0, 0, 0, "1/1")
    );
}

#[test]
fn replies_html_lists_each_reply() {
    let replies = vec![
        Reply { text: "hi <3".to_string(), name: "ann".to_string(), replied_at: "t".to_string() },
        Reply { text: "same".to_string(), name: "b&b".to_string(), replied_at: "t".to_string() },
    ];
    let ages = vec!["2h ago".to_string(), "1d ago".to_string()];
    assert_eq!(
        build_replies_html(&replies, &ages),
        "<div class=\"replies\"><div class=\"replies-head\">↩ 2 replies</div>\
<div class=\"reply\"><div class=\"reply-head\"><span class=\"reply-name\">ann</span><span class=\"reply-time\">· 2h ago</span></div><div class=\"reply-text\">hi &lt;3</div></div>\
<div class=\"reply\"><div class=\"reply-head\"><span class=\"reply-name\">b&amp;b</span><span class=\"reply-time\">· 1d ago</span></div><div class=\"reply-text\">same</div></div>\
</div>"
    );
}

#[test]
fn replies_html_single_and_none() {
    let one = vec![Reply { text: "x".to_string(), name: "n".to_string(), replied_at: "t".to_string() }];
    let ages = vec!["now".to_string()];
    assert!(build_replies_html(&one, &ages).starts_with("<div class=\"replies\"><div class=\"replies-head\">↩ 1 reply</div>"));
    assert_eq!(build_replies_html(&[], &[]), "");
}

#[test]
fn confession_page_fills_in_the_confession() {
    let replies = vec![Reply { text: "yes".to_string(), name: "z".to_string(), replied_at: "t".to_string() }];
    let ages = vec!["5m ago".to_string()];
    let page = confession_page(7, "hello <world>", "2h ago", 3, 4, &replies, &ages, 9);
    assert!(page.contains("<title>confession #7 | eipi.boo</title>"));
    assert!(page.contains("<meta property=\"og:title\" content=\"confession #7 | eipi.boo\">"));
    assert!(page.contains("<meta property=\"og:description\" content=\"hello &lt;world&gt; | 4 reactions, 1 replies\">"));
    assert!(page.contains("<meta property=\"og:url\" content=\"https://eipi.boo/c/7\">"));
    assert!(page.contains("<meta name=\"twitter:description\" content=\"hello &lt;world&gt; | 4 reactions, 1 replies\">"));
    let card = expected_card("hello <world>", "2h ago", 3, 1, 4, "7/9");
    assert!(page.contains(&format!("<pre class=\"ascii\" id=\"card\">{}</pre>", card)));
    assert!(page.contains(&build_replies_html(&replies, &ages)));
    assert!(page.contains("const pageUrl = 'https://eipi.boo/c/7';"));
    assert!(page.contains("link.download = 'confession-7.png';"));
}

#[test]
fn confession_page_description_keeps_160_chars() {
    let text = "é".repeat(200);
    let page = confession_page(1, &text, "", 0, 0, &[], &[], 1);
    let desc = format!("content=\"{} | 0 reactions, 0 replies\"", "é".repeat(160));
    assert!(page.contains(&desc));
}

#[test]
fn ascii_card_escapes_age_and_counts_its_bytes() {
    let got = build_ascii_card("café & crème <b>", "<1m ó", 0, 2, 5, "3/3");
    assert_eq!(got, expected_card("café & crème <b>", "<1m ó", 0, 2, 5, "3/3"));
    assert!(got.contains("&lt;1m ó"));
    assert!(got.contains("café &amp; crème &lt;b&gt;"));
}

#[test]
fn unescaping_gives_the_text_back() {
    for s in ["a < b && c > \"d\"", "&amp; already", "", "plain", "&lt;&gt;&quot;&amp;"] {
        let e = html_escape(s);
        assert!(!e.contains('<') && !e.contains('>') && !e.contains('"'));
        let back = e.replace("&quot;", "\"").replace("&gt;", ">").replace("&lt;", "<").replace("&amp;", "&");
        assert_eq!(back, s);
    }
}
