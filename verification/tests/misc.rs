use eipi::blocked_items::blocked_words;
use eipi::fingerprint::{hashed_fingerprint, push_lower_hex};
use eipi::glow::{glow_cells, glow_density, glows, glows_brightly, sparkle_for, sparkle_hash};
use eipi::statusline::{hint_segments, KeybindHint};
use eipi::text::{int_to_string, str_contains, trim_string};

#[test]
fn sparkle_hash_values() {
    assert_eq!(sparkle_hash(0, 0), 0);
    assert_eq!(sparkle_hash(1, 0), 477523045382779350);
    assert_eq!(sparkle_hash(0, 1), 851520598256690213);
    assert_eq!(sparkle_hash(3, -2), 628486128827240649);
    assert_eq!(sparkle_hash(-5, 7), 3573181287725978232);
}

#[test]
fn sparkles_fall_on_hash_multiples() {
    assert_eq!(sparkle_for(0, 0, 5), Some('✦'));
    assert_eq!(sparkle_for(1, 0, 3), Some('✧'));
    assert_eq!(sparkle_for(0, 1, 3), None);
    assert_eq!(sparkle_for(3, -2, 7), Some('*'));
    assert_eq!(sparkle_for(-5, 7, 2), Some('*'));
    assert_eq!(sparkle_for(1, 0, 7), None);
    assert_eq!(sparkle_for(1, 0, 5), Some('✧'));
}

#[test]
fn hint_segments_pad_each_hint() {
    let hints = [
        KeybindHint { key: "q", label: "quit" },
        KeybindHint { key: "h/j/k/l", label: "move" },
    ];
    assert_eq!(hint_segments(&hints), vec!["q quit   ".to_string(), "h/j/k/l move   ".to_string()]);
    assert_eq!(hint_segments(&[]), Vec::<String>::new());
}

#[test]
fn fingerprint_is_hex_sha256() {
    assert_eq!(
        hashed_fingerprint(b"abc"),
        "ba7816bf8f01cfea414140de5dae2223b00361a396177a9cb410ff61f20015ad"
    );
    assert_eq!(
        hashed_fingerprint(b""),
        "e3b0c44298fc1c149afbf4c8996fb92427ae41e4649b934ca495991b7852b855"
    );
    assert_eq!(hashed_fingerprint(&[7u8; 32]).len(), 64);
}

#[test]
fn lower_hex_pads_each_byte() {
    let mut s = String::from("x");
    push_lower_hex(&mut s, &[0x00, 0x0f, 0xa0, 0xff]);
    assert_eq!(s, "x000fa0ff");
}

#[test]
fn blocked_list() {
    assert_eq!(blocked_words(), vec!["kill yourself", "kys", "go die"]);
}

#[test]
fn text_helpers() {
    assert_eq!(int_to_string(0), "0");
    assert_eq!(int_to_string(-42), "-42");
    assert_eq!(int_to_string(i64::MIN), "-9223372036854775808");
    assert_eq!(int_to_string(i64::MAX), "9223372036854775807");
    assert_eq!(trim_string("\t hi there \n"), "hi there");
    assert_eq!(trim_string("   "), "");
    assert!(str_contains("hello", "ll"));
    assert!(str_contains("hello", ""));
    assert!(!str_contains("hello", "lo!"));
}

#[test]
fn density_zero_only_hits_hash_zero() {
    assert_eq!(sparkle_for(0, 0, 0), Some('✦'));
    assert_eq!(sparkle_for(1, 0, 0), None);
}

#[test]
fn glow_thresholds() {
    assert!(!glows(2));
    assert!(glows(3));
    assert!(!glows_brightly(9));
    assert!(glows_brightly(10));
    assert_eq!(glow_density(3), 5);
    assert_eq!(glow_density(10), 3);
}

/// The glow cells of a ring, computed cell by cell from the sparkle rule.
fn expected_glow(votes: i64, rect: (u16, u16, u16, u16), clip: (u16, u16, u16, u16)) -> Vec<(u16, u16, char, u8)> {
    let density = glow_density(votes);
    let mut out = Vec::new();
    for ring in 1..=2i64 {
        for y in 0..=200i64 {
            for x in 0..=200i64 {
                let within = |d: i64| {
                    rect.0 as i64 - d <= x
                        && x <= rect.0 as i64 + rect.2 as i64 - 1 + d
                        && rect.1 as i64 - d <= y
                        && y <= rect.1 as i64 + rect.3 as i64 - 1 + d
                };
                let in_clip = clip.0 as i64 <= x
                    && x < clip.0 as i64 + clip.2 as i64
                    && clip.1 as i64 <= y
                    && y < clip.1 as i64 + clip.3 as i64;
                if within(ring) && !within(ring - 1) && in_clip {
                    if let Some(c) = sparkle_for(x, y, density) {
                        out.push((x as u16, y as u16, c, ring as u8));
                    }
                }
            }
        }
    }
    out
}

#[test]
fn glow_rings_around_a_box() {
    let rect = (10, 5, 42, 3);
    let clip = (0, 0, 80, 24);
    let cells = glow_cells(12, rect, clip);
    assert_eq!(cells, expected_glow(12, rect, clip));
    assert!(!cells.is_empty());
    for &(x, y, _, ring) in &cells {
        let inside = x >= 10 && x < 52 && y >= 5 && y < 8;
        assert!(!inside);
        assert!(ring == 1 || ring == 2);
    }
}

#[test]
fn glow_is_clipped() {
    let rect = (0, 0, 42, 3);
    let clip = (0, 0, 20, 4);
    assert_eq!(glow_cells(3, rect, clip), expected_glow(3, rect, clip));
    assert!(glow_cells(3, rect, clip).iter().all(|&(x, y, _, _)| x < 20 && y < 4));
    assert_eq!(glow_cells(3, rect, (100, 100, 0, 0)), vec![]);
}
