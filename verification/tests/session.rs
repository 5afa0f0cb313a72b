use eipi::confession::Confession;
use eipi::input::{InputMode, KeyEvent};
use eipi::reply::Reply;
use eipi::session::{Effect, Session};

fn conf(id: i64, text: &str, x: i64, y: i64, votes: i64) -> Confession {
    Confession {
        id,
        text: text.to_string(),
        x,
        y,
        votes,
        reply_count: 0,
        author_fingerprint: String::new(),
        created_at: String::new(),
    }
}

fn session() -> Session {
    let mut s = Session::new(
        vec!["rose pine".to_string(), "dracula".to_string(), "nord".to_string()],
        vec!["♥".to_string(), "🔥".to_string(), "😂".to_string(), "😢".to_string(), "🤯".to_string(), "👀".to_string()],
    );
    s.end_splash();
    s
}

fn with_confessions() -> Session {
    let mut s = session();
    s.reload_confessions(vec![
        conf(11, "first one", 0, 0, 3),
        conf(12, "second one", 0, 5, 1),
        conf(13, "far away", 1000, 1000, 0),
    ]);
    s
}

fn key(s: &mut Session, e: KeyEvent) -> Effect {
    assert!(s.can_handle(&e));
    s.handle_event(&e)
}

fn typed(s: &mut Session, text: &str) {
    for c in text.chars() {
        assert_eq!(key(s, KeyEvent::Char(c)), Effect::Nothing);
    }
}

#[test]
fn new_session_starts_on_the_splash() {
    let mut s = Session::new(vec!["default".to_string()], vec!["♥".to_string()]);
    assert_eq!(s.mode, InputMode::Splash);
    assert_eq!((s.width, s.height), (80, 24));
    assert_eq!(key(&mut s, KeyEvent::Char('q')), Effect::Nothing);
    assert_eq!(s.mode, InputMode::Splash);
    s.end_splash();
    assert_eq!(s.mode, InputMode::Browse);
}

#[test]
fn quitting_takes_a_confirmation() {
    let mut s = session();
    assert_eq!(key(&mut s, KeyEvent::Char('q')), Effect::Nothing);
    assert_eq!(s.mode, InputMode::ConfirmQuit);
    assert_eq!(key(&mut s, KeyEvent::Char('x')), Effect::Nothing);
    assert_eq!(s.mode, InputMode::Browse);
    key(&mut s, KeyEvent::Char('q'));
    assert_eq!(key(&mut s, KeyEvent::Enter), Effect::Quit);
    let mut t = session();
    key(&mut t, KeyEvent::Char('q'));
    assert_eq!(key(&mut t, KeyEvent::Char('q')), Effect::Quit);
}

#[test]
fn camera_moves_four_columns_or_two_rows() {
    let mut s = session();
    key(&mut s, KeyEvent::Char('l'));
    key(&mut s, KeyEvent::Right);
    key(&mut s, KeyEvent::Char('j'));
    assert_eq!((s.cam_x, s.cam_y), (8, 2));
    key(&mut s, KeyEvent::Left);
    key(&mut s, KeyEvent::Up);
    key(&mut s, KeyEvent::Char('k'));
    key(&mut s, KeyEvent::Char('h'));
    assert_eq!((s.cam_x, s.cam_y), (0, -2));
}

#[test]
fn camera_at_the_edge_refuses_to_move() {
    let mut s = session();
    s.cam_x = i64::MAX - 1;
    assert!(!s.can_handle(&KeyEvent::Right));
    assert!(s.can_handle(&KeyEvent::Left));
    s.cam_y = i64::MIN + 1;
    assert!(!s.can_handle(&KeyEvent::Up));
    assert!(s.can_handle(&KeyEvent::Down));
}

#[test]
fn reload_announces_new_confessions() {
    let mut s = session();
    s.reload_confessions(vec![conf(1, "a", 0, 0, 0)]);
    assert_eq!(s.message, None);
    assert_eq!(s.last_known_count, 1);
    s.reload_confessions(vec![conf(1, "a", 0, 0, 0), conf(2, "b", 50, 0, 0), conf(3, "c", 100, 0, 0)]);
    assert_eq!(s.message.as_deref(), Some("2 new confessions!"));
    s.reload_confessions(vec![
        conf(1, "a", 0, 0, 0),
        conf(2, "b", 50, 0, 0),
        conf(3, "c", 100, 0, 0),
        conf(4, "d", 150, 0, 0),
    ]);
    assert_eq!(s.message.as_deref(), Some("1 new confession!"));
    assert_eq!(s.last_known_count, 4);
}

#[test]
fn composing_and_posting_a_confession() {
    let mut s = session();
    key(&mut s, KeyEvent::Char('n'));
    assert_eq!(s.mode, InputMode::Compose);
    typed(&mut s, "  hello!");
    key(&mut s, KeyEvent::Backspace);
    typed(&mut s, "  ");
    assert_eq!(s.compose_buf, "  hello  ");
    let e = key(&mut s, KeyEvent::Enter);
    assert_eq!(e, Effect::PostConfession { text: "hello".to_string() });
    assert_eq!(s.mode, InputMode::Browse);
    s.confession_posted(100, 50);
    assert_eq!(s.message.as_deref(), Some("Confession posted!"));
    assert_eq!((s.cam_x, s.cam_y), (60, 38));
    assert_eq!(s.compose_buf, "");
    assert!(s.created_confession);
}

#[test]
fn confession_errors() {
    let mut s = session();
    key(&mut s, KeyEvent::Char('n'));
    typed(&mut s, "   ");
    assert_eq!(key(&mut s, KeyEvent::Enter), Effect::Nothing);
    assert_eq!(s.message.as_deref(), Some("Empty confession"));

    key(&mut s, KeyEvent::Char('n'));
    typed(&mut s, "please go die");
    assert_eq!(key(&mut s, KeyEvent::Enter), Effect::Nothing);
    assert_eq!(s.message.as_deref(), Some("Confession contains blocked words"));

    key(&mut s, KeyEvent::Char('n'));
    typed(&mut s, &"a".repeat(279));
    typed(&mut s, "€");
    typed(&mut s, "zzz");
    assert_eq!(s.compose_buf.len(), 282);
    assert_eq!(key(&mut s, KeyEvent::Enter), Effect::Nothing);
    assert_eq!(s.message.as_deref(), Some("Too long (max 280 chars)"));
}

#[test]
fn typing_stops_at_the_limit() {
    let mut s = session();
    key(&mut s, KeyEvent::Char('n'));
    typed(&mut s, &"b".repeat(300));
    assert_eq!(s.compose_buf.len(), 280);
}

#[test]
fn escape_discards_the_draft() {
    let mut s = session();
    key(&mut s, KeyEvent::Char('n'));
    typed(&mut s, "secret");
    assert_eq!(key(&mut s, KeyEvent::Escape), Effect::Nothing);
    assert_eq!(s.compose_buf, "");
    assert_eq!(s.mode, InputMode::Browse);
}

#[test]
fn outcomes_of_posting() {
    let mut s = session();
    key(&mut s, KeyEvent::Char('n'));
    typed(&mut s, "kept");
    key(&mut s, KeyEvent::Enter);
    s.confession_rate_limited();
    assert_eq!(s.message.as_deref(), Some("Rate limit: 10 confessions per day"));
    assert_eq!(s.compose_buf, "kept");
    s.confession_failed("disk full");
    assert_eq!(s.message.as_deref(), Some("Error: disk full"));
    assert_eq!(s.compose_buf, "");
}

#[test]
fn tab_cycles_through_visible_confessions() {
    let mut s = with_confessions();
    assert_eq!(s.visible_indices(), vec![0, 1]);
    key(&mut s, KeyEvent::Tab);
    assert_eq!(s.selected, Some(0));
    key(&mut s, KeyEvent::Tab);
    assert_eq!(s.selected, Some(1));
    key(&mut s, KeyEvent::Tab);
    assert_eq!(s.selected, Some(0));
    s.selected = Some(2);
    key(&mut s, KeyEvent::Tab);
    assert_eq!(s.selected, Some(0));
}

#[test]
fn tab_on_an_empty_view_clears_the_selection() {
    let mut s = with_confessions();
    s.selected = Some(1);
    s.cam_x = 5000;
    key(&mut s, KeyEvent::Tab);
    assert_eq!(s.selected, None);
}

#[test]
fn card_view_flips_through_all_confessions() {
    let mut s = with_confessions();
    s.selected = Some(1);
    key(&mut s, KeyEvent::Char(' '));
    assert_eq!(s.mode, InputMode::CardView);
    assert_eq!(s.card_index, 1);
    key(&mut s, KeyEvent::Right);
    assert_eq!((s.card_index, s.selected), (2, Some(2)));
    key(&mut s, KeyEvent::Char('l'));
    assert_eq!(s.card_index, 0);
    key(&mut s, KeyEvent::Left);
    assert_eq!(s.card_index, 2);
    key(&mut s, KeyEvent::MouseClick(10, 3));
    assert_eq!(s.card_index, 1);
    key(&mut s, KeyEvent::MouseClick(70, 3));
    assert_eq!(s.card_index, 2);
    key(&mut s, KeyEvent::Escape);
    assert_eq!((s.mode, s.selected), (InputMode::Browse, Some(2)));
}

#[test]
fn space_needs_confessions() {
    let mut s = session();
    key(&mut s, KeyEvent::Char(' '));
    assert_eq!(s.mode, InputMode::Browse);
}

#[test]
fn click_selects_the_box_under_the_pointer() {
    let mut s = with_confessions();
    key(&mut s, KeyEvent::MouseClick(5, 6));
    assert_eq!(s.selected, Some(1));
    key(&mut s, KeyEvent::MouseClick(5, 1));
    assert_eq!(s.selected, Some(0));
    key(&mut s, KeyEvent::MouseClick(79, 20));
    assert_eq!(s.selected, Some(0));
}

#[test]
fn capital_g_jumps_to_the_newest() {
    let mut s = with_confessions();
    key(&mut s, KeyEvent::Char('G'));
    assert_eq!((s.cam_x, s.cam_y, s.selected), (960, 988, Some(2)));
}

#[test]
fn replying_to_a_confession() {
    let mut s = with_confessions();
    s.selected = Some(1);
    assert_eq!(key(&mut s, KeyEvent::Enter), Effect::LoadReplies { confession_id: 12 });
    assert_eq!(s.mode, InputMode::ViewReplies);
    s.show_replies(vec![Reply { text: "hey".to_string(), name: "x".to_string(), replied_at: String::new() }]);
    assert_eq!(s.replies.len(), 1);
    key(&mut s, KeyEvent::Char('r'));
    assert_eq!(s.mode, InputMode::ComposeReply);
    assert!(s.reply_name_phase);
    typed(&mut s, " bob ");
    key(&mut s, KeyEvent::Enter);
    assert!(!s.reply_name_phase);
    typed(&mut s, "nice one");
    let e = key(&mut s, KeyEvent::Enter);
    assert_eq!(
        e,
        Effect::PostReply { confession_id: 12, text: "nice one".to_string(), name: Some("bob".to_string()) }
    );
    assert_eq!(s.mode, InputMode::ViewReplies);
    assert_eq!((s.compose_buf.as_str(), s.reply_name_buf.as_str()), ("", ""));
    s.reply_result(None);
    assert_eq!(s.message.as_deref(), Some("Reply posted!"));
    s.reply_result(Some("locked"));
    assert_eq!(s.message.as_deref(), Some("Error: locked"));
}

#[test]
fn anonymous_reply_and_reply_errors() {
    let mut s = with_confessions();
    s.selected = Some(0);
    key(&mut s, KeyEvent::Enter);
    key(&mut s, KeyEvent::Char('r'));
    key(&mut s, KeyEvent::Enter);
    assert_eq!(key(&mut s, KeyEvent::Enter), Effect::Nothing);
    assert_eq!(s.message.as_deref(), Some("Empty reply"));
    typed(&mut s, "kys");
    assert_eq!(key(&mut s, KeyEvent::Enter), Effect::Nothing);
    assert_eq!(s.message.as_deref(), Some("Reply contains blocked words"));
    key(&mut s, KeyEvent::Backspace);
    key(&mut s, KeyEvent::Backspace);
    key(&mut s, KeyEvent::Backspace);
    typed(&mut s, "ok");
    assert_eq!(
        key(&mut s, KeyEvent::Enter),
        Effect::PostReply { confession_id: 11, text: "ok".to_string(), name: None }
    );
    assert_eq!(key(&mut s, KeyEvent::Escape), Effect::Nothing);
    assert_eq!(s.mode, InputMode::Browse);
    assert_eq!(s.viewing_confession, None);
}

#[test]
fn reply_name_is_limited() {
    let mut s = with_confessions();
    s.selected = Some(0);
    key(&mut s, KeyEvent::Enter);
    key(&mut s, KeyEvent::Char('r'));
    typed(&mut s, &"n".repeat(30));
    assert_eq!(s.reply_name_buf.len(), 20);
    key(&mut s, KeyEvent::Enter);
    typed(&mut s, &"t".repeat(120));
    assert_eq!(s.compose_buf.len(), 100);
}

#[test]
fn enter_without_selection_does_nothing() {
    let mut s = with_confessions();
    assert_eq!(key(&mut s, KeyEvent::Enter), Effect::Nothing);
    assert_eq!(s.mode, InputMode::Browse);
}

#[test]
fn searching_ignores_case() {
    let mut s = with_confessions();
    key(&mut s, KeyEvent::Char('/'));
    assert_eq!(s.mode, InputMode::Search);
    typed(&mut s, "ONE");
    key(&mut s, KeyEvent::Enter);
    assert_eq!(s.mode, InputMode::SearchResults);
    assert_eq!(s.search_results, vec![0, 1]);
    assert_eq!((s.card_index, s.selected), (0, Some(0)));
    key(&mut s, KeyEvent::Right);
    assert_eq!((s.search_index, s.card_index), (1, 1));
    key(&mut s, KeyEvent::Right);
    assert_eq!((s.search_index, s.card_index), (0, 0));
    key(&mut s, KeyEvent::Left);
    assert_eq!(s.card_index, 1);
    key(&mut s, KeyEvent::Char('q'));
    assert_eq!(s.mode, InputMode::Browse);
    assert!(s.search_results.is_empty());
    assert_eq!(s.search_buf, "");
}

#[test]
fn search_without_results() {
    let mut s = with_confessions();
    key(&mut s, KeyEvent::Char('/'));
    typed(&mut s, "zzz");
    key(&mut s, KeyEvent::Enter);
    assert_eq!(s.mode, InputMode::Browse);
    assert_eq!(s.message.as_deref(), Some("No results for \"zzz\""));
    key(&mut s, KeyEvent::Char('/'));
    key(&mut s, KeyEvent::Enter);
    assert_eq!(s.mode, InputMode::Browse);
}

#[test]
fn message_clears_on_the_next_key() {
    let mut s = with_confessions();
    s.confession_failed("x");
    key(&mut s, KeyEvent::Char('s'));
    assert!(s.message.is_some());
    key(&mut s, KeyEvent::Char('j'));
    assert_eq!(s.message, None);
}

#[test]
fn theme_picker_previews_and_saves() {
    let mut s = session();
    key(&mut s, KeyEvent::Char('T'));
    assert_eq!(s.mode, InputMode::ThemePicker);
    key(&mut s, KeyEvent::Up);
    assert_eq!((s.theme_picker_index, s.theme_index), (2, 2));
    key(&mut s, KeyEvent::Down);
    key(&mut s, KeyEvent::Down);
    assert_eq!(key(&mut s, KeyEvent::Enter), Effect::SaveTheme { index: 1 });
    assert_eq!(s.message.as_deref(), Some("theme: dracula"));
    assert_eq!(s.mode, InputMode::Browse);
    s.apply_saved_theme(Some("nord"));
    assert_eq!(s.theme_index, 2);
    s.apply_saved_theme(Some("unknown"));
    assert_eq!(s.theme_index, 2);
    s.apply_saved_theme(None);
    assert_eq!(s.theme_index, 2);
}

#[test]
fn reacting_to_a_confession() {
    let mut s = with_confessions();
    s.selected = Some(1);
    assert_eq!(key(&mut s, KeyEvent::Char('f')), Effect::LoadReaction { confession_id: 12 });
    assert_eq!(s.mode, InputMode::ReactionPicker);
    s.choose_reaction(Some("🔥"));
    assert_eq!(s.reaction_picker_index, 1);
    key(&mut s, KeyEvent::Down);
    assert_eq!(s.reaction_picker_index, 5);
    key(&mut s, KeyEvent::Right);
    assert_eq!(s.reaction_picker_index, 5);
    key(&mut s, KeyEvent::Up);
    assert_eq!(s.reaction_picker_index, 1);
    key(&mut s, KeyEvent::Left);
    key(&mut s, KeyEvent::Left);
    assert_eq!(s.reaction_picker_index, 0);
    key(&mut s, KeyEvent::Right);
    assert_eq!(
        key(&mut s, KeyEvent::Enter),
        Effect::SetReaction { confession_id: 12, index: 1 }
    );
    assert_eq!(s.mode, InputMode::Browse);
    s.reaction_result(1, None);
    assert_eq!(s.message.as_deref(), Some("reacted with 🔥"));
    s.reaction_result(1, Some("busy"));
    assert_eq!(s.message.as_deref(), Some("reaction failed: busy"));
    s.choose_reaction(Some("nope"));
    assert_eq!(s.reaction_picker_index, 0);
}

#[test]
fn sharing_a_link() {
    let mut s = with_confessions();
    assert_eq!(key(&mut s, KeyEvent::Char('s')), Effect::Nothing);
    s.selected = Some(2);
    assert_eq!(key(&mut s, KeyEvent::Char('s')), Effect::ShareLink { confession_id: 13 });
    s.share_link("https://eipi.boo", 13);
    assert_eq!(s.message.as_deref(), Some("https://eipi.boo/c/13"));
}

#[test]
fn help_returns_where_it_came_from() {
    let mut s = with_confessions();
    key(&mut s, KeyEvent::Char(' '));
    key(&mut s, KeyEvent::Char('?'));
    assert_eq!(s.mode, InputMode::Help);
    key(&mut s, KeyEvent::Char('x'));
    assert_eq!(s.mode, InputMode::Help);
    key(&mut s, KeyEvent::Enter);
    assert_eq!(s.mode, InputMode::CardView);
}

#[test]
fn terminal_sizes() {
    let mut s = session();
    s.pty_size(0, 0);
    assert_eq!((s.width, s.height), (80, 24));
    s.pty_size(120, 40);
    assert_eq!((s.width, s.height), (120, 40));
    s.window_resized(65536 + 7, 30);
    assert_eq!((s.width, s.height), (7, 30));
}

#[test]
fn starting_camera_selects_the_first_visible() {
    let mut s = with_confessions();
    s.center_camera();
    assert_eq!((s.cam_x, s.cam_y), (-19, -10));
    assert_eq!(s.selected, Some(0));
}

#[test]
fn daily_limit_is_ten() {
    let mut s = session();
    assert!(s.within_daily_limit(9));
    assert_eq!(s.message, None);
    assert!(!s.within_daily_limit(10));
    assert_eq!(s.message.as_deref(), Some("Rate limit: 10 confessions per day"));
}
