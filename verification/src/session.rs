use vstd::prelude::*;
use crate::canvas::{all_boxes_fit, visible_confessions, visible_list};
use crate::confession::{allowed, box_height, confession_height, is_allowed, Confession, BOX_WIDTH, MAX_LENGTH};
use crate::consts::{CAM_SPEED_X, CAM_SPEED_Y, DAILY_POST_LIMIT, MAX_REPLY_NAME_LENGTH};
use crate::input::{InputMode, KeyEvent};
use crate::reply::{Reply, MAX_LENGTH as REPLY_MAX_LENGTH};
use crate::text::{
    byte_len, contains, digits, int_text, push_digits, lemma_byte_len_take, lowercase, pop_char, push_char, push_int,
    push_str, str_contains, string_from, to_lower, trim, trim_string,
};

verus! {

/// The interface state of one connected viewer.
pub struct Session {
    pub cam_x: i64,
    pub cam_y: i64,
    pub selected: Option<usize>,
    pub mode: InputMode,
    pub compose_buf: String,
    pub reply_name_buf: String,
    pub reply_name_phase: bool,
    pub width: u16,
    pub height: u16,
    pub confessions: Vec<Confession>,
    pub replies: Vec<Reply>,
    pub viewing_confession: Option<usize>,
    pub reply_scroll: usize,
    pub card_index: usize,
    pub came_from_card: bool,
    pub created_confession: bool,
    pub message: Option<String>,
    pub help_return_mode: InputMode,
    pub reaction_return_mode: InputMode,
    pub reaction_picker_index: usize,
    pub last_known_count: usize,
    pub search_buf: String,
    pub search_results: Vec<usize>,
    pub search_index: usize,
    pub splash_frame: u8,
    pub theme_index: usize,
    pub theme_picker_index: usize,
    pub theme_names: Vec<String>,
    pub reaction_tokens: Vec<String>,
}

/// The abstract state of a `Session`: the same fields, with texts as character sequences.
pub ghost struct SessionView {
    pub cam_x: i64,
    pub cam_y: i64,
    pub selected: Option<usize>,
    pub mode: InputMode,
    pub compose_buf: Seq<char>,
    pub reply_name_buf: Seq<char>,
    pub reply_name_phase: bool,
    pub width: u16,
    pub height: u16,
    pub confessions: Seq<Confession>,
    pub replies: Seq<Reply>,
    pub viewing_confession: Option<usize>,
    pub reply_scroll: usize,
    pub card_index: usize,
    pub came_from_card: bool,
    pub created_confession: bool,
    pub message: Option<Seq<char>>,
    pub help_return_mode: InputMode,
    pub reaction_return_mode: InputMode,
    pub reaction_picker_index: usize,
    pub last_known_count: usize,
    pub search_buf: Seq<char>,
    pub search_results: Seq<usize>,
    pub search_index: usize,
    pub splash_frame: u8,
    pub theme_index: usize,
    pub theme_picker_index: usize,
    pub theme_names: Seq<Seq<char>>,
    pub reaction_tokens: Seq<Seq<char>>,
}

pub open spec fn opt_text(m: Option<String>) -> Option<Seq<char>> {
    match m {
        Some(s) => Some(s@),
        None => None,
    }
}

impl View for Session {
    type V = SessionView;

    open spec fn view(&self) -> SessionView {
        SessionView {
            cam_x: self.cam_x,
            cam_y: self.cam_y,
            selected: self.selected,
            mode: self.mode,
            compose_buf: self.compose_buf@,
            reply_name_buf: self.reply_name_buf@,
            reply_name_phase: self.reply_name_phase,
            width: self.width,
            height: self.height,
            confessions: self.confessions@,
            replies: self.replies@,
            viewing_confession: self.viewing_confession,
            reply_scroll: self.reply_scroll,
            card_index: self.card_index,
            came_from_card: self.came_from_card,
            created_confession: self.created_confession,
            message: opt_text(self.message),
            help_return_mode: self.help_return_mode,
            reaction_return_mode: self.reaction_return_mode,
            reaction_picker_index: self.reaction_picker_index,
            last_known_count: self.last_known_count,
            search_buf: self.search_buf@,
            search_results: self.search_results@,
            search_index: self.search_index,
            splash_frame: self.splash_frame,
            theme_index: self.theme_index,
            theme_picker_index: self.theme_picker_index,
            theme_names: self.theme_names@.map_values(|t: String| t@),
            reaction_tokens: self.reaction_tokens@.map_values(|t: String| t@),
        }
    }
}

/// What the caller must do after an event, with the data it needs.
#[derive(Debug, PartialEq, Eq)]
pub enum Effect {
    /// Nothing beyond the state change.
    Nothing,
    /// Close the connection.
    Quit,
    /// Load the replies of this confession and hand them to `show_replies`.
    LoadReplies { confession_id: i64 },
    /// Post this confession (rate limit, position, store), then report with
    /// `confession_rate_limited`, `confession_posted` or `confession_failed`.
    PostConfession { text: String },
    /// Store this reply, then report with `reply_result`.
    PostReply { confession_id: i64, text: String, name: Option<String> },
    /// Look up this viewer's reaction to the confession and hand it to `choose_reaction`.
    LoadReaction { confession_id: i64 },
    /// Store the reaction with this token index, then report with `reaction_result`.
    SetReaction { confession_id: i64, index: usize },
    /// Remember the theme with this index for the viewer.
    SaveTheme { index: usize },
    /// Show the share link of this confession with `share_link`.
    ShareLink { confession_id: i64 },
}

/// The abstract form of an `Effect`.
pub ghost enum EffectView {
    Nothing,
    Quit,
    LoadReplies { confession_id: i64 },
    PostConfession { text: Seq<char> },
    PostReply { confession_id: i64, text: Seq<char>, name: Option<Seq<char>> },
    LoadReaction { confession_id: i64 },
    SetReaction { confession_id: i64, index: usize },
    SaveTheme { index: usize },
    ShareLink { confession_id: i64 },
}

impl View for Effect {
    type V = EffectView;

    open spec fn view(&self) -> EffectView {
        match self {
            Effect::Nothing => EffectView::Nothing,
            Effect::Quit => EffectView::Quit,
            Effect::LoadReplies { confession_id } => EffectView::LoadReplies {
                confession_id: *confession_id,
            },
            Effect::PostConfession { text } => EffectView::PostConfession { text: text@ },
            Effect::PostReply { confession_id, text, name } => EffectView::PostReply {
                confession_id: *confession_id,
                text: text@,
                name: opt_text(*name),
            },
            Effect::LoadReaction { confession_id } => EffectView::LoadReaction {
                confession_id: *confession_id,
            },
            Effect::SetReaction { confession_id, index } => EffectView::SetReaction {
                confession_id: *confession_id,
                index: *index,
            },
            Effect::SaveTheme { index } => EffectView::SaveTheme { index: *index },
            Effect::ShareLink { confession_id } => EffectView::ShareLink {
                confession_id: *confession_id,
            },
        }
    }
}

/// What stays true of a session between events.
pub open spec fn wf(s: SessionView) -> bool {
    &&& s.theme_names.len() > 0
    &&& s.theme_index < s.theme_names.len()
    &&& s.theme_picker_index < s.theme_names.len()
    &&& s.reaction_tokens.len() > 0
    &&& s.reaction_picker_index < s.reaction_tokens.len()
    &&& s.search_results.len() > 0 ==> s.search_index < s.search_results.len()
    &&& byte_len(s.compose_buf) <= MAX_LENGTH + 3
    &&& byte_len(s.reply_name_buf) <= MAX_REPLY_NAME_LENGTH + 3
    &&& all_boxes_fit(s.confessions)
}

impl Session {
    pub open spec fn wf(&self) -> bool {
        wf(self@)
    }
}

/* Small transitions shared by several modes. */

/// Where closing a view or a dialog returns to.
pub open spec fn return_mode(s: SessionView) -> InputMode {
    if s.came_from_card {
        InputMode::CardView
    } else {
        InputMode::Browse
    }
}

pub open spec fn open_compose(s: SessionView, from_card: bool) -> SessionView {
    SessionView { came_from_card: from_card, mode: InputMode::Compose, compose_buf: Seq::empty(), ..s }
}

pub open spec fn open_search(s: SessionView) -> SessionView {
    SessionView { mode: InputMode::Search, search_buf: Seq::empty(), ..s }
}

pub open spec fn open_theme_picker(s: SessionView) -> SessionView {
    SessionView { theme_picker_index: s.theme_index, mode: InputMode::ThemePicker, ..s }
}

pub open spec fn open_help(s: SessionView) -> SessionView {
    SessionView { help_return_mode: s.mode, mode: InputMode::Help, ..s }
}

pub open spec fn open_reply_compose(s: SessionView) -> SessionView {
    SessionView {
        mode: InputMode::ComposeReply,
        compose_buf: Seq::empty(),
        reply_name_buf: Seq::empty(),
        reply_name_phase: true,
        ..s
    }
}

pub open spec fn close_replies(s: SessionView) -> SessionView {
    SessionView {
        mode: return_mode(s),
        came_from_card: false,
        viewing_confession: None,
        replies: Seq::empty(),
        ..s
    }
}

/// The confession the current view is about: the selected one on the canvas, the
/// shown card, or the one whose replies are open (the mode under the reaction picker counts).
pub open spec fn selected_confession_id(s: SessionView) -> Option<i64> {
    let mode = if s.mode == InputMode::ReactionPicker {
        s.reaction_return_mode
    } else {
        s.mode
    };
    match mode {
        InputMode::Browse => match s.selected {
            Some(i) => if i < s.confessions.len() {
                Some(s.confessions[i as int].id)
            } else {
                None
            },
            None => None,
        },
        InputMode::CardView | InputMode::SearchResults => if s.card_index < s.confessions.len() {
            Some(s.confessions[s.card_index as int].id)
        } else {
            None
        },
        InputMode::ViewReplies => match s.viewing_confession {
            Some(i) => if i < s.confessions.len() {
                Some(s.confessions[i as int].id)
            } else {
                None
            },
            None => None,
        },
        _ => None,
    }
}

/// Opening the replies of the selected confession (replies are then loaded by the caller).
pub open spec fn open_replies(s: SessionView) -> (SessionView, EffectView) {
    match s.selected {
        Some(idx) => if idx < s.confessions.len() {
            (
                SessionView {
                    replies: Seq::empty(),
                    viewing_confession: Some(idx),
                    reply_scroll: 0,
                    mode: InputMode::ViewReplies,
                    ..s
                },
                EffectView::LoadReplies { confession_id: s.confessions[idx as int].id },
            )
        } else {
            (s, EffectView::Nothing)
        },
        None => (s, EffectView::Nothing),
    }
}

/// Opening the reaction picker on the current confession (the caller then looks up
/// the viewer's reaction).
pub open spec fn open_reaction_picker(s: SessionView) -> (SessionView, EffectView) {
    match selected_confession_id(s) {
        Some(id) => (
            SessionView {
                reaction_picker_index: 0,
                reaction_return_mode: s.mode,
                mode: InputMode::ReactionPicker,
                ..s
            },
            EffectView::LoadReaction { confession_id: id },
        ),
        None => (s, EffectView::Nothing),
    }
}

pub open spec fn show_share_link(s: SessionView) -> (SessionView, EffectView) {
    match selected_confession_id(s) {
        Some(id) => (s, EffectView::ShareLink { confession_id: id }),
        None => (s, EffectView::Nothing),
    }
}

impl Session {
    fn return_mode(&self) -> (m: InputMode)
        ensures
            m == return_mode(self@),
    {
        if self.came_from_card {
            InputMode::CardView
        } else {
            InputMode::Browse
        }
    }

    fn open_compose(&mut self, from_card: bool)
        ensures
            final(self)@ == open_compose(old(self)@, from_card),
    {
        self.came_from_card = from_card;
        self.mode = InputMode::Compose;
        self.compose_buf = String::new();
    }

    fn open_search(&mut self)
        ensures
            final(self)@ == open_search(old(self)@),
    {
        self.mode = InputMode::Search;
        self.search_buf = String::new();
    }

    fn open_theme_picker(&mut self)
        ensures
            final(self)@ == open_theme_picker(old(self)@),
    {
        self.theme_picker_index = self.theme_index;
        self.mode = InputMode::ThemePicker;
    }

    fn open_help(&mut self)
        ensures
            final(self)@ == open_help(old(self)@),
    {
        self.help_return_mode = self.mode;
        self.mode = InputMode::Help;
    }

    fn open_reply_compose(&mut self)
        ensures
            final(self)@ == open_reply_compose(old(self)@),
    {
        self.mode = InputMode::ComposeReply;
        self.compose_buf = String::new();
        self.reply_name_buf = String::new();
        self.reply_name_phase = true;
    }

    fn close_replies(&mut self)
        ensures
            final(self)@ == close_replies(old(self)@),
    {
        self.mode = self.return_mode();
        self.came_from_card = false;
        self.viewing_confession = None;
        self.replies = Vec::new();
    }

    fn selected_confession_id(&self) -> (r: Option<i64>)
        ensures
            r == selected_confession_id(self@),
    {
        let mode = if self.mode == InputMode::ReactionPicker {
            self.reaction_return_mode
        } else {
            self.mode
        };
        match mode {
            InputMode::Browse => match self.selected {
                Some(i) => if i < self.confessions.len() {
                    Some(self.confessions[i].id)
                } else {
                    None
                },
                None => None,
            },
            InputMode::CardView | InputMode::SearchResults => if self.card_index
                < self.confessions.len() {
                Some(self.confessions[self.card_index].id)
            } else {
                None
            },
            InputMode::ViewReplies => match self.viewing_confession {
                Some(i) => if i < self.confessions.len() {
                    Some(self.confessions[i].id)
                } else {
                    None
                },
                None => None,
            },
            _ => None,
        }
    }

    fn open_replies(&mut self) -> (e: Effect)
        ensures
            (final(self)@, e@) == open_replies(old(self)@),
    {
        match self.selected {
            Some(idx) => if idx < self.confessions.len() {
                let id = self.confessions[idx].id;
                self.replies = Vec::new();
                self.viewing_confession = Some(idx);
                self.reply_scroll = 0;
                self.mode = InputMode::ViewReplies;
                Effect::LoadReplies { confession_id: id }
            } else {
                Effect::Nothing
            },
            None => Effect::Nothing,
        }
    }

    fn open_reaction_picker(&mut self) -> (e: Effect)
        ensures
            (final(self)@, e@) == open_reaction_picker(old(self)@),
    {
        match self.selected_confession_id() {
            Some(id) => {
                self.reaction_picker_index = 0;
                self.reaction_return_mode = self.mode;
                self.mode = InputMode::ReactionPicker;
                Effect::LoadReaction { confession_id: id }
            },
            None => Effect::Nothing,
        }
    }

    fn show_share_link(&mut self) -> (e: Effect)
        ensures
            (final(self)@, e@) == show_share_link(old(self)@),
    {
        match self.selected_confession_id() {
            Some(id) => Effect::ShareLink { confession_id: id },
            None => Effect::Nothing,
        }
    }
}


/* Typing into a text buffer. */

/// The buffer with its last character removed (unchanged when empty), as `String::pop` does.
pub open spec fn pop_last(b: Seq<char>) -> Seq<char> {
    if b.len() == 0 {
        b
    } else {
        b.drop_last()
    }
}

pub open spec fn with_message(s: SessionView, m: Seq<char>) -> SessionView {
    SessionView { message: Some(m), ..s }
}

/* Writing a confession. */

/// Checking the draft confession: a message when it is empty, too long or holds a
/// blocked phrase; otherwise the trimmed text to post.
pub open spec fn submit_confession(s: SessionView) -> (SessionView, EffectView) {
    let text = trim(s.compose_buf);
    if text.len() == 0 {
        (with_message(s, "Empty confession"@), EffectView::Nothing)
    } else if byte_len(text) > MAX_LENGTH {
        (with_message(s, "Too long (max 280 chars)"@), EffectView::Nothing)
    } else if !allowed(text) {
        (with_message(s, "Confession contains blocked words"@), EffectView::Nothing)
    } else {
        (s, EffectView::PostConfession { text })
    }
}

pub open spec fn compose_step(s: SessionView, e: KeyEvent) -> (SessionView, EffectView) {
    if e == KeyEvent::Escape {
        (SessionView { mode: return_mode(s), compose_buf: Seq::empty(), ..s }, EffectView::Nothing)
    } else if e == KeyEvent::Enter {
        let r = submit_confession(s);
        (SessionView { mode: return_mode(r.0), ..r.0 }, r.1)
    } else if e == KeyEvent::Backspace {
        (SessionView { compose_buf: pop_last(s.compose_buf), ..s }, EffectView::Nothing)
    } else {
        match e {
            KeyEvent::Char(c) => if byte_len(s.compose_buf) < MAX_LENGTH {
                (SessionView { compose_buf: s.compose_buf.push(c), ..s }, EffectView::Nothing)
            } else {
                (s, EffectView::Nothing)
            },
            _ => (s, EffectView::Nothing),
        }
    }
}

/* Writing a reply: first an optional name, then the text. */

pub open spec fn submit_reply(s: SessionView) -> (SessionView, EffectView) {
    let text = trim(s.compose_buf);
    if text.len() == 0 {
        (with_message(s, "Empty reply"@), EffectView::Nothing)
    } else if byte_len(text) > REPLY_MAX_LENGTH {
        (with_message(s, "Too long (max 100 chars)"@), EffectView::Nothing)
    } else if !allowed(text) {
        (with_message(s, "Reply contains blocked words"@), EffectView::Nothing)
    } else {
        match s.viewing_confession {
            Some(idx) => if idx < s.confessions.len() {
                let name = trim(s.reply_name_buf);
                (
                    SessionView {
                        compose_buf: Seq::empty(),
                        reply_name_buf: Seq::empty(),
                        mode: InputMode::ViewReplies,
                        ..s
                    },
                    EffectView::PostReply {
                        confession_id: s.confessions[idx as int].id,
                        text,
                        name: if name.len() == 0 {
                            None
                        } else {
                            Some(name)
                        },
                    },
                )
            } else {
                (s, EffectView::Nothing)
            },
            None => (s, EffectView::Nothing),
        }
    }
}

pub open spec fn compose_reply_step(s: SessionView, e: KeyEvent) -> (SessionView, EffectView) {
    if e == KeyEvent::Escape {
        (
            SessionView {
                mode: InputMode::ViewReplies,
                compose_buf: Seq::empty(),
                reply_name_buf: Seq::empty(),
                ..s
            },
            EffectView::Nothing,
        )
    } else if e == KeyEvent::Enter {
        if s.reply_name_phase {
            (SessionView { reply_name_phase: false, ..s }, EffectView::Nothing)
        } else {
            submit_reply(s)
        }
    } else if e == KeyEvent::Backspace {
        if s.reply_name_phase {
            (SessionView { reply_name_buf: pop_last(s.reply_name_buf), ..s }, EffectView::Nothing)
        } else {
            (SessionView { compose_buf: pop_last(s.compose_buf), ..s }, EffectView::Nothing)
        }
    } else {
        match e {
            KeyEvent::Char(c) => if s.reply_name_phase {
                if byte_len(s.reply_name_buf) < MAX_REPLY_NAME_LENGTH {
                    (SessionView { reply_name_buf: s.reply_name_buf.push(c), ..s }, EffectView::Nothing)
                } else {
                    (s, EffectView::Nothing)
                }
            } else if byte_len(s.compose_buf) < REPLY_MAX_LENGTH {
                (SessionView { compose_buf: s.compose_buf.push(c), ..s }, EffectView::Nothing)
            } else {
                (s, EffectView::Nothing)
            },
            _ => (s, EffectView::Nothing),
        }
    }
}

/* Reading replies. */

pub open spec fn view_replies_step(s: SessionView, e: KeyEvent) -> (SessionView, EffectView) {
    if e == KeyEvent::Escape || e == KeyEvent::Char('q') {
        (close_replies(s), EffectView::Nothing)
    } else if e == KeyEvent::Up || e == KeyEvent::Char('k') {
        (
            SessionView {
                reply_scroll: if s.reply_scroll > 0 {
                    (s.reply_scroll - 1) as usize
                } else {
                    0
                },
                ..s
            },
            EffectView::Nothing,
        )
    } else if (e == KeyEvent::Down || e == KeyEvent::Char('j')) && s.reply_scroll + 1
        < s.replies.len() {
        (SessionView { reply_scroll: (s.reply_scroll + 1) as usize, ..s }, EffectView::Nothing)
    } else if e == KeyEvent::Char('r') {
        (open_reply_compose(s), EffectView::Nothing)
    } else if e == KeyEvent::Char('?') {
        (open_help(s), EffectView::Nothing)
    } else if e == KeyEvent::Char('f') {
        open_reaction_picker(s)
    } else if e == KeyEvent::Char('s') {
        show_share_link(s)
    } else {
        (s, EffectView::Nothing)
    }
}

/* Dialogs. */

pub open spec fn help_step(s: SessionView, e: KeyEvent) -> (SessionView, EffectView) {
    if e == KeyEvent::Escape || e == KeyEvent::Char('q') || e == KeyEvent::Char('?') || e
        == KeyEvent::Enter {
        (SessionView { mode: s.help_return_mode, ..s }, EffectView::Nothing)
    } else {
        (s, EffectView::Nothing)
    }
}

pub open spec fn confirm_quit_step(s: SessionView, e: KeyEvent) -> (SessionView, EffectView) {
    if e == KeyEvent::Char('q') || e == KeyEvent::Enter {
        (s, EffectView::Quit)
    } else {
        (SessionView { mode: InputMode::Browse, ..s }, EffectView::Nothing)
    }
}

pub open spec fn theme_picker_step(s: SessionView, e: KeyEvent) -> (SessionView, EffectView) {
    let count = s.theme_names.len();
    if e == KeyEvent::Up || e == KeyEvent::Char('k') {
        let p = if s.theme_picker_index == 0 {
            (count - 1) as usize
        } else {
            (s.theme_picker_index - 1) as usize
        };
        (SessionView { theme_picker_index: p, theme_index: p, ..s }, EffectView::Nothing)
    } else if e == KeyEvent::Down || e == KeyEvent::Char('j') {
        let p = ((s.theme_picker_index + 1) % (count as int)) as usize;
        (SessionView { theme_picker_index: p, theme_index: p, ..s }, EffectView::Nothing)
    } else if e == KeyEvent::Enter {
        let t = s.theme_picker_index;
        (
            SessionView {
                theme_index: t,
                message: Some("theme: "@ + s.theme_names[t as int]),
                mode: return_mode(s),
                ..s
            },
            EffectView::SaveTheme { index: t },
        )
    } else if e == KeyEvent::Escape {
        (SessionView { mode: return_mode(s), ..s }, EffectView::Nothing)
    } else {
        (s, EffectView::Nothing)
    }
}

pub open spec fn reaction_picker_step(s: SessionView, e: KeyEvent) -> (SessionView, EffectView) {
    let total = s.reaction_tokens.len();
    let i = s.reaction_picker_index;
    if e == KeyEvent::Escape {
        (SessionView { mode: s.reaction_return_mode, ..s }, EffectView::Nothing)
    } else if e == KeyEvent::Enter {
        match selected_confession_id(s) {
            Some(id) => (
                SessionView { mode: s.reaction_return_mode, ..s },
                EffectView::SetReaction { confession_id: id, index: i },
            ),
            None => (s, EffectView::Nothing),
        }
    } else if e == KeyEvent::Left || e == KeyEvent::Char('h') {
        (
            SessionView {
                reaction_picker_index: if i > 0 {
                    (i - 1) as usize
                } else {
                    0
                },
                ..s
            },
            EffectView::Nothing,
        )
    } else if (e == KeyEvent::Right || e == KeyEvent::Char('l')) && i + 1 < total {
        (SessionView { reaction_picker_index: (i + 1) as usize, ..s }, EffectView::Nothing)
    } else if e == KeyEvent::Up || e == KeyEvent::Char('k') {
        (
            SessionView {
                reaction_picker_index: if i >= 4 {
                    (i - 4) as usize
                } else {
                    0
                },
                ..s
            },
            EffectView::Nothing,
        )
    } else if e == KeyEvent::Down || e == KeyEvent::Char('j') {
        (
            SessionView {
                reaction_picker_index: if i + 4 < total - 1 {
                    (i + 4) as usize
                } else {
                    (total - 1) as usize
                },
                ..s
            },
            EffectView::Nothing,
        )
    } else {
        (s, EffectView::Nothing)
    }
}

impl Session {
    fn set_message_str(&mut self, m: &str)
        ensures
            final(self)@ == with_message(old(self)@, m@),
    {
        self.message = Some(string_from(m));
    }

    fn compose_len(&self) -> (n: usize)
        requires
            self.wf(),
        ensures
            n == byte_len(self.compose_buf@),
    {
        self.compose_buf.as_str().len()
    }

    fn submit_confession(&mut self) -> (e: Effect)
        requires
            old(self).wf(),
        ensures
            (final(self)@, e@) == submit_confession(old(self)@),
    {
        let text = trim_string(self.compose_buf.as_str());
        if text.as_str().is_empty() {
            self.set_message_str("Empty confession");
            return Effect::Nothing;
        }
        proof {
            crate::text::lemma_trim_byte_len(self.compose_buf@);
        }
        if text.as_str().len() > MAX_LENGTH {
            self.set_message_str("Too long (max 280 chars)");
            return Effect::Nothing;
        }
        if !is_allowed(text.as_str()) {
            self.set_message_str("Confession contains blocked words");
            return Effect::Nothing;
        }
        Effect::PostConfession { text }
    }

    fn compose_event(&mut self, event: &KeyEvent) -> (e: Effect)
        requires
            old(self).wf(),
        ensures
            (final(self)@, e@) == compose_step(old(self)@, *event),
    {
        if *event == KeyEvent::Escape {
            self.mode = self.return_mode();
            self.compose_buf = String::new();
            Effect::Nothing
        } else if *event == KeyEvent::Enter {
            let e = self.submit_confession();
            self.mode = self.return_mode();
            e
        } else if *event == KeyEvent::Backspace {
            pop_char(&mut self.compose_buf);
            Effect::Nothing
        } else {
            match event {
                KeyEvent::Char(c) => {
                    if self.compose_len() < MAX_LENGTH {
                        push_char(&mut self.compose_buf, *c);
                    }
                    Effect::Nothing
                },
                _ => Effect::Nothing,
            }
        }
    }

    fn submit_reply(&mut self) -> (e: Effect)
        requires
            old(self).wf(),
        ensures
            (final(self)@, e@) == submit_reply(old(self)@),
    {
        let text = trim_string(self.compose_buf.as_str());
        if text.as_str().is_empty() {
            self.set_message_str("Empty reply");
            return Effect::Nothing;
        }
        proof {
            crate::text::lemma_trim_byte_len(self.compose_buf@);
        }
        if text.as_str().len() > REPLY_MAX_LENGTH {
            self.set_message_str("Too long (max 100 chars)");
            return Effect::Nothing;
        }
        if !is_allowed(text.as_str()) {
            self.set_message_str("Reply contains blocked words");
            return Effect::Nothing;
        }
        let idx = match self.viewing_confession {
            Some(idx) => idx,
            None => {
                return Effect::Nothing;
            },
        };
        if idx >= self.confessions.len() {
            return Effect::Nothing;
        }
        let id = self.confessions[idx].id;
        let name = trim_string(self.reply_name_buf.as_str());
        let name_opt = if name.as_str().is_empty() {
            None
        } else {
            Some(name)
        };
        self.compose_buf = String::new();
        self.reply_name_buf = String::new();
        self.mode = InputMode::ViewReplies;
        Effect::PostReply { confession_id: id, text, name: name_opt }
    }

    fn compose_reply_event(&mut self, event: &KeyEvent) -> (e: Effect)
        requires
            old(self).wf(),
        ensures
            (final(self)@, e@) == compose_reply_step(old(self)@, *event),
    {
        if *event == KeyEvent::Escape {
            self.mode = InputMode::ViewReplies;
            self.compose_buf = String::new();
            self.reply_name_buf = String::new();
            Effect::Nothing
        } else if *event == KeyEvent::Enter {
            if self.reply_name_phase {
                self.reply_name_phase = false;
                Effect::Nothing
            } else {
                self.submit_reply()
            }
        } else if *event == KeyEvent::Backspace {
            if self.reply_name_phase {
                pop_char(&mut self.reply_name_buf);
            } else {
                pop_char(&mut self.compose_buf);
            }
            Effect::Nothing
        } else {
            match event {
                KeyEvent::Char(c) => {
                    if self.reply_name_phase {
                        if self.reply_name_buf.as_str().len() < MAX_REPLY_NAME_LENGTH {
                            push_char(&mut self.reply_name_buf, *c);
                        }
                    } else if self.compose_len() < REPLY_MAX_LENGTH {
                        push_char(&mut self.compose_buf, *c);
                    }
                    Effect::Nothing
                },
                _ => Effect::Nothing,
            }
        }
    }

    fn view_replies_event(&mut self, event: &KeyEvent) -> (e: Effect)
        requires
            (*event == KeyEvent::Down || *event == KeyEvent::Char('j')) ==> old(self).reply_scroll
                + 1 <= usize::MAX,
        ensures
            (final(self)@, e@) == view_replies_step(old(self)@, *event),
    {
        if *event == KeyEvent::Escape || *event == KeyEvent::Char('q') {
            self.close_replies();
            Effect::Nothing
        } else if *event == KeyEvent::Up || *event == KeyEvent::Char('k') {
            self.reply_scroll = self.reply_scroll.saturating_sub(1);
            Effect::Nothing
        } else if (*event == KeyEvent::Down || *event == KeyEvent::Char('j')) && self.reply_scroll
            + 1 < self.replies.len() {
            self.reply_scroll += 1;
            Effect::Nothing
        } else if *event == KeyEvent::Char('r') {
            self.open_reply_compose();
            Effect::Nothing
        } else if *event == KeyEvent::Char('?') {
            self.open_help();
            Effect::Nothing
        } else if *event == KeyEvent::Char('f') {
            self.open_reaction_picker()
        } else if *event == KeyEvent::Char('s') {
            self.show_share_link()
        } else {
            Effect::Nothing
        }
    }

    fn help_event(&mut self, event: &KeyEvent) -> (e: Effect)
        ensures
            (final(self)@, e@) == help_step(old(self)@, *event),
    {
        if *event == KeyEvent::Escape || *event == KeyEvent::Char('q') || *event == KeyEvent::Char(
            '?',
        ) || *event == KeyEvent::Enter {
            self.mode = self.help_return_mode;
        }
        Effect::Nothing
    }

    fn confirm_quit_event(&mut self, event: &KeyEvent) -> (e: Effect)
        ensures
            (final(self)@, e@) == confirm_quit_step(old(self)@, *event),
    {
        if *event == KeyEvent::Char('q') || *event == KeyEvent::Enter {
            Effect::Quit
        } else {
            self.mode = InputMode::Browse;
            Effect::Nothing
        }
    }

    fn theme_picker_event(&mut self, event: &KeyEvent) -> (e: Effect)
        requires
            old(self).wf(),
        ensures
            (final(self)@, e@) == theme_picker_step(old(self)@, *event),
    {
        let count = self.theme_names.len();
        if *event == KeyEvent::Up || *event == KeyEvent::Char('k') {
            self.theme_picker_index = if self.theme_picker_index == 0 {
                count - 1
            } else {
                self.theme_picker_index - 1
            };
            self.theme_index = self.theme_picker_index;
            Effect::Nothing
        } else if *event == KeyEvent::Down || *event == KeyEvent::Char('j') {
            self.theme_picker_index = (self.theme_picker_index + 1) % count;
            self.theme_index = self.theme_picker_index;
            Effect::Nothing
        } else if *event == KeyEvent::Enter {
            self.theme_index = self.theme_picker_index;
            let mut m = string_from("theme: ");
            push_str(&mut m, self.theme_names[self.theme_index].as_str());
            self.message = Some(m);
            self.mode = self.return_mode();
            Effect::SaveTheme { index: self.theme_index }
        } else if *event == KeyEvent::Escape {
            self.mode = self.return_mode();
            Effect::Nothing
        } else {
            Effect::Nothing
        }
    }

    fn reaction_picker_event(&mut self, event: &KeyEvent) -> (e: Effect)
        requires
            old(self).wf(),
            *event == KeyEvent::Down || *event == KeyEvent::Char('j') ==> old(self).reaction_picker_index + 4 <= usize::MAX,
        ensures
            (final(self)@, e@) == reaction_picker_step(old(self)@, *event),
    {
        let total = self.reaction_tokens.len();
        if *event == KeyEvent::Escape {
            self.mode = self.reaction_return_mode;
            Effect::Nothing
        } else if *event == KeyEvent::Enter {
            match self.selected_confession_id() {
                Some(id) => {
                    self.mode = self.reaction_return_mode;
                    Effect::SetReaction { confession_id: id, index: self.reaction_picker_index }
                },
                None => Effect::Nothing,
            }
        } else if *event == KeyEvent::Left || *event == KeyEvent::Char('h') {
            self.reaction_picker_index = self.reaction_picker_index.saturating_sub(1);
            Effect::Nothing
        } else if (*event == KeyEvent::Right || *event == KeyEvent::Char('l'))
            && self.reaction_picker_index + 1 < total {
            self.reaction_picker_index += 1;
            Effect::Nothing
        } else if *event == KeyEvent::Up || *event == KeyEvent::Char('k') {
            self.reaction_picker_index = self.reaction_picker_index.saturating_sub(4);
            Effect::Nothing
        } else if *event == KeyEvent::Down || *event == KeyEvent::Char('j') {
            let next = self.reaction_picker_index + 4;
            self.reaction_picker_index = if next < total - 1 {
                next
            } else {
                total - 1
            };
            Effect::Nothing
        } else {
            Effect::Nothing
        }
    }
}


/* Browsing the canvas. */

/// Rows of the canvas: the screen minus the status line.
pub open spec fn canvas_rows(s: SessionView) -> int {
    if s.height > 0 {
        s.height - 1
    } else {
        0
    }
}

/// The confessions the canvas shows, in index order.
pub open spec fn visible_now(s: SessionView) -> Seq<usize> {
    visible_list(s.confessions, s.cam_x as int, s.cam_y as int, s.width as int, canvas_rows(s))
}

/// The first position of `x` in `v` at or after `k`.
pub open spec fn position_from(v: Seq<usize>, x: usize, k: nat) -> Option<nat>
    decreases v.len() - k,
{
    if k >= v.len() {
        None
    } else if v[k as int] == x {
        Some(k)
    } else {
        position_from(v, x, k + 1)
    }
}

/// Tab: select the next visible confession after the selected one (wrapping around),
/// the first visible one when the selection is not on screen, nothing when none is.
pub open spec fn cycle_selection(s: SessionView) -> SessionView {
    let v = visible_now(s);
    if v.len() == 0 {
        SessionView { selected: None, ..s }
    } else {
        let next = match s.selected {
            None => v[0],
            Some(cur) => match position_from(v, cur, 0) {
                Some(p) => v[((p + 1) % v.len()) as int],
                None => v[0],
            },
        };
        SessionView { selected: Some(next), ..s }
    }
}

/// The world cell (`wx`, `wy`) lies in the box of `c`.
pub open spec fn hits(c: Confession, wx: int, wy: int) -> bool {
    wx >= c.x && wx < c.x + BOX_WIDTH && wy >= c.y && wy < c.y + box_height(c.text@)
}

/// The first confession at or after `k` whose box holds the world cell.
pub open spec fn first_hit(cs: Seq<Confession>, wx: int, wy: int, k: nat) -> Option<nat>
    decreases cs.len() - k,
{
    if k >= cs.len() {
        None
    } else if hits(cs[k as int], wx, wy) {
        Some(k)
    } else {
        first_hit(cs, wx, wy, k + 1)
    }
}

/// A click selects the first confession under the clicked cell; elsewhere it changes nothing.
pub open spec fn select_at_screen(s: SessionView, sx: u16, sy: u16) -> SessionView {
    match first_hit(s.confessions, sx + s.cam_x, sy + s.cam_y, 0) {
        Some(i) => SessionView { selected: Some(i as usize), ..s },
        None => s,
    }
}

pub open spec fn browse_step(s: SessionView, e: KeyEvent) -> (SessionView, EffectView) {
    let n = s.confessions.len();
    if e == KeyEvent::Char('q') {
        (SessionView { mode: InputMode::ConfirmQuit, ..s }, EffectView::Nothing)
    } else if e == KeyEvent::Up || e == KeyEvent::Char('k') {
        (SessionView { cam_y: (s.cam_y - CAM_SPEED_Y) as i64, ..s }, EffectView::Nothing)
    } else if e == KeyEvent::Down || e == KeyEvent::Char('j') {
        (SessionView { cam_y: (s.cam_y + CAM_SPEED_Y) as i64, ..s }, EffectView::Nothing)
    } else if e == KeyEvent::Left || e == KeyEvent::Char('h') {
        (SessionView { cam_x: (s.cam_x - CAM_SPEED_X) as i64, ..s }, EffectView::Nothing)
    } else if e == KeyEvent::Right || e == KeyEvent::Char('l') {
        (SessionView { cam_x: (s.cam_x + CAM_SPEED_X) as i64, ..s }, EffectView::Nothing)
    } else if e == KeyEvent::Tab {
        (cycle_selection(s), EffectView::Nothing)
    } else if e == KeyEvent::Enter {
        open_replies(SessionView { came_from_card: false, ..s })
    } else if e == KeyEvent::Char('n') {
        (open_compose(s, false), EffectView::Nothing)
    } else if e == KeyEvent::Char(' ') && n > 0 {
        (
            SessionView {
                card_index: match s.selected {
                    Some(i) => i,
                    None => 0,
                },
                mode: InputMode::CardView,
                ..s
            },
            EffectView::Nothing,
        )
    } else if e == KeyEvent::Char('G') {
        if n > 0 {
            let last = s.confessions[n - 1];
            (
                SessionView {
                    cam_x: (last.x - s.width / 2) as i64,
                    cam_y: (last.y - s.height / 2) as i64,
                    selected: Some((n - 1) as usize),
                    ..s
                },
                EffectView::Nothing,
            )
        } else {
            (s, EffectView::Nothing)
        }
    } else if e == KeyEvent::Char('/') {
        (open_search(s), EffectView::Nothing)
    } else if e == KeyEvent::Char('T') {
        (open_theme_picker(s), EffectView::Nothing)
    } else if e == KeyEvent::Char('?') {
        (open_help(s), EffectView::Nothing)
    } else if e == KeyEvent::Char('f') {
        open_reaction_picker(s)
    } else if e == KeyEvent::Char('s') {
        show_share_link(s)
    } else {
        match e {
            KeyEvent::MouseClick(sx, sy) => (select_at_screen(s, sx, sy), EffectView::Nothing),
            _ => (s, EffectView::Nothing),
        }
    }
}

/// The card before the shown one, wrapping to the last.
pub open spec fn prev_card(s: SessionView) -> usize {
    if s.card_index == 0 {
        (s.confessions.len() - 1) as usize
    } else {
        (s.card_index - 1) as usize
    }
}

/// The card after the shown one, wrapping to the first.
pub open spec fn next_card(s: SessionView) -> usize {
    ((s.card_index + 1) % (s.confessions.len() as int)) as usize
}

pub open spec fn show_card(s: SessionView, i: usize) -> SessionView {
    SessionView { card_index: i, selected: Some(i), ..s }
}

pub open spec fn card_view_step(s: SessionView, e: KeyEvent) -> (SessionView, EffectView) {
    let nonempty = s.confessions.len() > 0;
    if nonempty && (e == KeyEvent::Right || e == KeyEvent::Char('l')) {
        (show_card(s, next_card(s)), EffectView::Nothing)
    } else if nonempty && (e == KeyEvent::Left || e == KeyEvent::Char('h')) {
        (show_card(s, prev_card(s)), EffectView::Nothing)
    } else if nonempty && e is MouseClick {
        let i = if e->MouseClick_0 < s.width / 2 {
            prev_card(s)
        } else {
            next_card(s)
        };
        (show_card(s, i), EffectView::Nothing)
    } else if e == KeyEvent::Enter {
        open_replies(
            SessionView { selected: Some(s.card_index), came_from_card: true, ..s },
        )
    } else if e == KeyEvent::Char('n') {
        (open_compose(s, true), EffectView::Nothing)
    } else if e == KeyEvent::Escape || e == KeyEvent::Char('q') || e == KeyEvent::Char(' ') {
        (
            SessionView { selected: Some(s.card_index), mode: InputMode::Browse, ..s },
            EffectView::Nothing,
        )
    } else if e == KeyEvent::Char('/') {
        (open_search(s), EffectView::Nothing)
    } else if e == KeyEvent::Char('T') {
        (open_theme_picker(s), EffectView::Nothing)
    } else if e == KeyEvent::Char('?') {
        (open_help(s), EffectView::Nothing)
    } else if e == KeyEvent::Char('f') {
        open_reaction_picker(s)
    } else if e == KeyEvent::Char('s') {
        show_share_link(s)
    } else {
        (s, EffectView::Nothing)
    }
}

/* Searching. */

/// Indices, in order, of the first `n` confessions whose lowercased text contains `q`.
pub open spec fn search_hits(cs: Seq<Confession>, q: Seq<char>, n: nat) -> Seq<usize>
    decreases n,
{
    if n == 0 {
        Seq::empty()
    } else {
        let p = search_hits(cs, q, (n - 1) as nat);
        if contains(lowercase(cs[n - 1].text@), q) {
            p.push((n - 1) as usize)
        } else {
            p
        }
    }
}

pub open spec fn search_step(s: SessionView, e: KeyEvent) -> (SessionView, EffectView) {
    if e == KeyEvent::Escape {
        (SessionView { mode: return_mode(s), search_buf: Seq::empty(), ..s }, EffectView::Nothing)
    } else if e == KeyEvent::Enter {
        let q = lowercase(s.search_buf);
        if q.len() == 0 {
            (SessionView { mode: return_mode(s), ..s }, EffectView::Nothing)
        } else {
            let hits = search_hits(s.confessions, q, s.confessions.len());
            if hits.len() == 0 {
                (
                    SessionView {
                        search_results: hits,
                        message: Some("No results for \""@ + s.search_buf + "\""@),
                        mode: return_mode(s),
                        ..s
                    },
                    EffectView::Nothing,
                )
            } else {
                (
                    SessionView {
                        search_results: hits,
                        search_index: 0,
                        card_index: hits[0],
                        selected: Some(hits[0]),
                        mode: InputMode::SearchResults,
                        ..s
                    },
                    EffectView::Nothing,
                )
            }
        }
    } else if e == KeyEvent::Backspace {
        (SessionView { search_buf: pop_last(s.search_buf), ..s }, EffectView::Nothing)
    } else {
        match e {
            KeyEvent::Char(c) => (SessionView { search_buf: s.search_buf.push(c), ..s }, EffectView::Nothing),
            _ => (s, EffectView::Nothing),
        }
    }
}

pub open spec fn show_result(s: SessionView, si: usize) -> SessionView {
    SessionView {
        search_index: si,
        card_index: s.search_results[si as int],
        selected: Some(s.search_results[si as int]),
        ..s
    }
}

pub open spec fn search_results_step(s: SessionView, e: KeyEvent) -> (SessionView, EffectView) {
    let len = s.search_results.len();
    if len > 0 && (e == KeyEvent::Right || e == KeyEvent::Char('l')) {
        (show_result(s, ((s.search_index + 1) % (len as int)) as usize), EffectView::Nothing)
    } else if len > 0 && (e == KeyEvent::Left || e == KeyEvent::Char('h')) {
        let si = if s.search_index == 0 {
            (len - 1) as usize
        } else {
            (s.search_index - 1) as usize
        };
        (show_result(s, si), EffectView::Nothing)
    } else if e == KeyEvent::Enter {
        open_replies(
            SessionView { selected: Some(s.card_index), came_from_card: true, ..s },
        )
    } else if e == KeyEvent::Escape || e == KeyEvent::Char('q') {
        (
            SessionView {
                search_results: Seq::empty(),
                search_buf: Seq::empty(),
                mode: InputMode::Browse,
                ..s
            },
            EffectView::Nothing,
        )
    } else if e == KeyEvent::Char('?') {
        (open_help(s), EffectView::Nothing)
    } else if e == KeyEvent::Char('f') {
        open_reaction_picker(s)
    } else if e == KeyEvent::Char('s') {
        show_share_link(s)
    } else {
        (s, EffectView::Nothing)
    }
}

/// The arithmetic a browse event performs stays within `i64`.
pub open spec fn browse_ok(s: SessionView, e: KeyEvent) -> bool {
    &&& (e == KeyEvent::Up || e == KeyEvent::Char('k')) ==> s.cam_y - CAM_SPEED_Y >= i64::MIN
    &&& (e == KeyEvent::Down || e == KeyEvent::Char('j')) ==> s.cam_y + CAM_SPEED_Y <= i64::MAX
    &&& (e == KeyEvent::Left || e == KeyEvent::Char('h')) ==> s.cam_x - CAM_SPEED_X >= i64::MIN
    &&& (e == KeyEvent::Right || e == KeyEvent::Char('l')) ==> s.cam_x + CAM_SPEED_X <= i64::MAX
    &&& e == KeyEvent::Tab ==> s.cam_x + s.width <= i64::MAX && s.cam_y + canvas_rows(s) <= i64::MAX
    &&& (e matches KeyEvent::MouseClick(sx, sy) ==> sx + s.cam_x <= i64::MAX && sy + s.cam_y
        <= i64::MAX)
    &&& (e == KeyEvent::Char('G') && s.confessions.len() > 0) ==> {
        let last = s.confessions[s.confessions.len() - 1];
        last.x - s.width / 2 >= i64::MIN && last.y - s.height / 2 >= i64::MIN
    }
}

impl Session {
    fn cycle_selection(&mut self)
        requires
            old(self).wf(),
            old(self).cam_x + old(self).width <= i64::MAX,
            old(self).cam_y + canvas_rows(old(self)@) <= i64::MAX,
        ensures
            final(self)@ == cycle_selection(old(self)@),
    {
        let visible = visible_confessions(
            self.confessions.as_slice(),
            self.cam_x,
            self.cam_y,
            self.width,
            self.height.saturating_sub(1),
        );
        if visible.len() == 0 {
            self.selected = None;
            return;
        }
        let next = match self.selected {
            None => visible[0],
            Some(cur) => {
                let mut p: usize = 0;
                while p < visible.len() && visible[p] != cur
                    invariant
                        p <= visible.len(),
                        position_from(visible@, cur, p as nat) == position_from(visible@, cur, 0),
                    decreases visible.len() - p,
                {
                    p += 1;
                }
                if p < visible.len() {
                    visible[(p + 1) % visible.len()]
                } else {
                    visible[0]
                }
            },
        };
        self.selected = Some(next);
    }

    fn select_at_screen(&mut self, sx: u16, sy: u16)
        requires
            old(self).wf(),
            sx + old(self).cam_x <= i64::MAX,
            sy + old(self).cam_y <= i64::MAX,
        ensures
            final(self)@ == select_at_screen(old(self)@, sx, sy),
    {
        let world_x = sx as i64 + self.cam_x;
        let world_y = sy as i64 + self.cam_y;
        let mut i: usize = 0;
        while i < self.confessions.len()
            invariant
                i <= self.confessions.len(),
                self@ == old(self)@,
                world_x == sx + old(self).cam_x,
                world_y == sy + old(self).cam_y,
                all_boxes_fit(self.confessions@),
                first_hit(self.confessions@, world_x as int, world_y as int, i as nat) == first_hit(
                    self.confessions@,
                    world_x as int,
                    world_y as int,
                    0,
                ),
            decreases self.confessions.len() - i,
        {
            let c = &self.confessions[i];
            assert(crate::canvas::box_fits(self.confessions@[i as int]));
            let bw = BOX_WIDTH as i64;
            let bh = confession_height(&c.text) as i64;
            if world_x >= c.x && world_x < c.x + bw && world_y >= c.y && world_y < c.y + bh {
                self.selected = Some(i);
                return;
            }
            i += 1;
        }
    }

    fn browse_event(&mut self, event: &KeyEvent) -> (e: Effect)
        requires
            old(self).wf(),
            browse_ok(old(self)@, *event),
        ensures
            (final(self)@, e@) == browse_step(old(self)@, *event),
    {
        let n = self.confessions.len();
        if *event == KeyEvent::Char('q') {
            self.mode = InputMode::ConfirmQuit;
            Effect::Nothing
        } else if *event == KeyEvent::Up || *event == KeyEvent::Char('k') {
            self.cam_y = self.cam_y - CAM_SPEED_Y;
            Effect::Nothing
        } else if *event == KeyEvent::Down || *event == KeyEvent::Char('j') {
            self.cam_y = self.cam_y + CAM_SPEED_Y;
            Effect::Nothing
        } else if *event == KeyEvent::Left || *event == KeyEvent::Char('h') {
            self.cam_x = self.cam_x - CAM_SPEED_X;
            Effect::Nothing
        } else if *event == KeyEvent::Right || *event == KeyEvent::Char('l') {
            self.cam_x = self.cam_x + CAM_SPEED_X;
            Effect::Nothing
        } else if *event == KeyEvent::Tab {
            self.cycle_selection();
            Effect::Nothing
        } else if *event == KeyEvent::Enter {
            self.came_from_card = false;
            self.open_replies()
        } else if *event == KeyEvent::Char('n') {
            self.open_compose(false);
            Effect::Nothing
        } else if *event == KeyEvent::Char(' ') && n > 0 {
            self.card_index = match self.selected {
                Some(i) => i,
                None => 0,
            };
            self.mode = InputMode::CardView;
            Effect::Nothing
        } else if *event == KeyEvent::Char('G') {
            if n > 0 {
                let last = &self.confessions[n - 1];
                self.cam_x = last.x - (self.width as i64) / 2;
                self.cam_y = last.y - (self.height as i64) / 2;
                self.selected = Some(n - 1);
            }
            Effect::Nothing
        } else if *event == KeyEvent::Char('/') {
            self.open_search();
            Effect::Nothing
        } else if *event == KeyEvent::Char('T') {
            self.open_theme_picker();
            Effect::Nothing
        } else if *event == KeyEvent::Char('?') {
            self.open_help();
            Effect::Nothing
        } else if *event == KeyEvent::Char('f') {
            self.open_reaction_picker()
        } else if *event == KeyEvent::Char('s') {
            self.show_share_link()
        } else {
            match event {
                KeyEvent::MouseClick(sx, sy) => {
                    self.select_at_screen(*sx, *sy);
                    Effect::Nothing
                },
                _ => Effect::Nothing,
            }
        }
    }

    fn show_card(&mut self, i: usize)
        ensures
            final(self)@ == show_card(old(self)@, i),
    {
        self.card_index = i;
        self.selected = Some(i);
    }

    fn card_view_event(&mut self, event: &KeyEvent) -> (e: Effect)
        requires
            (*event == KeyEvent::Right || *event == KeyEvent::Char('l') || *event is MouseClick)
                ==> old(self).card_index + 1 <= usize::MAX,
        ensures
            (final(self)@, e@) == card_view_step(old(self)@, *event),
    {
        let n = self.confessions.len();
        let nonempty = n > 0;
        if nonempty && (*event == KeyEvent::Right || *event == KeyEvent::Char('l')) {
            self.show_card((self.card_index + 1) % n);
            Effect::Nothing
        } else if nonempty && (*event == KeyEvent::Left || *event == KeyEvent::Char('h')) {
            let i = if self.card_index == 0 {
                n - 1
            } else {
                self.card_index - 1
            };
            self.show_card(i);
            Effect::Nothing
        } else if nonempty && matches!(event, KeyEvent::MouseClick(_, _)) {
            let sx = match event {
                KeyEvent::MouseClick(sx, _) => *sx,
                _ => 0,
            };
            let i = if sx < self.width / 2 {
                if self.card_index == 0 {
                    n - 1
                } else {
                    self.card_index - 1
                }
            } else {
                (self.card_index + 1) % n
            };
            self.show_card(i);
            Effect::Nothing
        } else if *event == KeyEvent::Enter {
            self.selected = Some(self.card_index);
            self.came_from_card = true;
            self.open_replies()
        } else if *event == KeyEvent::Char('n') {
            self.open_compose(true);
            Effect::Nothing
        } else if *event == KeyEvent::Escape || *event == KeyEvent::Char('q') || *event
            == KeyEvent::Char(' ') {
            self.selected = Some(self.card_index);
            self.mode = InputMode::Browse;
            Effect::Nothing
        } else if *event == KeyEvent::Char('/') {
            self.open_search();
            Effect::Nothing
        } else if *event == KeyEvent::Char('T') {
            self.open_theme_picker();
            Effect::Nothing
        } else if *event == KeyEvent::Char('?') {
            self.open_help();
            Effect::Nothing
        } else if *event == KeyEvent::Char('f') {
            self.open_reaction_picker()
        } else if *event == KeyEvent::Char('s') {
            self.show_share_link()
        } else {
            Effect::Nothing
        }
    }

    fn search_event(&mut self, event: &KeyEvent) -> (e: Effect)
        ensures
            (final(self)@, e@) == search_step(old(self)@, *event),
    {
        if *event == KeyEvent::Escape {
            self.mode = self.return_mode();
            self.search_buf = String::new();
            Effect::Nothing
        } else if *event == KeyEvent::Enter {
            let query = to_lower(self.search_buf.as_str());
            if query.as_str().is_empty() {
                self.mode = self.return_mode();
                return Effect::Nothing;
            }
            let mut hits: Vec<usize> = Vec::new();
            let mut i: usize = 0;
            while i < self.confessions.len()
                invariant
                    i <= self.confessions.len(),
                    query@ == lowercase(self.search_buf@),
                    hits@ == search_hits(self.confessions@, query@, i as nat),
                decreases self.confessions.len() - i,
            {
                let lower = to_lower(self.confessions[i].text.as_str());
                if str_contains(lower.as_str(), query.as_str()) {
                    hits.push(i);
                }
                i += 1;
            }
            if hits.len() == 0 {
                let mut m = string_from("No results for \"");
                push_str(&mut m, self.search_buf.as_str());
                push_str(&mut m, "\"");
                self.search_results = hits;
                self.message = Some(m);
                self.mode = self.return_mode();
            } else {
                let first = hits[0];
                self.search_results = hits;
                self.search_index = 0;
                self.card_index = first;
                self.selected = Some(first);
                self.mode = InputMode::SearchResults;
            }
            Effect::Nothing
        } else if *event == KeyEvent::Backspace {
            pop_char(&mut self.search_buf);
            Effect::Nothing
        } else {
            match event {
                KeyEvent::Char(c) => {
                    push_char(&mut self.search_buf, *c);
                    Effect::Nothing
                },
                _ => Effect::Nothing,
            }
        }
    }

    fn search_results_event(&mut self, event: &KeyEvent) -> (e: Effect)
        requires
            old(self).wf(),
        ensures
            (final(self)@, e@) == search_results_step(old(self)@, *event),
    {
        let len = self.search_results.len();
        if len > 0 && (*event == KeyEvent::Right || *event == KeyEvent::Char('l')) {
            let si = (self.search_index + 1) % len;
            self.search_index = si;
            self.card_index = self.search_results[si];
            self.selected = Some(self.card_index);
            Effect::Nothing
        } else if len > 0 && (*event == KeyEvent::Left || *event == KeyEvent::Char('h')) {
            let si = if self.search_index == 0 {
                len - 1
            } else {
                self.search_index - 1
            };
            self.search_index = si;
            self.card_index = self.search_results[si];
            self.selected = Some(self.card_index);
            Effect::Nothing
        } else if *event == KeyEvent::Enter {
            self.selected = Some(self.card_index);
            self.came_from_card = true;
            self.open_replies()
        } else if *event == KeyEvent::Escape || *event == KeyEvent::Char('q') {
            self.search_results = Vec::new();
            self.search_buf = String::new();
            self.mode = InputMode::Browse;
            Effect::Nothing
        } else if *event == KeyEvent::Char('?') {
            self.open_help();
            Effect::Nothing
        } else if *event == KeyEvent::Char('f') {
            self.open_reaction_picker()
        } else if *event == KeyEvent::Char('s') {
            self.show_share_link()
        } else {
            Effect::Nothing
        }
    }
}


/* One event. */

/// Before handling a key, a shown message is dismissed in the browsing views,
/// except by `q` and `s`.
pub open spec fn clears_message(s: SessionView, e: KeyEvent) -> bool {
    &&& s.message is Some
    &&& (s.mode == InputMode::Browse || s.mode == InputMode::CardView || s.mode
        == InputMode::SearchResults || s.mode == InputMode::ViewReplies)
    &&& e != KeyEvent::Char('q')
    &&& e != KeyEvent::Char('s')
}

pub open spec fn dispatch(s: SessionView, e: KeyEvent) -> (SessionView, EffectView) {
    match s.mode {
        InputMode::Help => help_step(s, e),
        InputMode::Browse => browse_step(s, e),
        InputMode::CardView => card_view_step(s, e),
        InputMode::ThemePicker => theme_picker_step(s, e),
        InputMode::ReactionPicker => reaction_picker_step(s, e),
        InputMode::ConfirmQuit => confirm_quit_step(s, e),
        InputMode::ViewReplies => view_replies_step(s, e),
        InputMode::ComposeReply => compose_reply_step(s, e),
        InputMode::Search => search_step(s, e),
        InputMode::SearchResults => search_results_step(s, e),
        InputMode::Compose => compose_step(s, e),
        InputMode::Splash => (s, EffectView::Nothing),
    }
}

/// The state after a key event, and what the caller must do next.
pub open spec fn step(s: SessionView, e: KeyEvent) -> (SessionView, EffectView) {
    let s1 = if clears_message(s, e) {
        SessionView { message: None, ..s }
    } else {
        s
    };
    dispatch(s1, e)
}

/// The arithmetic the event performs stays within machine integers.
pub open spec fn step_ok(s: SessionView, e: KeyEvent) -> bool {
    match s.mode {
        InputMode::Browse => browse_ok(s, e),
        InputMode::CardView => (e == KeyEvent::Right || e == KeyEvent::Char('l') || e is MouseClick)
            ==> s.card_index + 1 <= usize::MAX,
        InputMode::ViewReplies => (e == KeyEvent::Down || e == KeyEvent::Char('j')) ==> s.reply_scroll
            + 1 <= usize::MAX,
        InputMode::ReactionPicker => (e == KeyEvent::Down || e == KeyEvent::Char('j'))
            ==> s.reaction_picker_index + 4 <= usize::MAX,
        _ => true,
    }
}

pub proof fn lemma_push_bound(b: Seq<char>, c: char, limit: nat)
    requires
        byte_len(b) < limit,
    ensures
        byte_len(b.push(c)) <= limit + 3,
{
    crate::text::lemma_byte_len_push(b, c);
    crate::text::lemma_char_bytes(c);
}

pub proof fn lemma_pop_bound(b: Seq<char>)
    ensures
        byte_len(pop_last(b)) <= byte_len(b),
{
    if b.len() > 0 {
        lemma_byte_len_take(b, b.len() - 1);
        assert(b.take(b.len() - 1) =~= b.drop_last());
    }
}

pub proof fn lemma_empty_bytes()
    ensures
        byte_len(Seq::<char>::empty()) == 0,
{
    assert(vstd::utf8::encode_utf8(Seq::<char>::empty()) =~= Seq::<u8>::empty());
}

proof fn lemma_browse_wf(s: SessionView, e: KeyEvent)
    requires
        wf(s),
    ensures
        wf(browse_step(s, e).0),
{
    lemma_empty_bytes();
}

proof fn lemma_card_view_wf(s: SessionView, e: KeyEvent)
    requires
        wf(s),
    ensures
        wf(card_view_step(s, e).0),
{
    lemma_empty_bytes();
}

proof fn lemma_compose_wf(s: SessionView, e: KeyEvent)
    requires
        wf(s),
    ensures
        wf(compose_step(s, e).0),
{
    lemma_empty_bytes();
    lemma_pop_bound(s.compose_buf);
    match e {
        KeyEvent::Char(c) => {
            if byte_len(s.compose_buf) < MAX_LENGTH {
                lemma_push_bound(s.compose_buf, c, MAX_LENGTH as nat);
            }
        },
        _ => {},
    }
}

proof fn lemma_compose_reply_wf(s: SessionView, e: KeyEvent)
    requires
        wf(s),
    ensures
        wf(compose_reply_step(s, e).0),
{
    lemma_empty_bytes();
    lemma_pop_bound(s.compose_buf);
    lemma_pop_bound(s.reply_name_buf);
    match e {
        KeyEvent::Char(c) => {
            if byte_len(s.compose_buf) < REPLY_MAX_LENGTH {
                lemma_push_bound(s.compose_buf, c, REPLY_MAX_LENGTH as nat);
            }
            if byte_len(s.reply_name_buf) < MAX_REPLY_NAME_LENGTH {
                lemma_push_bound(s.reply_name_buf, c, MAX_REPLY_NAME_LENGTH as nat);
            }
        },
        _ => {},
    }
}

proof fn lemma_search_wf(s: SessionView, e: KeyEvent)
    requires
        wf(s),
    ensures
        wf(search_step(s, e).0),
{
}

proof fn lemma_small_modes_wf(s: SessionView, e: KeyEvent)
    requires
        wf(s),
    ensures
        wf(help_step(s, e).0),
        wf(confirm_quit_step(s, e).0),
        wf(theme_picker_step(s, e).0),
        wf(reaction_picker_step(s, e).0),
        wf(view_replies_step(s, e).0),
        wf(search_results_step(s, e).0),
{
    lemma_empty_bytes();
}

/// Every event keeps the session well formed: theme and reaction indices stay within
/// their lists, the search position within the results, draft texts within their
/// length limits, and the confessions measurable.
pub proof fn lemma_step_wf(s: SessionView, e: KeyEvent)
    requires
        wf(s),
    ensures
        wf(step(s, e).0),
{
    let s1 = if clears_message(s, e) {
        SessionView { message: None, ..s }
    } else {
        s
    };
    assert(wf(s1));
    lemma_browse_wf(s1, e);
    lemma_card_view_wf(s1, e);
    lemma_compose_wf(s1, e);
    lemma_compose_reply_wf(s1, e);
    lemma_search_wf(s1, e);
    lemma_small_modes_wf(s1, e);
}

impl Session {
    /// Applies one key event: the new state is `step(old, event).0`, and the
    /// returned effect, which the caller must carry out, is `step(old, event).1`.
    pub fn handle_event(&mut self, event: &KeyEvent) -> (e: Effect)
        requires
            old(self).wf(),
            step_ok(old(self)@, *event),
        ensures
            final(self)@ == step(old(self)@, *event).0,
            e@ == step(old(self)@, *event).1,
            final(self).wf(),
    {
        proof {
            lemma_step_wf(old(self)@, *event);
        }
        if self.message.is_some() && (self.mode == InputMode::Browse || self.mode
            == InputMode::CardView || self.mode == InputMode::SearchResults || self.mode
            == InputMode::ViewReplies) && *event != KeyEvent::Char('q') && *event
            != KeyEvent::Char('s') {
            self.message = None;
        }
        match self.mode {
            InputMode::Help => self.help_event(event),
            InputMode::Browse => self.browse_event(event),
            InputMode::CardView => self.card_view_event(event),
            InputMode::ThemePicker => self.theme_picker_event(event),
            InputMode::ReactionPicker => self.reaction_picker_event(event),
            InputMode::ConfirmQuit => self.confirm_quit_event(event),
            InputMode::ViewReplies => self.view_replies_event(event),
            InputMode::ComposeReply => self.compose_reply_event(event),
            InputMode::Search => self.search_event(event),
            InputMode::SearchResults => self.search_results_event(event),
            InputMode::Compose => self.compose_event(event),
            InputMode::Splash => Effect::Nothing,
        }
    }

    /// Whether `handle_event` takes `event` in this state: false only where a camera
    /// move or a counter would leave the range of its integer type.
    pub fn can_handle(&self, event: &KeyEvent) -> (r: bool)
        ensures
            r == step_ok(self@, *event),
    {
        let lo = i64::MIN as i128;
        let hi = i64::MAX as i128;
        let cx = self.cam_x as i128;
        let cy = self.cam_y as i128;
        match self.mode {
            InputMode::Browse => {
                let rows: i128 = if self.height > 0 {
                    self.height as i128 - 1
                } else {
                    0
                };
                match *event {
                    KeyEvent::Up | KeyEvent::Char('k') => cy - CAM_SPEED_Y as i128 >= lo,
                    KeyEvent::Down | KeyEvent::Char('j') => cy + CAM_SPEED_Y as i128 <= hi,
                    KeyEvent::Left | KeyEvent::Char('h') => cx - CAM_SPEED_X as i128 >= lo,
                    KeyEvent::Right | KeyEvent::Char('l') => cx + CAM_SPEED_X as i128 <= hi,
                    KeyEvent::Tab => cx + self.width as i128 <= hi && cy + rows <= hi,
                    KeyEvent::MouseClick(sx, sy) => sx as i128 + cx <= hi && sy as i128 + cy <= hi,
                    KeyEvent::Char('G') => {
                        let n = self.confessions.len();
                        if n > 0 {
                            let last = &self.confessions[n - 1];
                            last.x as i128 - (self.width / 2) as i128 >= lo && last.y as i128 - (
                            self.height / 2) as i128 >= lo
                        } else {
                            true
                        }
                    },
                    _ => true,
                }
            },
            InputMode::CardView => match *event {
                KeyEvent::Right | KeyEvent::Char('l') | KeyEvent::MouseClick(_, _) => self.card_index
                    < usize::MAX,
                _ => true,
            },
            InputMode::ViewReplies => match *event {
                KeyEvent::Down | KeyEvent::Char('j') => self.reply_scroll < usize::MAX,
                _ => true,
            },
            InputMode::ReactionPicker => match *event {
                KeyEvent::Down | KeyEvent::Char('j') => self.reaction_picker_index <= usize::MAX
                    - 4,
                _ => true,
            },
            _ => true,
        }
    }
}


/* Results of the effects, and other outside changes. */

/// The message announcing `diff` confessions that appeared since the last reload.
pub open spec fn new_confessions_text(diff: int) -> Seq<char> {
    digits(diff as nat) + " new confession"@ + (if diff == 1 {
        ""@
    } else {
        "s"@
    }) + "!"@
}

/// Replacing the confessions with a fresh copy from the store; when the viewer has
/// seen confessions before and some were added, a message says how many.
pub open spec fn reload_confessions(s: SessionView, fresh: Seq<Confession>) -> SessionView {
    let old_count = s.confessions.len();
    let new_count = fresh.len();
    SessionView {
        confessions: fresh,
        message: if s.last_known_count > 0 && new_count > old_count {
            Some(new_confessions_text(new_count - old_count))
        } else {
            s.message
        },
        last_known_count: new_count as usize,
        ..s
    }
}

/// The position of `t` in `ts`, searching from `k`.
pub open spec fn index_of_text(ts: Seq<Seq<char>>, t: Seq<char>, k: nat) -> Option<nat>
    decreases ts.len() - k,
{
    if k >= ts.len() {
        None
    } else if ts[k as int] == t {
        Some(k)
    } else {
        index_of_text(ts, t, k + 1)
    }
}

pub proof fn lemma_index_of_text(ts: Seq<Seq<char>>, t: Seq<char>, k: nat)
    ensures
        index_of_text(ts, t, k) matches Some(i) ==> k <= i < ts.len() && ts[i as int] == t,
    decreases ts.len() - k,
{
    if k < ts.len() && ts[k as int] != t {
        lemma_index_of_text(ts, t, k + 1);
    }
}

/// The camera a viewer starts with, and the first confession it shows as the selection.
pub open spec fn center_camera(s: SessionView) -> SessionView {
    let cam = crate::canvas::best_camera_spec(s.confessions, s.width as int, s.height as int);
    let s1 = SessionView { cam_x: cam.0 as i64, cam_y: cam.1 as i64, ..s };
    let v = visible_now(s1);
    if v.len() > 0 {
        SessionView { selected: Some(v[0]), ..s1 }
    } else {
        s1
    }
}

pub proof fn lemma_best_scan_bounds(cs: Seq<Confession>, cands: Seq<usize>, w: int, h: int)
    requires
        0 <= w <= u16::MAX,
        0 <= h <= u16::MAX,
        forall|k: int| 0 <= k < cands.len() ==> #[trigger] cands[k] < cs.len(),
        forall|i: int| 0 <= i < cs.len() ==> crate::canvas::camera_fits(#[trigger] cs[i], w, h),
    ensures
        ({
            let r = crate::canvas::best_scan(cs, cands, w, h);
            &&& i64::MIN <= r.0 && r.0 + w <= i64::MAX
            &&& i64::MIN <= r.1 && r.1 + h <= i64::MAX
        }),
    decreases cands.len(),
{
    if cands.len() > 0 {
        lemma_best_scan_bounds(cs, cands.drop_last(), w, h);
        assert(cands.last() == cands[cands.len() - 1]);
        assert(crate::canvas::camera_fits(cs[cands.last() as int], w, h));
    }
}

/// The position of the text `t` among the strings of `ts`.
fn find_text(ts: &Vec<String>, t: &str) -> (r: Option<usize>)
    ensures
        r matches Some(k) ==> index_of_text(ts@.map_values(|x: String| x@), t@, 0) == Some(
            k as nat,
        ) && k < ts@.len(),
        r is None ==> index_of_text(ts@.map_values(|x: String| x@), t@, 0) is None,
{
    let ghost vs = ts@.map_values(|x: String| x@);
    let mut k: usize = 0;
    while k < ts.len()
        invariant
            k <= ts.len(),
            vs == ts@.map_values(|x: String| x@),
            index_of_text(vs, t@, k as nat) == index_of_text(vs, t@, 0),
        decreases ts.len() - k,
    {
        assert(vs[k as int] == ts@[k as int]@);
        if crate::text::str_eq(ts[k].as_str(), t) {
            return Some(k);
        }
        k += 1;
    }
    None
}

impl Session {
    /// A session for a new connection, showing the splash screen, with the given
    /// theme names and reaction tokens (neither empty).
    pub fn new(theme_names: Vec<String>, reaction_tokens: Vec<String>) -> (s: Session)
        requires
            theme_names@.len() > 0,
            reaction_tokens@.len() > 0,
        ensures
            s.wf(),
            s.mode == InputMode::Splash,
            s.width == 80,
            s.height == 24,
            s.cam_x == 0 && s.cam_y == 0,
            s.selected is None,
            s.confessions@.len() == 0,
            s.replies@.len() == 0,
            s.message is None,
            s.help_return_mode == InputMode::Browse,
            s.reaction_return_mode == InputMode::Browse,
            s.theme_index == 0,
            s.theme_names == theme_names,
            s.reaction_tokens == reaction_tokens,
            s@.compose_buf.len() == 0,
            s@.reply_name_buf.len() == 0,
            s@.search_buf.len() == 0,
            s.search_results@.len() == 0,
            !s.reply_name_phase && !s.came_from_card && !s.created_confession,
            s.viewing_confession is None,
            s.reply_scroll == 0 && s.card_index == 0 && s.last_known_count == 0,
            s.search_index == 0 && s.splash_frame == 0 && s.theme_picker_index == 0,
            s.reaction_picker_index == 0,
    {
        proof {
            lemma_empty_bytes();
        }
        Session {
            cam_x: 0,
            cam_y: 0,
            selected: None,
            mode: InputMode::Splash,
            compose_buf: String::new(),
            reply_name_buf: String::new(),
            reply_name_phase: false,
            width: 80,
            height: 24,
            confessions: Vec::new(),
            replies: Vec::new(),
            viewing_confession: None,
            reply_scroll: 0,
            card_index: 0,
            came_from_card: false,
            created_confession: false,
            message: None,
            help_return_mode: InputMode::Browse,
            reaction_return_mode: InputMode::Browse,
            reaction_picker_index: 0,
            last_known_count: 0,
            search_buf: String::new(),
            search_results: Vec::new(),
            search_index: 0,
            splash_frame: 0,
            theme_index: 0,
            theme_picker_index: 0,
            theme_names,
            reaction_tokens,
        }
    }

    /// Replaces the confessions with `fresh` (see `reload_confessions`).
    pub fn reload_confessions(&mut self, fresh: Vec<Confession>)
        requires
            old(self).wf(),
            all_boxes_fit(fresh@),
        ensures
            final(self)@ == reload_confessions(old(self)@, fresh@),
            final(self).wf(),
    {
        let old_count = self.confessions.len();
        let new_count = fresh.len();
        self.confessions = fresh;
        if self.last_known_count > 0 && new_count > old_count {
            let diff = new_count - old_count;
            let mut m = String::new();
            push_digits(&mut m, diff as u64);
            push_str(&mut m, " new confession");
            if diff != 1 {
                push_str(&mut m, "s");
            }
            proof {
                reveal_strlit("");
                assert(m@ + ""@ =~= m@);
            }
            push_str(&mut m, "!");
            self.message = Some(m);
        }
        self.last_known_count = new_count;
    }

    /// The replies of the confession whose replies were opened.
    pub fn show_replies(&mut self, replies: Vec<Reply>)
        requires
            old(self).wf(),
        ensures
            final(self)@ == (SessionView { replies: replies@, ..old(self)@ }),
            final(self).wf(),
    {
        self.replies = replies;
    }

    /// The daily limit stopped the confession: the draft is kept.
    pub fn confession_rate_limited(&mut self)
        requires
            old(self).wf(),
        ensures
            final(self)@ == with_message(
                old(self)@,
                "Rate limit: "@ + int_text(DAILY_POST_LIMIT as int) + " confessions per day"@,
            ),
            final(self).wf(),
    {
        let mut m = string_from("Rate limit: ");
        push_int(&mut m, DAILY_POST_LIMIT);
        push_str(&mut m, " confessions per day");
        self.message = Some(m);
    }

    /// Applies the daily limit to a viewer who posted `posts_today` confessions in the
    /// last day: under the limit the state is unchanged and `true` comes back; at or
    /// over it the viewer is told (see `confession_rate_limited`) and `false` comes back.
    pub fn within_daily_limit(&mut self, posts_today: i64) -> (ok: bool)
        requires
            old(self).wf(),
        ensures
            ok == (posts_today < DAILY_POST_LIMIT),
            ok ==> final(self)@ == old(self)@,
            !ok ==> final(self)@ == with_message(
                old(self)@,
                "Rate limit: "@ + int_text(DAILY_POST_LIMIT as int) + " confessions per day"@,
            ),
            final(self).wf(),
    {
        if posts_today >= DAILY_POST_LIMIT {
            self.confession_rate_limited();
            false
        } else {
            true
        }
    }

    /// The confession was stored at (`x`, `y`): the camera centres on it and the draft is cleared.
    pub fn confession_posted(&mut self, x: i64, y: i64)
        requires
            old(self).wf(),
            x - old(self).width / 2 >= i64::MIN,
            y - old(self).height / 2 >= i64::MIN,
        ensures
            final(self)@ == (SessionView {
                created_confession: true,
                message: Some("Confession posted!"@),
                cam_x: (x - old(self).width / 2) as i64,
                cam_y: (y - old(self).height / 2) as i64,
                compose_buf: Seq::empty(),
                ..old(self)@
            }),
            final(self).wf(),
    {
        proof {
            lemma_empty_bytes();
        }
        self.created_confession = true;
        self.message = Some(string_from("Confession posted!"));
        self.cam_x = x - (self.width as i64) / 2;
        self.cam_y = y - (self.height as i64) / 2;
        self.compose_buf = String::new();
    }

    /// Storing the confession failed with `error`: the draft is cleared.
    pub fn confession_failed(&mut self, error: &str)
        requires
            old(self).wf(),
        ensures
            final(self)@ == (SessionView {
                message: Some("Error: "@ + error@),
                compose_buf: Seq::empty(),
                ..old(self)@
            }),
            final(self).wf(),
    {
        proof {
            lemma_empty_bytes();
        }
        let mut m = string_from("Error: ");
        push_str(&mut m, error);
        self.message = Some(m);
        self.compose_buf = String::new();
    }

    /// Storing the reply succeeded (`None`) or failed with the given error.
    pub fn reply_result(&mut self, error: Option<&str>)
        requires
            old(self).wf(),
        ensures
            final(self)@ == with_message(
                old(self)@,
                match error {
                    None => "Reply posted!"@,
                    Some(e) => "Error: "@ + e@,
                },
            ),
            final(self).wf(),
    {
        match error {
            None => self.message = Some(string_from("Reply posted!")),
            Some(e) => {
                let mut m = string_from("Error: ");
                push_str(&mut m, e);
                self.message = Some(m);
            },
        }
    }

    /// The viewer's earlier reaction (if any) becomes the picker's starting choice;
    /// an unknown or missing token starts at the first.
    pub fn choose_reaction(&mut self, token: Option<&str>)
        requires
            old(self).wf(),
        ensures
            final(self)@ == (SessionView {
                reaction_picker_index: match token {
                    Some(t) => match index_of_text(old(self)@.reaction_tokens, t@, 0) {
                        Some(i) => i as usize,
                        None => 0,
                    },
                    None => 0,
                },
                ..old(self)@
            }),
            final(self).wf(),
    {
        let mut idx: usize = 0;
        if let Some(t) = token {
            match find_text(&self.reaction_tokens, t) {
                Some(k) => {
                    idx = k;
                },
                None => {},
            }
        }
        self.reaction_picker_index = idx;
    }

    /// Storing the reaction with token `index` succeeded (`None`) or failed.
    pub fn reaction_result(&mut self, index: usize, error: Option<&str>)
        requires
            old(self).wf(),
            index < old(self)@.reaction_tokens.len(),
        ensures
            final(self)@ == with_message(
                old(self)@,
                match error {
                    None => "reacted with "@ + old(self)@.reaction_tokens[index as int],
                    Some(e) => "reaction failed: "@ + e@,
                },
            ),
            final(self).wf(),
    {
        match error {
            None => {
                let mut m = string_from("reacted with ");
                push_str(&mut m, self.reaction_tokens[index].as_str());
                self.message = Some(m);
            },
            Some(e) => {
                let mut m = string_from("reaction failed: ");
                push_str(&mut m, e);
                self.message = Some(m);
            },
        }
    }

    /// Shows the link to confession `id` under the site address `base`.
    pub fn share_link(&mut self, base: &str, id: i64)
        requires
            old(self).wf(),
        ensures
            final(self)@ == with_message(old(self)@, base@ + "/c/"@ + int_text(id as int)),
            final(self).wf(),
    {
        let mut m = string_from(base);
        push_str(&mut m, "/c/");
        push_int(&mut m, id);
        self.message = Some(m);
    }

    /// Switches to the theme the viewer saved earlier, when it is one of the known themes.
    pub fn apply_saved_theme(&mut self, saved: Option<&str>)
        requires
            old(self).wf(),
        ensures
            final(self)@ == (SessionView {
                theme_index: match saved {
                    Some(t) => match index_of_text(old(self)@.theme_names, t@, 0) {
                        Some(i) => i as usize,
                        None => old(self).theme_index,
                    },
                    None => old(self).theme_index,
                },
                ..old(self)@
            }),
            final(self).wf(),
    {
        if let Some(t) = saved {
            match find_text(&self.theme_names, t) {
                Some(k) => {
                    self.theme_index = k;
                },
                None => {},
            }
        }
    }

    /// The splash animation is over: browsing starts.
    pub fn end_splash(&mut self)
        requires
            old(self).wf(),
        ensures
            final(self)@ == (SessionView { mode: InputMode::Browse, ..old(self)@ }),
            final(self).wf(),
    {
        self.mode = InputMode::Browse;
    }

    /// Terminal size requested with the session: zero means the default 80 by 24;
    /// other sizes are taken modulo 2^16, as `as u16` does.
    pub fn pty_size(&mut self, cols: u32, rows: u32)
        requires
            old(self).wf(),
        ensures
            final(self)@ == (SessionView {
                width: if cols > 0 {
                    (cols % 65536) as u16
                } else {
                    80
                },
                height: if rows > 0 {
                    (rows % 65536) as u16
                } else {
                    24
                },
                ..old(self)@
            }),
            final(self).wf(),
    {
        self.width = if cols > 0 {
            crate::text::low_u16(cols)
        } else {
            80
        };
        self.height = if rows > 0 {
            crate::text::low_u16(rows)
        } else {
            24
        };
    }

    /// The terminal was resized (sizes taken modulo 2^16, as `as u16` does).
    pub fn window_resized(&mut self, cols: u32, rows: u32)
        requires
            old(self).wf(),
        ensures
            final(self)@ == (SessionView {
                width: (cols % 65536) as u16,
                height: (rows % 65536) as u16,
                ..old(self)@
            }),
            final(self).wf(),
    {
        self.width = crate::text::low_u16(cols);
        self.height = crate::text::low_u16(rows);
    }

    /// Indices of the confessions the canvas shows.
    pub fn visible_indices(&self) -> (v: Vec<usize>)
        requires
            self.wf(),
            self.cam_x + self.width <= i64::MAX,
            self.cam_y + canvas_rows(self@) <= i64::MAX,
        ensures
            v@ == visible_now(self@),
    {
        visible_confessions(
            self.confessions.as_slice(),
            self.cam_x,
            self.cam_y,
            self.width,
            self.height.saturating_sub(1),
        )
    }

    /// Points the camera where a viewer starts (see `best_camera`) and selects the
    /// first confession it shows.
    pub fn center_camera(&mut self)
        requires
            old(self).wf(),
            forall|i: int|
                0 <= i < old(self)@.confessions.len() ==> crate::canvas::camera_fits(
                    #[trigger] old(self)@.confessions[i],
                    old(self).width as int,
                    old(self).height as int,
                ),
        ensures
            final(self)@ == center_camera(old(self)@),
            final(self).wf(),
    {
        let (cx, cy) = crate::canvas::best_camera(self.confessions.as_slice(), self.width, self.height);
        proof {
            if self.confessions@.len() > 0 {
                assert(self.confessions.len() == self.confessions@.len());
                crate::canvas::lemma_candidates_in_range(self.confessions@);
                lemma_best_scan_bounds(
                    self.confessions@,
                    crate::canvas::camera_candidates(self.confessions@),
                    self.width as int,
                    self.height as int,
                );
            }
        }
        self.cam_x = cx;
        self.cam_y = cy;
        let visible = self.visible_indices();
        if visible.len() > 0 {
            self.selected = Some(visible[0]);
        }
    }
}


/* Laws of the interaction. */

/// Typing ASCII keeps the confession draft within its limit and the reply name within
/// its limit: from a state within both, any event whose character (if any) is ASCII,
/// as every character `parse` produces is, leaves both within them.
#[verifier::spinoff_prover]
pub proof fn law_ascii_typing_keeps_limits(s: SessionView, e: KeyEvent)
    requires
        byte_len(s.compose_buf) <= MAX_LENGTH,
        byte_len(s.reply_name_buf) <= MAX_REPLY_NAME_LENGTH,
        e matches KeyEvent::Char(c) ==> (c as u32) < 0x80,
    ensures
        byte_len(step(s, e).0.compose_buf) <= MAX_LENGTH,
        byte_len(step(s, e).0.reply_name_buf) <= MAX_REPLY_NAME_LENGTH,
{
    lemma_empty_bytes();
    lemma_pop_bound(s.compose_buf);
    lemma_pop_bound(s.reply_name_buf);
    match e {
        KeyEvent::Char(c) => {
            crate::text::lemma_byte_len_push(s.compose_buf, c);
            crate::text::lemma_byte_len_push(s.reply_name_buf, c);
        },
        _ => {},
    }
}

/// On the canvas the keys do what the key table says: `n` writes a confession, space
/// opens the cards (when there are confessions), `/` searches, `T` picks a theme, `?`
/// shows the help, `q` asks before quitting, `hjkl` move the camera (while it stays
/// within the integer range); Enter opens the replies and `f` the reactions of the
/// selected confession, when one is selected.
pub proof fn law_browse_keys(s: SessionView)
    requires
        s.mode == InputMode::Browse,
        i64::MIN <= s.cam_x - CAM_SPEED_X,
        s.cam_x + CAM_SPEED_X <= i64::MAX,
        i64::MIN <= s.cam_y - CAM_SPEED_Y,
        s.cam_y + CAM_SPEED_Y <= i64::MAX,
    ensures
        step(s, KeyEvent::Char('n')).0.mode == InputMode::Compose,
        s.confessions.len() > 0 ==> step(s, KeyEvent::Char(' ')).0.mode == InputMode::CardView,
        step(s, KeyEvent::Char('/')).0.mode == InputMode::Search,
        step(s, KeyEvent::Char('T')).0.mode == InputMode::ThemePicker,
        step(s, KeyEvent::Char('?')).0.mode == InputMode::Help,
        step(s, KeyEvent::Char('q')).0.mode == InputMode::ConfirmQuit,
        step(s, KeyEvent::Char('h')).0.cam_x == s.cam_x - CAM_SPEED_X,
        step(s, KeyEvent::Char('l')).0.cam_x == s.cam_x + CAM_SPEED_X,
        step(s, KeyEvent::Char('k')).0.cam_y == s.cam_y - CAM_SPEED_Y,
        step(s, KeyEvent::Char('j')).0.cam_y == s.cam_y + CAM_SPEED_Y,
        s.selected matches Some(i) ==> (i < s.confessions.len() ==> {
            &&& step(s, KeyEvent::Enter).0.mode == InputMode::ViewReplies
            &&& step(s, KeyEvent::Enter).1 == EffectView::LoadReplies {
                confession_id: s.confessions[i as int].id,
            }
            &&& step(s, KeyEvent::Char('f')).0.mode == InputMode::ReactionPicker
            &&& step(s, KeyEvent::Char('f')).1 == EffectView::LoadReaction {
                confession_id: s.confessions[i as int].id,
            }
        }),
        s.selected is None ==> step(s, KeyEvent::Enter).0.mode == InputMode::Browse && step(
            s,
            KeyEvent::Enter,
        ).1 == EffectView::Nothing,
{
}

/// The session only ends from the quit dialog, confirmed with `q` or Enter.
pub proof fn law_quit_only_when_confirmed(s: SessionView, e: KeyEvent)
    ensures
        step(s, e).1 == EffectView::Quit <==> (s.mode == InputMode::ConfirmQuit && (e
            == KeyEvent::Char('q') || e == KeyEvent::Enter)),
{
}

/// Typing a character into a confession draft that has room, then Backspace,
/// gives back the draft as it was.
pub proof fn law_backspace_undoes_typing(s: SessionView, c: char)
    requires
        s.mode == InputMode::Compose,
        byte_len(s.compose_buf) < MAX_LENGTH,
    ensures
        step(step(s, KeyEvent::Char(c)).0, KeyEvent::Backspace).0.compose_buf == s.compose_buf,
        step(step(s, KeyEvent::Char(c)).0, KeyEvent::Backspace).0.mode == InputMode::Compose,
{
    assert(s.compose_buf.push(c).drop_last() =~= s.compose_buf);
}

/// In the card view, moving right then left comes back to the same card.
pub proof fn law_card_right_left(s: SessionView)
    requires
        s.mode == InputMode::CardView,
        s.confessions.len() > 0,
        s.confessions.len() <= usize::MAX,
        s.card_index < s.confessions.len(),
    ensures
        step(step(s, KeyEvent::Right).0, KeyEvent::Left).0.card_index == s.card_index,
        step(step(s, KeyEvent::Right).0, KeyEvent::Left).0.mode == InputMode::CardView,
{
    lemma_mod_next(s.card_index as int, s.confessions.len() as int);
}

/// In the card view `h` does what Left does and `l` what Right does; `h` shows the
/// previous card (the last one before the first), marks it selected, and stays in the
/// card view, and `l` then `h` comes back to the same card.
pub proof fn law_card_h_goes_back(s: SessionView)
    requires
        s.mode == InputMode::CardView,
        s.confessions.len() > 0,
        s.confessions.len() <= usize::MAX,
        s.card_index < s.confessions.len(),
    ensures
        step(s, KeyEvent::Char('h')) == step(s, KeyEvent::Left),
        step(s, KeyEvent::Char('l')) == step(s, KeyEvent::Right),
        step(s, KeyEvent::Char('h')).0.card_index == if s.card_index == 0 {
            s.confessions.len() - 1
        } else {
            s.card_index - 1
        },
        step(s, KeyEvent::Char('h')).0.selected == Some(step(s, KeyEvent::Char('h')).0.card_index),
        step(s, KeyEvent::Char('h')).0.mode == InputMode::CardView,
        step(s, KeyEvent::Char('h')).1 == EffectView::Nothing,
        step(step(s, KeyEvent::Char('l')).0, KeyEvent::Char('h')).0.card_index == s.card_index,
{
    lemma_mod_next(s.card_index as int, s.confessions.len() as int);
}

/// In the replies view, Down or `j` scrolls one reply further while a later reply
/// remains, and Up or `k` then scrolls back to where it was.
pub proof fn law_replies_scroll(s: SessionView)
    requires
        s.mode == InputMode::ViewReplies,
        s.reply_scroll + 1 < s.replies.len(),
        s.replies.len() <= usize::MAX,
    ensures
        step(s, KeyEvent::Down).0.reply_scroll == s.reply_scroll + 1,
        step(s, KeyEvent::Char('j')).0.reply_scroll == s.reply_scroll + 1,
        step(s, KeyEvent::Down).0.mode == InputMode::ViewReplies,
        step(s, KeyEvent::Char('j')).0.mode == InputMode::ViewReplies,
        step(step(s, KeyEvent::Down).0, KeyEvent::Up).0.reply_scroll == s.reply_scroll,
        step(step(s, KeyEvent::Char('j')).0, KeyEvent::Char('k')).0.reply_scroll == s.reply_scroll,
{
}

/// In the reply composer's name phase Backspace erases the last character of the name
/// and leaves the reply text alone; typing a character that fits and then Backspace
/// gives back the name as it was.
pub proof fn law_reply_name_backspace(s: SessionView, c: char)
    requires
        s.mode == InputMode::ComposeReply,
        s.reply_name_phase,
    ensures
        s.reply_name_buf.len() > 0 ==> step(s, KeyEvent::Backspace).0.reply_name_buf
            == s.reply_name_buf.drop_last(),
        step(s, KeyEvent::Backspace).0.compose_buf == s.compose_buf,
        step(s, KeyEvent::Backspace).0.mode == InputMode::ComposeReply,
        byte_len(s.reply_name_buf) < MAX_REPLY_NAME_LENGTH ==> {
            let t = step(s, KeyEvent::Char(c)).0;
            &&& t.reply_name_buf == s.reply_name_buf.push(c)
            &&& t.compose_buf == s.compose_buf
            &&& step(t, KeyEvent::Backspace).0.reply_name_buf == s.reply_name_buf
            &&& step(t, KeyEvent::Backspace).0.compose_buf == s.compose_buf
        },
{
    assert(s.reply_name_buf.push(c).drop_last() =~= s.reply_name_buf);
}

/// In search mode Backspace removes the last character of the query, and typing a
/// character then Backspace gives back the query as it was.
pub proof fn law_search_backspace(s: SessionView, c: char)
    requires
        s.mode == InputMode::Search,
    ensures
        s.search_buf.len() > 0 ==> step(s, KeyEvent::Backspace).0.search_buf == s.search_buf.drop_last(),
        s.search_buf.len() == 0 ==> step(s, KeyEvent::Backspace).0.search_buf.len() == 0,
        step(s, KeyEvent::Backspace).0.mode == InputMode::Search,
        step(s, KeyEvent::Char(c)).0.search_buf == s.search_buf.push(c),
        step(step(s, KeyEvent::Char(c)).0, KeyEvent::Backspace).0.search_buf == s.search_buf,
{
    assert(s.search_buf.push(c).drop_last() =~= s.search_buf);
}

/// In the reaction picker Escape goes back where the picker was opened from and stores
/// nothing; a reaction is only ever stored from the picker, with Enter.
#[verifier::spinoff_prover]
pub proof fn law_reaction_only_on_enter(s: SessionView, e: KeyEvent)
    ensures
        s.mode == InputMode::ReactionPicker ==> step(s, KeyEvent::Escape).1 == EffectView::Nothing
            && step(s, KeyEvent::Escape).0.mode == s.reaction_return_mode,
        step(s, e).1 is SetReaction ==> s.mode == InputMode::ReactionPicker && e == KeyEvent::Enter,
{
}

/// In the replies view Up or `k` scrolls one reply back (not past the first), and Down
/// or `j` on the last reply stays there.
pub proof fn law_replies_scroll_back(s: SessionView)
    requires
        s.mode == InputMode::ViewReplies,
        s.replies.len() <= usize::MAX,
    ensures
        s.reply_scroll > 0 ==> step(s, KeyEvent::Up).0.reply_scroll + 1 == s.reply_scroll,
        s.reply_scroll > 0 ==> step(s, KeyEvent::Char('k')).0.reply_scroll + 1 == s.reply_scroll,
        s.reply_scroll == 0 ==> step(s, KeyEvent::Up).0.reply_scroll == 0,
        s.reply_scroll + 1 >= s.replies.len() ==> step(s, KeyEvent::Down).0.reply_scroll == s.reply_scroll,
        step(s, KeyEvent::Up).0.mode == InputMode::ViewReplies,
        step(s, KeyEvent::Up).1 == EffectView::Nothing,
        step(s, KeyEvent::Down).1 == EffectView::Nothing,
{
}

/// In the reply composer's text phase Backspace erases the last character of the reply
/// text and leaves the name alone; typing a character that fits and then Backspace
/// gives back the text as it was.
pub proof fn law_reply_text_backspace(s: SessionView, c: char)
    requires
        s.mode == InputMode::ComposeReply,
        !s.reply_name_phase,
    ensures
        s.compose_buf.len() > 0 ==> step(s, KeyEvent::Backspace).0.compose_buf == s.compose_buf.drop_last(),
        step(s, KeyEvent::Backspace).0.reply_name_buf == s.reply_name_buf,
        step(s, KeyEvent::Backspace).0.mode == InputMode::ComposeReply,
        byte_len(s.compose_buf) < REPLY_MAX_LENGTH ==> {
            let t = step(s, KeyEvent::Char(c)).0;
            &&& t.compose_buf == s.compose_buf.push(c)
            &&& t.reply_name_buf == s.reply_name_buf
            &&& step(t, KeyEvent::Backspace).0.compose_buf == s.compose_buf
        },
{
    assert(s.compose_buf.push(c).drop_last() =~= s.compose_buf);
}

/// In the reaction picker the arrows move the highlight over a grid four wide: Left and
/// Right by one (stopping at the ends; Right then Left comes back), Up and Down by a
/// row (stopping at the first and the last reaction), without storing anything.
pub proof fn law_reaction_picker_moves(s: SessionView)
    requires
        s.mode == InputMode::ReactionPicker,
        s.reaction_picker_index < s.reaction_tokens.len() <= usize::MAX,
        s.reaction_picker_index + 4 <= usize::MAX,
    ensures
        ({
            let i = s.reaction_picker_index as int;
            let n = s.reaction_tokens.len() as int;
            &&& i + 1 < n ==> step(s, KeyEvent::Right).0.reaction_picker_index == i + 1
            &&& i + 1 < n ==> step(step(s, KeyEvent::Right).0, KeyEvent::Left).0.reaction_picker_index == i
            &&& i + 1 >= n ==> step(s, KeyEvent::Right).0.reaction_picker_index == i
            &&& i > 0 ==> step(s, KeyEvent::Left).0.reaction_picker_index == i - 1
            &&& i == 0 ==> step(s, KeyEvent::Left).0.reaction_picker_index == 0
            &&& i >= 4 ==> step(s, KeyEvent::Up).0.reaction_picker_index == i - 4
            &&& i < 4 ==> step(s, KeyEvent::Up).0.reaction_picker_index == 0
            &&& i + 4 < n ==> step(s, KeyEvent::Down).0.reaction_picker_index == i + 4
            &&& i + 4 >= n ==> step(s, KeyEvent::Down).0.reaction_picker_index == n - 1
            &&& forall|e: KeyEvent|
                (e == KeyEvent::Left || e == KeyEvent::Right || e == KeyEvent::Up || e == KeyEvent::Down)
                    ==> #[trigger] step(s, e).1 == EffectView::Nothing && step(s, e).0.mode
                    == InputMode::ReactionPicker && step(s, e).0.reaction_picker_index < n
        }),
{
}

/// Among search results Right shows the next result and Left the previous one (both
/// wrapping); the card shown is always the result at the current position, and Right
/// then Left comes back to the same result.
pub proof fn law_search_results_cycle(s: SessionView)
    requires
        s.mode == InputMode::SearchResults,
        s.search_results.len() > 0,
        s.search_results.len() <= usize::MAX,
        s.search_index < s.search_results.len(),
    ensures
        ({
            let r = step(s, KeyEvent::Right).0;
            let n = s.search_results.len() as int;
            &&& r.search_index == if s.search_index + 1 < n { s.search_index + 1 } else { 0 }
            &&& r.card_index == s.search_results[r.search_index as int]
            &&& r.selected == Some(r.card_index)
            &&& r.mode == InputMode::SearchResults
            &&& step(r, KeyEvent::Left).0.search_index == s.search_index
            &&& step(r, KeyEvent::Left).0.card_index == s.search_results[s.search_index as int]
        }),
{
    lemma_mod_next(s.search_index as int, s.search_results.len() as int);
}

/// In the theme picker Enter keeps the highlighted theme, says so and asks for it to be
/// saved; Escape closes the picker without saving.
pub proof fn law_theme_picker_choice(s: SessionView)
    requires
        s.mode == InputMode::ThemePicker,
    ensures
        step(s, KeyEvent::Enter).0.theme_index == s.theme_picker_index,
        step(s, KeyEvent::Enter).1 == (EffectView::SaveTheme { index: s.theme_picker_index }),
        step(s, KeyEvent::Enter).0.mode == return_mode(s),
        step(s, KeyEvent::Escape).0.mode == return_mode(s),
        step(s, KeyEvent::Escape).1 == EffectView::Nothing,
{
}

/// In the card view a click on the left half of the screen does what Left does and a
/// click on the right half what Right does; Escape, `q` and space go back to the
/// canvas with the shown card selected.
pub proof fn law_card_view_click_and_exit(s: SessionView, sx: u16, sy: u16)
    requires
        s.mode == InputMode::CardView,
        s.confessions.len() > 0,
    ensures
        sx < s.width / 2 ==> step(s, KeyEvent::MouseClick(sx, sy)) == step(s, KeyEvent::Left),
        sx >= s.width / 2 ==> step(s, KeyEvent::MouseClick(sx, sy)) == step(s, KeyEvent::Right),
        step(s, KeyEvent::Escape).0.mode == InputMode::Browse,
        step(s, KeyEvent::Escape).0.selected == Some(s.card_index),
        step(s, KeyEvent::Char('q')).0.mode == InputMode::Browse,
        step(s, KeyEvent::Char(' ')).0.mode == InputMode::Browse,
        step(s, KeyEvent::Escape).1 == EffectView::Nothing,
{
}

/// The help closes with Escape, `q`, `?` or Enter, back to where it was opened from;
/// any other key leaves it open and changes nothing.
pub proof fn law_help_closes(s: SessionView, e: KeyEvent)
    requires
        s.mode == InputMode::Help,
    ensures
        (e == KeyEvent::Escape || e == KeyEvent::Char('q') || e == KeyEvent::Char('?') || e
            == KeyEvent::Enter) ==> step(s, e).0.mode == s.help_return_mode,
        !(e == KeyEvent::Escape || e == KeyEvent::Char('q') || e == KeyEvent::Char('?') || e
            == KeyEvent::Enter) ==> step(s, e).0 == s,
        step(s, e).1 == EffectView::Nothing,
{
}

/// In the quit dialog any key other than `q` or Enter goes back to the canvas.
pub proof fn law_quit_dialog_stays(s: SessionView, e: KeyEvent)
    requires
        s.mode == InputMode::ConfirmQuit,
        e != KeyEvent::Char('q'),
        e != KeyEvent::Enter,
    ensures
        step(s, e).0.mode == InputMode::Browse,
        step(s, e).1 == EffectView::Nothing,
{
}

proof fn lemma_mod_next(i: int, n: int)
    requires
        0 <= i < n,
    ensures
        (i + 1) % n == if i + 1 < n {
            i + 1
        } else {
            0
        },
{
    if i + 1 < n {
        vstd::arithmetic::div_mod::lemma_small_mod((i + 1) as nat, n as nat);
    } else {
        vstd::arithmetic::div_mod::lemma_mod_self_0(n);
    }
}

/// In the theme picker, moving down then up comes back to the same theme.
pub proof fn law_theme_down_up(s: SessionView)
    requires
        wf(s),
        s.mode == InputMode::ThemePicker,
        s.theme_names.len() <= usize::MAX,
    ensures
        step(step(s, KeyEvent::Down).0, KeyEvent::Up).0.theme_index == s.theme_picker_index,
        step(step(s, KeyEvent::Down).0, KeyEvent::Up).0.theme_picker_index == s.theme_picker_index,
{
    lemma_mod_next(s.theme_picker_index as int, s.theme_names.len() as int);
}

/// Escape leaves a confession draft: the draft is discarded and nothing is posted.
pub proof fn law_escape_discards_draft(s: SessionView)
    requires
        s.mode == InputMode::Compose,
    ensures
        step(s, KeyEvent::Escape).0.compose_buf.len() == 0,
        step(s, KeyEvent::Escape).0.mode == return_mode(s),
        step(s, KeyEvent::Escape).1 == EffectView::Nothing,
{
}

/// A confession is only handed on for posting when its trimmed text is non-empty,
/// within the length limit and free of blocked phrases.
#[verifier::spinoff_prover]
pub proof fn law_posted_confessions_are_valid(s: SessionView, e: KeyEvent)
    ensures
        step(s, e).1 matches EffectView::PostConfession { text } ==> {
            &&& text.len() > 0
            &&& byte_len(text) <= MAX_LENGTH
            &&& allowed(text)
            &&& text == trim(s.compose_buf)
        },
{
}

/// A reply is only handed on for posting when its trimmed text is non-empty,
/// within the reply limit and free of blocked phrases.
#[verifier::spinoff_prover]
pub proof fn law_posted_replies_are_valid(s: SessionView, e: KeyEvent)
    ensures
        step(s, e).1 matches EffectView::PostReply { text, .. } ==> {
            &&& text.len() > 0
            &&& byte_len(text) <= REPLY_MAX_LENGTH
            &&& allowed(text)
        },
{
}

pub proof fn lemma_search_hits(cs: Seq<Confession>, q: Seq<char>, n: nat)
    requires
        n <= cs.len(),
        n <= usize::MAX,
    ensures
        forall|k: int|
            0 <= k < search_hits(cs, q, n).len() ==> {
                let i = #[trigger] search_hits(cs, q, n)[k];
                i < n && contains(lowercase(cs[i as int].text@), q)
            },
        forall|i: int|
            0 <= i < n && contains(lowercase(cs[i].text@), q) ==> search_hits(cs, q, n).contains(
                i as usize,
            ),
    decreases n,
{
    if n > 0 {
        lemma_search_hits(cs, q, (n - 1) as nat);
        let p = search_hits(cs, q, (n - 1) as nat);
        let r = search_hits(cs, q, n);
        if contains(lowercase(cs[n - 1].text@), q) {
            assert(r == p.push((n - 1) as usize));
            assert forall|k: int| 0 <= k < r.len() implies {
                let i = #[trigger] r[k];
                i < n && contains(lowercase(cs[i as int].text@), q)
            } by {
                if k < p.len() {
                    assert(r[k] == p[k]);
                }
            }
            assert forall|i: int| 0 <= i < n && contains(lowercase(cs[i].text@), q) implies r.contains(
                i as usize,
            ) by {
                if i < n - 1 {
                    let k = choose|k: int| 0 <= k < p.len() && p[k] == i as usize;
                    assert(r[k] == p[k]);
                } else {
                    assert(r[r.len() - 1] == i as usize);
                }
            }
        }
    }
}

/// Searching finds exactly the confessions whose lowercased text contains the
/// lowercased query, and the results view opens on the first of them.
pub proof fn law_search_finds_matches(s: SessionView)
    requires
        s.mode == InputMode::Search,
        s.confessions.len() <= usize::MAX,
        lowercase(s.search_buf).len() > 0,
    ensures
        ({
            let r = step(s, KeyEvent::Enter).0;
            let q = lowercase(s.search_buf);
            &&& forall|k: int|
                0 <= k < r.search_results.len() ==> {
                    let i = #[trigger] r.search_results[k];
                    i < s.confessions.len() && contains(lowercase(s.confessions[i as int].text@), q)
                }
            &&& forall|i: int|
                0 <= i < s.confessions.len() && contains(lowercase(s.confessions[i].text@), q)
                    ==> r.search_results.contains(i as usize)
            &&& r.search_results.len() > 0 ==> r.mode == InputMode::SearchResults && r.card_index
                == r.search_results[0]
        }),
{
    lemma_search_hits(s.confessions, lowercase(s.search_buf), s.confessions.len());
}

/// Tab on the canvas selects a confession the canvas shows, when it shows any.
pub proof fn law_tab_selects_visible(s: SessionView)
    requires
        s.mode == InputMode::Browse,
        s.confessions.len() <= usize::MAX,
    ensures
        ({
            let r = step(s, KeyEvent::Tab).0;
            &&& visible_now(s).len() > 0 ==> (r.selected matches Some(i) && visible_now(s).contains(i))
            &&& visible_now(s).len() == 0 ==> r.selected is None
        }),
{
    let s1 = if clears_message(s, KeyEvent::Tab) {
        SessionView { message: None, ..s }
    } else {
        s
    };
    assert(visible_now(s1) == visible_now(s));
    let v = visible_now(s);
    if v.len() > 0 {
        match s.selected {
            None => assert(v.contains(v[0])),
            Some(cur) => match position_from(v, cur, 0) {
                Some(p) => {
                    let k = ((p + 1) % v.len()) as int;
                    assert(v.contains(v[k]));
                },
                None => assert(v.contains(v[0])),
            },
        }
    }
}

/* What a frame is drawn from. */

/// Everything one frame of the interface is drawn from.
pub struct RenderState<'a> {
    pub confessions: &'a [Confession],
    pub cam_x: i64,
    pub cam_y: i64,
    pub selected: Option<usize>,
    pub mode: InputMode,
    pub reaction_return_mode: InputMode,
    pub compose_buf: &'a str,
    pub reply_name_buf: &'a str,
    pub reply_name_phase: bool,
    pub message: Option<&'a str>,
    pub total_confessions: i64,
    pub total_humans: i64,
    pub online: usize,
    pub replies: &'a [Reply],
    pub viewing_confession: Option<&'a Confession>,
    pub reply_scroll: usize,
    pub card_index: usize,
    pub came_from_card: bool,
    pub created_confession: bool,
    pub search_buf: &'a str,
    pub search_result_count: usize,
    pub search_index: usize,
    pub splash_frame: u8,
    pub theme_index: usize,
    pub theme_picker_index: usize,
    pub reaction_picker_index: usize,
    pub render_tick: u64,
}

impl Session {
    /// The frame description for the current state, with the site totals, the number
    /// of viewers online and the animation tick supplied by the caller.
    pub fn render_state(
        &self,
        total_confessions: i64,
        total_humans: i64,
        online: usize,
        render_tick: u64,
    ) -> (r: RenderState<'_>)
        ensures
            r.confessions@ == self.confessions@,
            r.cam_x == self.cam_x && r.cam_y == self.cam_y,
            r.selected == self.selected,
            r.mode == self.mode,
            r.reaction_return_mode == self.reaction_return_mode,
            r.compose_buf@ == self.compose_buf@,
            r.reply_name_buf@ == self.reply_name_buf@,
            r.reply_name_phase == self.reply_name_phase,
            match r.message {
                Some(m) => self.message matches Some(own) && m@ == own@,
                None => self.message is None,
            },
            r.total_confessions == total_confessions,
            r.total_humans == total_humans,
            r.online == online,
            r.replies@ == self.replies@,
            match self.viewing_confession {
                Some(i) => if i < self.confessions@.len() {
                    r.viewing_confession == Some(&self.confessions@[i as int])
                } else {
                    r.viewing_confession is None
                },
                None => r.viewing_confession is None,
            },
            r.reply_scroll == self.reply_scroll,
            r.card_index == self.card_index,
            r.came_from_card == self.came_from_card,
            r.created_confession == self.created_confession,
            r.search_buf@ == self.search_buf@,
            r.search_result_count == self.search_results@.len(),
            r.search_index == self.search_index,
            r.splash_frame == self.splash_frame,
            r.theme_index == self.theme_index,
            r.theme_picker_index == self.theme_picker_index,
            r.reaction_picker_index == self.reaction_picker_index,
            r.render_tick == render_tick,
    {
        let viewing = match self.viewing_confession {
            Some(i) => if i < self.confessions.len() {
                Some(&self.confessions[i])
            } else {
                None
            },
            None => None,
        };
        let message = match &self.message {
            Some(m) => Some(m.as_str()),
            None => None,
        };
        RenderState {
            confessions: self.confessions.as_slice(),
            cam_x: self.cam_x,
            cam_y: self.cam_y,
            selected: self.selected,
            mode: self.mode,
            reaction_return_mode: self.reaction_return_mode,
            compose_buf: self.compose_buf.as_str(),
            reply_name_buf: self.reply_name_buf.as_str(),
            reply_name_phase: self.reply_name_phase,
            message,
            total_confessions,
            total_humans,
            online,
            replies: self.replies.as_slice(),
            viewing_confession: viewing,
            reply_scroll: self.reply_scroll,
            card_index: self.card_index,
            came_from_card: self.came_from_card,
            created_confession: self.created_confession,
            search_buf: self.search_buf.as_str(),
            search_result_count: self.search_results.len(),
            search_index: self.search_index,
            splash_frame: self.splash_frame,
            theme_index: self.theme_index,
            theme_picker_index: self.theme_picker_index,
            reaction_picker_index: self.reaction_picker_index,
            render_tick,
        }
    }
}

} // verus!
