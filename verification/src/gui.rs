//! The desktop client's decision layer: chat-panel placement, splitter
//! sizes, full-screen window-state arithmetic, key-binding defaults and
//! window-list searches. The windowing toolkit applies these decisions; it
//! contributes no logic of its own.

use vstd::prelude::*;

use crate::text::{copy_bytes, has_prefix, sub_bytes};
use vstd::string::StringSliceAdditionalSpecFns;

verus! {

/// Which side of the player the chat panel stands on.
#[derive(Clone, Copy, PartialEq, Eq, Structural, Debug)]
pub enum ChatPosition {
    Left,
    Right,
}

/// Whether the chat panel is shown, and where.
#[derive(Clone, Copy, PartialEq, Eq, Structural, Debug)]
pub enum ChatState {
    Visible(ChatPosition),
    Hidden,
}

/// What toggling the chat to a side does: a hidden chat appears there; a
/// chat already on that side hides; a chat on the other side moves over.
pub open spec fn spec_toggle_chat(state: ChatState, new_position: ChatPosition) -> ChatState {
    match state {
        ChatState::Hidden => ChatState::Visible(new_position),
        ChatState::Visible(position) => {
            if position == new_position {
                ChatState::Hidden
            } else {
                ChatState::Visible(new_position)
            }
        },
    }
}

/// Applies one chat toggle.
pub fn toggle_chat_state(state: &ChatState, new_position: ChatPosition) -> (r: ChatState)
    ensures
        r == spec_toggle_chat(*state, new_position),
{
    match state {
        ChatState::Hidden => ChatState::Visible(new_position),
        ChatState::Visible(position) => {
            if *position == new_position {
                ChatState::Hidden
            } else {
                ChatState::Visible(new_position)
            }
        },
    }
}

/// The two panes' sizes, in the splitter's units.
#[derive(Clone, Copy, PartialEq, Eq, Structural, Debug)]
pub struct WidgetSizes {
    pub chat: i32,
    pub player: i32,
}

/// The split layout's state: where the chat stands, the sizes to restore
/// when it reappears, and which pane the splitter holds first.
pub struct Layout {
    pub chat_state: ChatState,
    pub widget_sizes: WidgetSizes,
}

impl Layout {
    /// The sizes a freshly built layout starts with.
    pub fn new() -> (r: Layout)
        ensures
            r.chat_state == ChatState::Visible(ChatPosition::Right),
            r.widget_sizes == (WidgetSizes { chat: 20, player: 80 }),
    {
        Layout {
            chat_state: ChatState::Visible(ChatPosition::Right),
            widget_sizes: WidgetSizes { chat: 20, player: 80 },
        }
    }

    /// The pane order the splitter must arrange: the player's index and
    /// the chat's, as the chat's position dictates; a hidden chat keeps
    /// the current arrangement.
    pub fn arrangement(&self) -> (r: Option<(usize, usize)>)
        ensures
            r == (match self.chat_state {
                ChatState::Visible(ChatPosition::Left) => Some((1usize, 0usize)),
                ChatState::Visible(ChatPosition::Right) => Some((0usize, 1usize)),
                ChatState::Hidden => None::<(usize, usize)>,
            }),
    {
        match self.chat_state {
            ChatState::Visible(ChatPosition::Left) => Some((1, 0)),
            ChatState::Visible(ChatPosition::Right) => Some((0, 1)),
            ChatState::Hidden => None,
        }
    }

    /// Toggles the chat panel, remembering the sizes the splitter reports
    /// when the chat is being hidden so they return with it.
    pub fn toggle_chat(&mut self, position: ChatPosition, queried_sizes: WidgetSizes)
        ensures
            final(self).chat_state == spec_toggle_chat(old(self).chat_state, position),
            final(self).widget_sizes == (if spec_toggle_chat(old(self).chat_state, position)
                == ChatState::Hidden {
                queried_sizes
            } else {
                old(self).widget_sizes
            }),
    {
        self.chat_state = toggle_chat_state(&self.chat_state, position);
        match self.chat_state {
            ChatState::Hidden => {
                self.widget_sizes = queried_sizes;
            },
            _ => {},
        }
    }

    /// The sizes to hand the splitter now: the remembered pair while the
    /// chat shows, the whole width to the player while it hides.
    pub fn sizes_to_apply(&self) -> (r: WidgetSizes)
        ensures
            r == (match self.chat_state {
                ChatState::Hidden => WidgetSizes { chat: 0, player: 100 },
                _ => self.widget_sizes,
            }),
    {
        match self.chat_state {
            ChatState::Hidden => WidgetSizes { chat: 0, player: 100 },
            _ => self.widget_sizes,
        }
    }
}

/// The size list handed to the splitter: each pane's size at its index.
pub fn resize_splitter(player_first: bool, sizes: WidgetSizes) -> (r: Vec<i32>)
    ensures
        r@ == (if player_first {
            seq![sizes.player, sizes.chat]
        } else {
            seq![sizes.chat, sizes.player]
        }),
{
    let mut out: Vec<i32> = Vec::new();
    if player_first {
        out.push(sizes.player);
        out.push(sizes.chat);
        proof {
            assert(out@ =~= seq![sizes.player, sizes.chat]);
        }
    } else {
        out.push(sizes.chat);
        out.push(sizes.player);
        proof {
            assert(out@ =~= seq![sizes.chat, sizes.player]);
        }
    }
    out
}

/// The window-state word after toggling full screen: the full-screen bit
/// cleared when it was set, set when it was not.
pub fn toggle_full_screen(window_state: u32, full_screen_flag: u32, is_full_screen: bool) -> (r:
    u32)
    ensures
        r == (if is_full_screen {
            window_state & !full_screen_flag
        } else {
            window_state | full_screen_flag
        }),
{
    if is_full_screen {
        window_state & !full_screen_flag
    } else {
        window_state | full_screen_flag
    }
}

/// One top-level window as the native enumeration reports it: its handle,
/// and its title and owning process where the system yielded them.
pub struct WindowInfo {
    pub handle: u64,
    pub title: Option<Vec<u8>>,
    pub pid: Option<u32>,
}

/// Whether window `i` carries the wanted title.
pub open spec fn title_matches(w: crate::gui::WindowInfo, name: Seq<u8>) -> bool {
    match w.title {
        Some(t) => t@ == name,
        None => false,
    }
}

/// Whether window `i` belongs to the wanted process.
pub open spec fn pid_matches(w: crate::gui::WindowInfo, pid: u32) -> bool {
    w.pid == Some(pid)
}

/// The first enumerated window carrying the wanted title, as the native
/// enumeration with an early-exit callback finds it.
pub fn find_window_by_name(windows: &Vec<WindowInfo>, name: &[u8]) -> (r: Option<u64>)
    ensures
        match r {
            Some(h) => exists|i: int|
                0 <= i < windows@.len() && title_matches(#[trigger] windows@[i], name@)
                    && windows@[i].handle == h && forall|j: int|
                    0 <= j < i ==> !title_matches(#[trigger] windows@[j], name@),
            None => forall|i: int|
                0 <= i < windows@.len() ==> !title_matches(#[trigger] windows@[i], name@),
        },
{
    let mut i: usize = 0;
    while i < windows.len()
        invariant
            i <= windows@.len(),
            forall|j: int| 0 <= j < i ==> !title_matches(#[trigger] windows@[j], name@),
        decreases windows@.len() - i,
    {
        let matched = match &windows[i].title {
            Some(t) => crate::text::bytes_eq(t.as_slice(), name),
            None => false,
        };
        if matched {
            return Some(windows[i].handle);
        }
        i = i + 1;
    }
    None
}

/// The first enumerated window owned by the wanted process.
pub fn find_window_by_pid(windows: &Vec<WindowInfo>, pid: u32) -> (r: Option<u64>)
    ensures
        match r {
            Some(h) => exists|i: int|
                0 <= i < windows@.len() && pid_matches(#[trigger] windows@[i], pid)
                    && windows@[i].handle == h && forall|j: int|
                    0 <= j < i ==> !pid_matches(#[trigger] windows@[j], pid),
            None => forall|i: int|
                0 <= i < windows@.len() ==> !pid_matches(#[trigger] windows@[i], pid),
        },
{
    let mut i: usize = 0;
    while i < windows.len()
        invariant
            i <= windows@.len(),
            forall|j: int| 0 <= j < i ==> !pid_matches(#[trigger] windows@[j], pid),
        decreases windows@.len() - i,
    {
        let matched = match windows[i].pid {
            Some(p) => p == pid,
            None => false,
        };
        if matched {
            return Some(windows[i].handle);
        }
        i = i + 1;
    }
    None
}

/// A message from the desktop shell to its player thread.
pub enum PlayerMessage {
    AppQuit,
}

/// A message from the player thread back to the desktop shell.
pub enum GuiMessage {
    PlayerError(Vec<u8>),
    CanExit,
}

/// One helper process to launch: the command, its arguments, and the
/// window title to look for once it runs.
pub struct ProcessConfig {
    pub command: Vec<u8>,
    pub args: Vec<Vec<u8>>,
    pub window_title_hint: Vec<u8>,
}

/// The desktop client's configuration.
pub struct Config {
    pub video_player: ProcessConfig,
    pub chat_renderer: ProcessConfig,
    pub keybinds: Option<KeyBinds>,
}

/// The configured key bindings; an absent one falls back to its default.
pub struct KeyBinds {
    pub fullscreen: Option<Vec<u8>>,
    pub chat_toggle_left: Option<Vec<u8>>,
    pub chat_toggle_right: Option<Vec<u8>>,
    pub change_channel: Option<Vec<u8>>,
}

/// A configured binding, or its default.
pub open spec fn binding_or(configured: Option<Vec<u8>>, default: Seq<u8>) -> Seq<u8> {
    match configured {
        Some(b) => b@,
        None => default,
    }
}

impl KeyBinds {
    /// All bindings absent: every key falls back to its default.
    pub fn new() -> (r: KeyBinds)
        ensures
            r.fullscreen is None,
            r.chat_toggle_left is None,
            r.chat_toggle_right is None,
            r.change_channel is None,
    {
        KeyBinds {
            fullscreen: None,
            chat_toggle_left: None,
            chat_toggle_right: None,
            change_channel: None,
        }
    }

    /// The full-screen key sequence; `F11` by default.
    pub fn fullscreen_binding(&self) -> (r: Vec<u8>)
        ensures
            r@ == binding_or(self.fullscreen, "F11".spec_bytes()),
    {
        match &self.fullscreen {
            Some(b) => copy_bytes(b.as_slice()),
            None => copy_bytes("F11".as_bytes()),
        }
    }

    /// The toggle-chat-left key sequence; `Ctrl+Left` by default.
    pub fn chat_toggle_left_binding(&self) -> (r: Vec<u8>)
        ensures
            r@ == binding_or(self.chat_toggle_left, "Ctrl+Left".spec_bytes()),
    {
        match &self.chat_toggle_left {
            Some(b) => copy_bytes(b.as_slice()),
            None => copy_bytes("Ctrl+Left".as_bytes()),
        }
    }

    /// The toggle-chat-right key sequence; `Ctrl+Right` by default.
    pub fn chat_toggle_right_binding(&self) -> (r: Vec<u8>)
        ensures
            r@ == binding_or(self.chat_toggle_right, "Ctrl+Right".spec_bytes()),
    {
        match &self.chat_toggle_right {
            Some(b) => copy_bytes(b.as_slice()),
            None => copy_bytes("Ctrl+Right".as_bytes()),
        }
    }

    /// The change-channel key sequence; `Ctrl+O` by default.
    pub fn change_channel_binding(&self) -> (r: Vec<u8>)
        ensures
            r@ == binding_or(self.change_channel, "Ctrl+O".spec_bytes()),
    {
        match &self.change_channel {
            Some(b) => copy_bytes(b.as_slice()),
            None => copy_bytes("Ctrl+O".as_bytes()),
        }
    }
}

/// `s` with every occurrence of `pat` replaced by `rep`, leftmost first,
/// never overlapping.
pub open spec fn spec_replace_all(s: Seq<u8>, pat: Seq<u8>, rep: Seq<u8>) -> Seq<u8>
    decreases s.len(),
{
    if s.len() == 0 {
        s
    } else if pat.len() > 0 && has_prefix(s, pat) {
        rep + spec_replace_all(s.skip(pat.len() as int), pat, rep)
    } else {
        seq![s[0]] + spec_replace_all(s.skip(1), pat, rep)
    }
}

/// Substitutes a placeholder in one process argument.
pub fn replace_all(s: &[u8], pat: &[u8], rep: &[u8]) -> (r: Vec<u8>)
    ensures
        r@ == spec_replace_all(s@, pat@, rep@),
    decreases s@.len(),
{
    if s.len() == 0 {
        Vec::new()
    } else if pat.len() > 0 && crate::text::starts_with(s, pat) {
        let rest = replace_all(sub_bytes(s, pat.len(), s.len()).as_slice(), pat, rep);
        proof {
            assert(s@.subrange(pat@.len() as int, s@.len() as int) =~= s@.skip(
                pat@.len() as int,
            ));
        }
        let mut out = copy_bytes(rep);
        crate::api::append_bytes(&mut out, rest.as_slice());
        out
    } else {
        let rest = replace_all(sub_bytes(s, 1, s.len()).as_slice(), pat, rep);
        proof {
            assert(s@.subrange(1, s@.len() as int) =~= s@.skip(1));
        }
        let mut out: Vec<u8> = Vec::new();
        out.push(s[0]);
        crate::api::append_bytes(&mut out, rest.as_slice());
        proof {
            assert(out@ =~= seq![s@[0]] + rest@);
        }
        out
    }
}

/// The arguments to launch a helper process with: each configured
/// argument with the channel-name placeholder substituted.
pub fn prepare_args(config: &ProcessConfig, channel: &[u8]) -> (r: Vec<Vec<u8>>)
    ensures
        r@.len() == config.args@.len(),
        forall|i: int|
            0 <= i < r@.len() ==> (#[trigger] r@[i])@ == spec_replace_all(
                config.args@[i]@,
                "{channel_name}".spec_bytes(),
                channel@,
            ),
{
    let mut out: Vec<Vec<u8>> = Vec::new();
    let mut i: usize = 0;
    while i < config.args.len()
        invariant
            i <= config.args@.len(),
            out@.len() == i,
            forall|j: int|
                0 <= j < i ==> (#[trigger] out@[j])@ == spec_replace_all(
                    config.args@[j]@,
                    "{channel_name}".spec_bytes(),
                    channel@,
                ),
        decreases config.args@.len() - i,
    {
        let replaced = replace_all(
            config.args[i].as_slice(),
            "{channel_name}".as_bytes(),
            channel,
        );
        out.push(replaced);
        i = i + 1;
    }
    out
}

} // verus!
