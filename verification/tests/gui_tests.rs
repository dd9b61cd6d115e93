use twitchd::gui::{
    find_window_by_name, find_window_by_pid, prepare_args, replace_all, resize_splitter,
    toggle_chat_state, toggle_full_screen, ChatPosition, ChatState, KeyBinds, Layout,
    ProcessConfig, WidgetSizes, WindowInfo,
};

#[test]
fn chat_toggling_moves_hides_and_restores() {
    let visible_right = ChatState::Visible(ChatPosition::Right);
    // Toggling to the side the chat is on hides it.
    assert_eq!(
        toggle_chat_state(&visible_right, ChatPosition::Right),
        ChatState::Hidden
    );
    // Toggling to the other side moves it.
    assert_eq!(
        toggle_chat_state(&visible_right, ChatPosition::Left),
        ChatState::Visible(ChatPosition::Left)
    );
    // Toggling a hidden chat shows it on the requested side.
    assert_eq!(
        toggle_chat_state(&ChatState::Hidden, ChatPosition::Left),
        ChatState::Visible(ChatPosition::Left)
    );
}

#[test]
fn layout_remembers_sizes_across_hide_and_show() {
    let mut layout = Layout::new();
    assert_eq!(layout.arrangement(), Some((0, 1)));
    assert_eq!(layout.sizes_to_apply(), WidgetSizes { chat: 20, player: 80 });

    // Hiding the chat records what the splitter reported and gives the
    // player the whole width.
    layout.toggle_chat(ChatPosition::Right, WidgetSizes { chat: 35, player: 65 });
    assert_eq!(layout.arrangement(), None);
    assert_eq!(layout.sizes_to_apply(), WidgetSizes { chat: 0, player: 100 });

    // Showing it again restores the recorded sizes.
    layout.toggle_chat(ChatPosition::Left, WidgetSizes { chat: 0, player: 100 });
    assert_eq!(layout.arrangement(), Some((1, 0)));
    assert_eq!(layout.sizes_to_apply(), WidgetSizes { chat: 35, player: 65 });
}

#[test]
fn splitter_sizes_follow_the_pane_order() {
    assert_eq!(
        resize_splitter(true, WidgetSizes { chat: 20, player: 80 }),
        vec![80, 20]
    );
    assert_eq!(
        resize_splitter(false, WidgetSizes { chat: 20, player: 80 }),
        vec![20, 80]
    );
}

#[test]
fn full_screen_toggle_flips_exactly_the_flag() {
    let flag = 0x4;
    assert_eq!(toggle_full_screen(0x5, flag, true), 0x1);
    assert_eq!(toggle_full_screen(0x1, flag, false), 0x5);
    // Toggling twice returns to the start.
    let once = toggle_full_screen(0x9, flag, false);
    assert_eq!(toggle_full_screen(once, flag, true), 0x9);
}

#[test]
fn window_searches_take_the_first_match() {
    let windows = vec![
        WindowInfo {
            handle: 1,
            title: None,
            pid: Some(100),
        },
        WindowInfo {
            handle: 2,
            title: Some(b"Twitch".to_vec()),
            pid: Some(200),
        },
        WindowInfo {
            handle: 3,
            title: Some(b"Twitch".to_vec()),
            pid: Some(300),
        },
    ];
    assert_eq!(find_window_by_name(&windows, b"Twitch"), Some(2));
    assert_eq!(find_window_by_name(&windows, b"Other"), None);
    assert_eq!(find_window_by_pid(&windows, 300), Some(3));
    assert_eq!(find_window_by_pid(&windows, 999), None);
}

#[test]
fn keybinds_fall_back_to_their_defaults() {
    let binds = KeyBinds::new();
    assert_eq!(binds.fullscreen_binding(), b"F11".to_vec());
    assert_eq!(binds.chat_toggle_left_binding(), b"Ctrl+Left".to_vec());
    assert_eq!(binds.chat_toggle_right_binding(), b"Ctrl+Right".to_vec());
    assert_eq!(binds.change_channel_binding(), b"Ctrl+O".to_vec());

    let binds = KeyBinds {
        fullscreen: Some(b"F10".to_vec()),
        chat_toggle_left: None,
        chat_toggle_right: None,
        change_channel: None,
    };
    assert_eq!(binds.fullscreen_binding(), b"F10".to_vec());
}

#[test]
fn process_arguments_substitute_the_channel_placeholder() {
    assert_eq!(
        replace_all(b"play {channel_name} now", b"{channel_name}", b"chan"),
        b"play chan now".to_vec()
    );
    assert_eq!(replace_all(b"aaa", b"a", b"bb"), b"bbbbbb".to_vec());

    let config = ProcessConfig {
        command: b"player".to_vec(),
        args: vec![
            b"--input".to_vec(),
            b"http://localhost:7777/play?channel={channel_name}".to_vec(),
        ],
        window_title_hint: b"Player".to_vec(),
    };
    let args = prepare_args(&config, b"somechannel");
    assert_eq!(args[0], b"--input".to_vec());
    assert_eq!(
        args[1],
        b"http://localhost:7777/play?channel=somechannel".to_vec()
    );
}
