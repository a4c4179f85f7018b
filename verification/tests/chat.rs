use nara::chat::{
    channel_index, clock_of_day, message_header, select_shown, team_tag, ChatChannel, ChatPanel, IncomingChat,
    TeamColor, MAX_INPUT_CHARS, MAX_LOG,
};

#[test]
fn channels_and_team_tags() {
    assert_eq!(channel_index(ChatChannel::Global), 0);
    assert_eq!(channel_index(ChatChannel::Team), 1);
    assert_eq!(team_tag(0), ("[Blue]", TeamColor::Blue));
    assert_eq!(team_tag(1), ("[Red]", TeamColor::Red));
    assert_eq!(team_tag(2), ("[Purple]", TeamColor::Purple));
    assert_eq!(team_tag(9), ("[Team]", TeamColor::White));
    let incoming = IncomingChat {
        channel: ChatChannel::Team,
        team: 1,
        sender: "bob".to_string(),
        text: "hi".to_string(),
        timestamp: 5,
    };
    assert_eq!(incoming.channel, ChatChannel::Team);
}

#[test]
fn clock_of_day_handles_offsets_both_ways() {
    // 1970-01-01 13:45 UTC
    assert_eq!(clock_of_day(13 * 3600 + 45 * 60 + 59, 0), (13, 45));
    // UTC+2 reports an offset of -120 minutes
    assert_eq!(clock_of_day(13 * 3600 + 45 * 60, -120), (15, 45));
    // UTC-5 at 02:00 UTC is 21:00 the day before
    assert_eq!(clock_of_day(2 * 3600, 300), (21, 0));
    // 30 s before midnight in that zone: the minute count rounds toward zero
    assert_eq!(clock_of_day(30, 1), (0, 0));
    assert_eq!(clock_of_day(0, 1), (23, 59));
    assert_eq!(clock_of_day(86_400 * 365 + 60, 0), (0, 1));
}

#[test]
fn typing_skips_control_characters_and_stops_at_the_limit() {
    let mut chat: ChatPanel<()> = ChatPanel::new();
    chat.open_input();
    assert!(chat.is_open());
    chat.type_text("he\nllo\t!");
    assert_eq!(chat.submit(), Some("hello!".to_string()));
    assert!(!chat.is_open());
    let long: String = std::iter::repeat('x').take(100).collect();
    chat.type_text("ab");
    chat.type_text(&long);
    let sent = chat.submit().unwrap();
    assert_eq!(sent.chars().count(), MAX_INPUT_CHARS);
    assert!(sent.starts_with("abx"));
}

#[test]
fn backspace_and_empty_submit() {
    let mut chat: ChatPanel<u8> = ChatPanel::new();
    chat.backspace();
    chat.type_text("héllo");
    chat.backspace();
    chat.backspace();
    assert_eq!(chat.submit(), Some("hél".to_string()));
    assert_eq!(chat.submit(), None);
    chat.type_text("\u{1}\u{2}");
    assert_eq!(chat.submit(), None);
}

#[test]
fn switching_channels_and_flashing() {
    let mut chat: ChatPanel<u32> = ChatPanel::new();
    assert_eq!(chat.active_channel(), ChatChannel::Global);
    assert!(!chat.receive(ChatChannel::Global, 1));
    assert!(chat.receive(ChatChannel::Team, 2));
    chat.switch_channel();
    assert_eq!(chat.active_channel(), ChatChannel::Team);
    assert!(chat.receive(ChatChannel::Global, 3));
    chat.set_channel(ChatChannel::Global);
    assert_eq!(chat.messages(ChatChannel::Global), &vec![1, 3]);
    assert_eq!(chat.messages(ChatChannel::Team), &vec![2]);
}

#[test]
fn logs_keep_the_newest_messages() {
    let mut chat: ChatPanel<usize> = ChatPanel::new();
    for i in 0..(MAX_LOG + 5) {
        chat.receive(ChatChannel::Global, i);
    }
    let log = chat.messages(ChatChannel::Global);
    assert_eq!(log.len(), MAX_LOG);
    assert_eq!(log[0], 5);
    assert_eq!(*log.last().unwrap(), MAX_LOG + 4);
    assert!(chat.messages(ChatChannel::Team).is_empty());
}

#[test]
fn shown_messages_newest_first_within_limits() {
    // closed input: invisible messages are skipped
    assert_eq!(select_shown(&vec![1, 1, 1], &vec![true, false, true], false), vec![0, 2]);
    // line budget: stops once 15 lines are reached
    assert_eq!(select_shown(&vec![5, 5, 5, 5], &vec![true; 4], false), vec![1, 2, 3]);
    assert_eq!(select_shown(&vec![1, 20, 1], &vec![true; 3], false), vec![1, 2]);
    // open input: lists up to 9 messages whatever their visibility
    let lines = vec![1usize; 12];
    let hidden = vec![false; 12];
    assert_eq!(select_shown(&lines, &hidden, true), (3..12).collect::<Vec<usize>>());
    assert!(select_shown(&vec![], &vec![], true).is_empty());
}

#[test]
fn switching_twice_restores_the_channel() {
    let mut chat: ChatPanel<()> = ChatPanel::new();
    chat.switch_channel();
    chat.switch_channel();
    assert_eq!(chat.active_channel(), ChatChannel::Global);
}

#[test]
fn message_lines_include_the_header() {
    assert_eq!(nara::chat::message_line_count(true, 2), 2);
    assert_eq!(nara::chat::message_line_count(false, 2), 3);
    assert_eq!(nara::chat::message_line_count(false, 1), 2);
}

#[test]
fn message_headers_mark_system_messages_and_global_tags() {
    let h = message_header(ChatChannel::Global, 2, &"ann".to_string(), 99);
    assert!(!h.is_system);
    assert_eq!(h.tag, Some(("[Purple]", TeamColor::Purple)));
    assert_eq!(h.name, "ann");
    assert_eq!(h.timestamp, 99);
    let h = message_header(ChatChannel::Team, 2, &"ann".to_string(), 5);
    assert_eq!(h.tag, None);
    let h = message_header(ChatChannel::Global, 0, &String::new(), 5);
    assert!(h.is_system);
    assert_eq!(h.tag, None);
    assert_eq!(h.name, "");
}
