use nara::chat::{ChatChannel, ChatPanel};
use nara::controls::{on_key, InputState, Key, KeyEffect};

fn idle() -> InputState {
    InputState {
        move_up: false,
        move_down: false,
        move_left: false,
        move_right: false,
        auto_fire: false,
        upgrade_request: None,
        chat_channel: ChatChannel::Global,
        movement: None,
        chat_message: None,
    }
}

#[test]
fn movement_keys_set_flags_and_direction() {
    let mut input = idle();
    let mut chat: ChatPanel<u8> = ChatPanel::new();
    on_key(&mut input, &mut chat, Key::W, true, None);
    on_key(&mut input, &mut chat, Key::D, true, None);
    assert!(input.move_up && input.move_right);
    assert_eq!(input.movement, Some((1, 1)));
    on_key(&mut input, &mut chat, Key::W, false, None);
    assert_eq!(input.movement, Some((1, 0)));
    on_key(&mut input, &mut chat, Key::Space, true, None);
    assert!(input.auto_fire);
    on_key(&mut input, &mut chat, Key::Digit(3), true, None);
    assert_eq!(input.upgrade_request, Some(3));
    on_key(&mut input, &mut chat, Key::Digit(9), true, None);
    assert_eq!(input.upgrade_request, Some(3));
    assert!(matches!(on_key(&mut input, &mut chat, Key::U, true, None), KeyEffect::ToggleUpgradePanel));
    assert!(matches!(on_key(&mut input, &mut chat, Key::U, false, None), KeyEffect::Nothing));
}

#[test]
fn opening_chat_releases_keys_and_typing_goes_to_chat() {
    let mut input = idle();
    let mut chat: ChatPanel<u8> = ChatPanel::new();
    on_key(&mut input, &mut chat, Key::W, true, None);
    on_key(&mut input, &mut chat, Key::Space, true, None);
    on_key(&mut input, &mut chat, Key::T, true, Some("t"));
    assert!(chat.is_open());
    assert!(!input.move_up && !input.auto_fire);
    assert_eq!(input.movement, None);
    on_key(&mut input, &mut chat, Key::W, true, Some("w"));
    assert!(!input.move_up);
    on_key(&mut input, &mut chat, Key::Other, true, Some("hi"));
    on_key(&mut input, &mut chat, Key::Backspace, true, None);
    on_key(&mut input, &mut chat, Key::Tab, true, None);
    assert_eq!(input.chat_channel, ChatChannel::Team);
    let effect = on_key(&mut input, &mut chat, Key::Enter, true, None);
    match effect {
        KeyEffect::EchoChat(channel, text) => {
            assert_eq!(channel, ChatChannel::Team);
            assert_eq!(text, "wh");
        },
        _ => panic!("expected the sent message to be echoed"),
    }
    assert_eq!(input.chat_message, Some("wh".to_string()));
    assert!(!chat.is_open());
}
