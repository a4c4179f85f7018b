//! Keyboard input (movement keys, automatic fire, the chat line, upgrade
//! hotkeys), turning held movement keys into a direction, and the
//! scripting handle of a player.
use vstd::prelude::*;
use crate::tanks::EntityId;
use crate::chat::{ChatPanel, ChatChannel, ChatView, other_channel, typed_into};

verus! {

/// The direction the held keys point in, as (x, y) axis steps; `None` when
/// opposite keys cancel (or none is held) on both axes.
pub fn movement_axes(up: bool, down: bool, left: bool, right: bool) -> (axes: Option<(i8, i8)>)
    ensures
        ({
            let x = (if right { 1int } else { 0int }) - (if left { 1int } else { 0int });
            let y = (if up { 1int } else { 0int }) - (if down { 1int } else { 0int });
            if x == 0 && y == 0 {
                axes is None
            } else {
                axes == Some((x as i8, y as i8))
            }
        }),
{
    let x: i8 = (if right { 1i8 } else { 0i8 }) - (if left { 1i8 } else { 0i8 });
    let y: i8 = (if up { 1i8 } else { 0i8 }) - (if down { 1i8 } else { 0i8 });
    if x == 0 && y == 0 {
        None
    } else {
        Some((x, y))
    }
}

/// A player as scripts see it: a handle to its entity.
#[derive(Clone, Copy, Debug)]
pub struct LuaPlayer(pub EntityId);

impl LuaPlayer {
    /// The entity this handle names.
    pub fn entity(&self) -> (id: EntityId)
        ensures
            id == self.0,
    {
        self.0
    }
}

/// Remembers the last automatic-fire setting sent to the server, so that it
/// is sent again only when it changes.
pub struct AutoFireLatch {
    pub last: bool,
}

impl AutoFireLatch {
    /// Nothing sent yet: automatic fire counts as off.
    pub fn new() -> (latch: Self)
        ensures
            !latch.last,
    {
        AutoFireLatch { last: false }
    }

    /// The setting to send now, if it differs from the last one sent.
    pub fn update(&mut self, current: bool) -> (to_send: Option<bool>)
        ensures
            final(self).last == current,
            to_send == (if current != old(self).last { Some(current) } else { None }),
    {
        if current != self.last {
            self.last = current;
            Some(current)
        } else {
            None
        }
    }
}

/// The keys the client reacts to; the window layer maps its key codes to
/// these (arrow keys to the matching letter keys, the keypad's Enter to
/// `Enter`).
#[derive(Clone, Copy, Debug, PartialEq, Eq, Structural)]
pub enum Key {
    Enter,
    Tab,
    Escape,
    Backspace,
    T,
    W,
    A,
    S,
    D,
    Space,
    U,
    K,
    M,
    Backslash,
    /// A digit key, `1` to `9` or `0`.
    Digit(u8),
    Other,
}

/// What the keyboard has set: held movement keys, automatic fire, the last
/// upgrade slot requested, the chat channel, the direction of travel and
/// a chat message waiting to be sent.
pub struct InputState {
    pub move_up: bool,
    pub move_down: bool,
    pub move_left: bool,
    pub move_right: bool,
    pub auto_fire: bool,
    pub upgrade_request: Option<u8>,
    pub chat_channel: ChatChannel,
    pub movement: Option<(i8, i8)>,
    pub chat_message: Option<String>,
}

/// What the window layer has to do after a key: toggle one of its panels,
/// cycle the render mode, toggle the camera, or show a sent chat message
/// in the sender's own log.
pub enum KeyEffect {
    Nothing,
    ToggleUpgradePanel,
    ToggleClassPanel,
    CycleRenderMode,
    ToggleCamera,
    EchoChat(ChatChannel, String),
}

/// The direction `movement_axes` gives for the held keys.
pub open spec fn axes_of(up: bool, down: bool, left: bool, right: bool) -> Option<(i8, i8)> {
    let x = (if right { 1int } else { 0int }) - (if left { 1int } else { 0int });
    let y = (if up { 1int } else { 0int }) - (if down { 1int } else { 0int });
    if x == 0 && y == 0 {
        None
    } else {
        Some((x as i8, y as i8))
    }
}

/// Whether `after` is `before` with only the chat fields possibly changed
/// by the chat line (message and channel), the direction recomputed.
pub open spec fn movement_kept(before: InputState, after: InputState) -> bool {
    &&& after.move_up == before.move_up
    &&& after.move_down == before.move_down
    &&& after.move_left == before.move_left
    &&& after.move_right == before.move_right
    &&& after.auto_fire == before.auto_fire
    &&& after.upgrade_request == before.upgrade_request
    &&& after.movement == axes_of(before.move_up, before.move_down, before.move_left, before.move_right)
}

/// Reacts to a key going down (`pressed`) or up. `text` is what the key
/// types, if anything.
///
/// While the chat line is open, keys go to the chat: Enter sends what was
/// typed (queued in `chat_message` and echoed to the own log), Tab flips
/// the channel, Escape closes the line, Backspace deletes, and other keys
/// type their text; the movement keys and automatic fire stay as they
/// are. Otherwise W/A/S/D set their movement flag and Space automatic fire
/// to `pressed`; Enter or T opens the chat line and releases every
/// movement key and automatic fire; digits 1 to 8 request that upgrade
/// slot; U, K, M and Backslash ask the window layer to toggle its panels,
/// cycle the render mode or toggle the camera. Only key presses (not
/// releases) act, but for the movement keys and Space. The direction of
/// travel is recomputed from the movement keys after every key.
pub fn on_key<T>(
    input: &mut InputState,
    chat: &mut ChatPanel<T>,
    key: Key,
    pressed: bool,
    text: Option<&str>,
) -> (effect: KeyEffect)
    requires
        old(chat).wf(),
    ensures
        final(chat).wf(),
        final(input).movement == axes_of(
            final(input).move_up,
            final(input).move_down,
            final(input).move_left,
            final(input).move_right,
        ),
        old(chat)@.input_open ==> {
            &&& movement_kept(*old(input), *final(input))
            &&& (key == Key::Enter && pressed && old(chat)@.input.len() > 0) ==> {
                &&& final(chat)@ == (ChatView { input_open: false, input: Seq::<char>::empty(), ..old(chat)@ })
                &&& (final(input).chat_message matches Some(m) && m@ == old(chat)@.input)
                &&& (effect matches KeyEffect::EchoChat(c, m) && c == old(input).chat_channel && m@ == old(chat)@.input)
                &&& final(input).chat_channel == old(input).chat_channel
            }
            &&& (key == Key::Enter && pressed && old(chat)@.input.len() == 0) ==> {
                &&& final(chat)@ == (ChatView { input_open: false, input: Seq::<char>::empty(), ..old(chat)@ })
                &&& final(input).chat_message == old(input).chat_message
                &&& effect is Nothing
                &&& final(input).chat_channel == old(input).chat_channel
            }
            &&& (key == Key::Tab && pressed) ==> {
                &&& final(chat)@ == (ChatView { active: other_channel(old(chat)@.active), ..old(chat)@ })
                &&& final(input).chat_channel == other_channel(old(chat)@.active)
                &&& final(input).chat_message == old(input).chat_message
                &&& effect is Nothing
            }
            &&& (key == Key::Escape && pressed) ==> {
                &&& final(chat)@ == (ChatView { input_open: false, input: Seq::<char>::empty(), ..old(chat)@ })
                &&& final(input).chat_channel == old(input).chat_channel
                &&& final(input).chat_message == old(input).chat_message
                &&& effect is Nothing
            }
            &&& (key == Key::Backspace && pressed) ==> {
                &&& final(chat)@ == (ChatView {
                    input: if old(chat)@.input.len() == 0 {
                        old(chat)@.input
                    } else {
                        old(chat)@.input.drop_last()
                    },
                    ..old(chat)@
                })
                &&& final(input).chat_channel == old(input).chat_channel
                &&& final(input).chat_message == old(input).chat_message
                &&& effect is Nothing
            }
            &&& (key != Key::Enter && key != Key::Tab && key != Key::Escape && key != Key::Backspace) ==> {
                &&& (pressed && text is Some) ==> typed_into(old(chat)@, final(chat)@, text->0@)
                &&& !(pressed && text is Some) ==> final(chat)@ == old(chat)@
                &&& final(input).chat_channel == old(input).chat_channel
                &&& final(input).chat_message == old(input).chat_message
                &&& effect is Nothing
            }
            &&& !pressed ==> final(chat)@ == old(chat)@ && final(input).chat_channel == old(input).chat_channel
                && final(input).chat_message == old(input).chat_message && effect is Nothing
        },
        !old(chat)@.input_open ==> {
            &&& final(input).chat_channel == old(input).chat_channel
            &&& final(input).chat_message == old(input).chat_message
            &&& final(input).move_up == (if key == Key::W { pressed } else if (key == Key::Enter || key == Key::T) && pressed { false } else { old(input).move_up })
            &&& final(input).move_down == (if key == Key::S { pressed } else if (key == Key::Enter || key == Key::T) && pressed { false } else { old(input).move_down })
            &&& final(input).move_left == (if key == Key::A { pressed } else if (key == Key::Enter || key == Key::T) && pressed { false } else { old(input).move_left })
            &&& final(input).move_right == (if key == Key::D { pressed } else if (key == Key::Enter || key == Key::T) && pressed { false } else { old(input).move_right })
            &&& final(input).auto_fire == (if key == Key::Space { pressed } else if (key == Key::Enter || key == Key::T) && pressed { false } else { old(input).auto_fire })
            &&& final(input).upgrade_request == (match key {
                Key::Digit(d) => if pressed && 1 <= d <= 8 { Some(d) } else { old(input).upgrade_request },
                _ => old(input).upgrade_request,
            })
            &&& final(chat)@ == (if (key == Key::Enter || key == Key::T) && pressed {
                ChatView { input_open: true, ..old(chat)@ }
            } else {
                old(chat)@
            })
            &&& effect == (if !pressed {
                KeyEffect::Nothing
            } else {
                match key {
                    Key::U => KeyEffect::ToggleUpgradePanel,
                    Key::K => KeyEffect::ToggleClassPanel,
                    Key::M => KeyEffect::CycleRenderMode,
                    Key::Backslash => KeyEffect::ToggleCamera,
                    _ => KeyEffect::Nothing,
                }
            })
        },
{
    let mut effect = KeyEffect::Nothing;
    if chat.is_open() {
        if pressed {
            match key {
                Key::Enter => {
                    if let Some(msg) = chat.submit() {
                        let echo = msg.clone();
                        input.chat_message = Some(msg);
                        effect = KeyEffect::EchoChat(input.chat_channel, echo);
                    }
                },
                Key::Tab => {
                    chat.switch_channel();
                    input.chat_channel = chat.active_channel();
                },
                Key::Escape => {
                    chat.close_input();
                },
                Key::Backspace => {
                    chat.backspace();
                },
                _ => {
                    if let Some(t) = text {
                        chat.type_text(t);
                    }
                },
            }
        }
    } else {
        match key {
            Key::W => {
                input.move_up = pressed;
            },
            Key::S => {
                input.move_down = pressed;
            },
            Key::A => {
                input.move_left = pressed;
            },
            Key::D => {
                input.move_right = pressed;
            },
            Key::Space => {
                input.auto_fire = pressed;
            },
            Key::Enter | Key::T => {
                if pressed {
                    chat.open_input();
                    input.move_up = false;
                    input.move_down = false;
                    input.move_left = false;
                    input.move_right = false;
                    input.auto_fire = false;
                }
            },
            Key::U => {
                if pressed {
                    effect = KeyEffect::ToggleUpgradePanel;
                }
            },
            Key::K => {
                if pressed {
                    effect = KeyEffect::ToggleClassPanel;
                }
            },
            Key::M => {
                if pressed {
                    effect = KeyEffect::CycleRenderMode;
                }
            },
            Key::Backslash => {
                if pressed {
                    effect = KeyEffect::ToggleCamera;
                }
            },
            Key::Digit(d) => {
                if pressed && 1 <= d && d <= 8 {
                    input.upgrade_request = Some(d);
                }
            },
            _ => {},
        }
    }
    input.movement = movement_axes(input.move_up, input.move_down, input.move_left, input.move_right);
    effect
}

} // verus!
