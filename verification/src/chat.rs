//! The client's chat: two bounded message logs (global and team), the input
//! line, and which messages the panel shows.
use vstd::prelude::*;
use crate::text::{pop_char, push_char};

verus! {

/// The chat channels.
#[derive(Clone, Copy, Debug, PartialEq, Eq, Structural)]
pub enum ChatChannel {
    Global,
    Team,
}

/// A chat message as it arrives from the server.
pub struct IncomingChat {
    pub channel: ChatChannel,
    pub team: u8,
    pub sender: String,
    pub text: String,
    pub timestamp: u64,
}

/// Messages kept per channel; older ones are dropped.
pub const MAX_LOG: usize = 350;

/// Messages listed while the input line is open.
pub const VISIBLE_HISTORY: usize = 9;

/// Lines after which the panel stops adding older messages.
pub const MAX_SHOWN_LINES: usize = 15;

/// Characters the input line holds at most.
pub const MAX_INPUT_CHARS: usize = 80;

/// Position of a channel's tab: global first, team second.
pub open spec fn channel_index_spec(channel: ChatChannel) -> usize {
    match channel {
        ChatChannel::Global => 0,
        ChatChannel::Team => 1,
    }
}

/// Position of a channel's tab.
pub fn channel_index(channel: ChatChannel) -> (index: usize)
    ensures
        index == channel_index_spec(channel),
{
    match channel {
        ChatChannel::Global => 0,
        ChatChannel::Team => 1,
    }
}

/// The colour a team's tag is drawn in.
#[derive(Clone, Copy, Debug, PartialEq, Eq, Structural)]
pub enum TeamColor {
    Blue,
    Red,
    Purple,
    White,
}

/// The tag shown before a global message from `team`, and its colour.
pub fn team_tag(team: u8) -> (tag: (&'static str, TeamColor))
    ensures
        team == 0 ==> tag.0@ == "[Blue]"@ && tag.1 == TeamColor::Blue,
        team == 1 ==> tag.0@ == "[Red]"@ && tag.1 == TeamColor::Red,
        team == 2 ==> tag.0@ == "[Purple]"@ && tag.1 == TeamColor::Purple,
        team > 2 ==> tag.0@ == "[Team]"@ && tag.1 == TeamColor::White,
{
    match team {
        0 => ("[Blue]", TeamColor::Blue),
        1 => ("[Red]", TeamColor::Red),
        2 => ("[Purple]", TeamColor::Purple),
        _ => ("[Team]", TeamColor::White),
    }
}

/// What the panel draws around an incoming message's body: whether it is a
/// system message (no sender), the team tag (only on a non-system global
/// message), the name shown (empty for a system message), and the
/// timestamp the time label is made from.
pub struct MessageHeader {
    pub is_system: bool,
    pub tag: Option<(&'static str, TeamColor)>,
    pub name: String,
    pub timestamp: u64,
}

/// The tag `team_tag` gives `team`.
pub open spec fn team_tag_spec(team: u8) -> (Seq<char>, TeamColor) {
    if team == 0 {
        ("[Blue]"@, TeamColor::Blue)
    } else if team == 1 {
        ("[Red]"@, TeamColor::Red)
    } else if team == 2 {
        ("[Purple]"@, TeamColor::Purple)
    } else {
        ("[Team]"@, TeamColor::White)
    }
}

/// Builds the header of a message arriving on `channel` from `sender` of
/// `team`: a message with no sender is a system message.
pub fn message_header(channel: ChatChannel, team: u8, sender: &String, timestamp: u64) -> (h: MessageHeader)
    ensures
        h.is_system == (sender@.len() == 0),
        h.is_system || channel != ChatChannel::Global ==> h.tag is None,
        !h.is_system && channel == ChatChannel::Global ==> (h.tag matches Some(t) && t.0@
            == team_tag_spec(team).0 && t.1 == team_tag_spec(team).1),
        h.is_system ==> h.name@ == Seq::<char>::empty(),
        !h.is_system ==> h.name@ == sender@,
        h.timestamp == timestamp,
{
    let is_system = sender.as_str().unicode_len() == 0;
    let tag = if is_system || channel != ChatChannel::Global {
        None
    } else {
        Some(team_tag(team))
    };
    let name = if is_system { String::new() } else { sender.clone() };
    MessageHeader { is_system, tag, name, timestamp }
}

/// Minutes per day.
pub const MINUTES_PER_DAY: u64 = 1440;

/// Integer division rounding toward zero.
pub open spec fn trunc_div(x: int, d: int) -> int {
    if x >= 0 {
        x / d
    } else {
        -((-x) / d)
    }
}

/// The minute of the local day at `unix_secs`, for a zone `offset_min`
/// minutes behind UTC.
pub open spec fn minute_of_day_spec(unix_secs: u64, offset_min: i64) -> int {
    trunc_div((unix_secs as i64) - offset_min * 60, 60) % (MINUTES_PER_DAY as int)
}

proof fn lemma_negated_mod(q: int, r: int)
    requires
        q >= 0,
        r == q % 1440,
    ensures
        (-q) % 1440 == (if r == 0 { 0 } else { 1440 - r }),
{
    assert(q == 1440 * (q / 1440) + r) by (nonlinear_arith)
        requires
            r == q % 1440,
    ;
    if r == 0 {
        assert(-q == 1440 * (-(q / 1440)));
        assert((-q) % 1440 == 0) by (nonlinear_arith)
            requires
                -q == 1440 * (-(q / 1440)),
        ;
    } else {
        assert(-q == 1440 * (-(q / 1440) - 1) + (1440 - r));
        assert((-q) % 1440 == 1440 - r) by (nonlinear_arith)
            requires
                -q == 1440 * (-(q / 1440) - 1) + (1440 - r),
                0 < 1440 - r < 1440,
        ;
    }
}

/// The local time of day (hours, minutes) of a message timestamp, for a zone
/// `offset_min` minutes behind UTC.
pub fn clock_of_day(unix_secs: u64, offset_min: i64) -> (hm: (u64, u64))
    requires
        i64::MIN <= offset_min * 60 <= i64::MAX,
        i64::MIN <= (unix_secs as i64) - offset_min * 60 <= i64::MAX,
    ensures
        hm.0 == minute_of_day_spec(unix_secs, offset_min) / 60,
        hm.1 == minute_of_day_spec(unix_secs, offset_min) % 60,
        hm.0 < 24,
        hm.1 < 60,
{
    let secs: i64 = unix_secs as i64;
    let shift: i64 = offset_min * 60;
    let local: i64 = secs - shift;
    let mins: u64 = if local >= 0 {
        ((local as u64) / 60) % MINUTES_PER_DAY
    } else {
        let mag: u64 = if local == i64::MIN {
            0x8000_0000_0000_0000u64
        } else {
            (-local) as u64
        };
        let r: u64 = (mag / 60) % MINUTES_PER_DAY;
        proof {
            let l = local as int;
            let q = (mag / 60) as int;
            assert(mag as int == -l);
            assert(trunc_div(l, 60) == -q);
            lemma_negated_mod(q, r as int);
        }
        if r == 0 {
            0
        } else {
            MINUTES_PER_DAY - r
        }
    };
    (mins / 60, mins % 60)
}

/// The last `n` items of `s` (all of them when there are fewer).
pub open spec fn keep_last<T>(s: Seq<T>, n: nat) -> Seq<T> {
    if s.len() <= n {
        s
    } else {
        s.subrange(s.len() - n, s.len() as int)
    }
}

/// Printable characters: everything from U+0020 on.
pub open spec fn printable(text: Seq<char>) -> Seq<char> {
    text.filter(|c: char| c as u32 >= 0x20)
}

/// `after` is `before` with the longest start of the printable part of
/// `text` typed into the input line that keeps it within
/// `MAX_INPUT_CHARS`.
pub open spec fn typed_into<T>(before: ChatView<T>, after: ChatView<T>, text: Seq<char>) -> bool {
    exists|kept: Seq<char>|
        {
            &&& printable(text).take(kept.len() as int) == kept
            &&& kept.len() <= printable(text).len()
            &&& after == (ChatView { input: before.input + kept, ..before })
            &&& (kept.len() == printable(text).len() || after.input.len() == MAX_INPUT_CHARS)
        }
}

/// What the chat holds: both logs, the active channel, the input line and
/// whether it is open.
pub struct ChatView<T> {
    pub global: Seq<T>,
    pub team: Seq<T>,
    pub active: ChatChannel,
    pub input: Seq<char>,
    pub input_open: bool,
}

/// Chat state. `T` is what the client keeps per message (its shaped text and
/// arrival time); the chat stores it without looking inside.
pub struct ChatPanel<T> {
    global: Vec<T>,
    team: Vec<T>,
    active: ChatChannel,
    input: String,
    input_active: bool,
}

impl<T> View for ChatPanel<T> {
    type V = ChatView<T>;

    closed spec fn view(&self) -> ChatView<T> {
        ChatView {
            global: self.global@,
            team: self.team@,
            active: self.active,
            input: self.input@,
            input_open: self.input_active,
        }
    }
}

/// The log of `channel`.
pub open spec fn log_of<T>(v: ChatView<T>, channel: ChatChannel) -> Seq<T> {
    match channel {
        ChatChannel::Global => v.global,
        ChatChannel::Team => v.team,
    }
}

impl<T> ChatPanel<T> {
    /// Both logs within `MAX_LOG`, the input within `MAX_INPUT_CHARS`.
    pub open spec fn wf(&self) -> bool {
        &&& self@.global.len() <= MAX_LOG
        &&& self@.team.len() <= MAX_LOG
        &&& self@.input.len() <= MAX_INPUT_CHARS
    }

    /// Empty logs on the global channel, input closed and empty.
    pub fn new() -> (chat: Self)
        ensures
            chat.wf(),
            chat@.global == Seq::<T>::empty(),
            chat@.team == Seq::<T>::empty(),
            chat@.active == ChatChannel::Global,
            chat@.input == Seq::<char>::empty(),
            !chat@.input_open,
    {
        ChatPanel {
            global: Vec::new(),
            team: Vec::new(),
            active: ChatChannel::Global,
            input: String::new(),
            input_active: false,
        }
    }

    /// Whether the input line is open.
    pub fn is_open(&self) -> (open: bool)
        ensures
            open == self@.input_open,
    {
        self.input_active
    }

    /// The channel whose log is shown and written to.
    pub fn active_channel(&self) -> (channel: ChatChannel)
        ensures
            channel == self@.active,
    {
        self.active
    }

    /// Shows and writes to `channel`.
    pub fn set_channel(&mut self, channel: ChatChannel)
        ensures
            final(self)@ == (ChatView { active: channel, ..old(self)@ }),
    {
        self.active = channel;
    }

    /// Flips between the two channels.
    pub fn switch_channel(&mut self)
        ensures
            final(self)@ == (ChatView { active: other_channel(old(self)@.active), ..old(self)@ }),
    {
        self.active = match self.active {
            ChatChannel::Global => ChatChannel::Team,
            ChatChannel::Team => ChatChannel::Global,
        };
    }

    /// Opens the input line.
    pub fn open_input(&mut self)
        ensures
            final(self)@ == (ChatView { input_open: true, ..old(self)@ }),
    {
        self.input_active = true;
    }

    /// Closes the input line and clears what was typed.
    pub fn close_input(&mut self)
        ensures
            final(self)@ == (ChatView { input_open: false, input: Seq::<char>::empty(), ..old(self)@ }),
    {
        self.input_active = false;
        self.input = String::new();
    }

    /// Deletes the last typed character, if any.
    pub fn backspace(&mut self)
        requires
            old(self).wf(),
        ensures
            final(self).wf(),
            final(self)@ == (ChatView {
                input: if old(self)@.input.len() == 0 {
                    old(self)@.input
                } else {
                    old(self)@.input.drop_last()
                },
                ..old(self)@
            }),
    {
        pop_char(&mut self.input);
    }

    /// Types `text` into the input line: control characters (below U+0020)
    /// are skipped, and typing stops once the line holds `MAX_INPUT_CHARS`
    /// characters. What gets in is the longest start of the printable part
    /// of `text` that fits.
    pub fn type_text(&mut self, text: &str)
        requires
            old(self).wf(),
        ensures
            final(self).wf(),
            typed_into(old(self)@, final(self)@, text@),
    {
        let ghost start = self.input@;
        let n = text.unicode_len();
        let mut count: usize = self.input.as_str().unicode_len();
        let mut i: usize = 0;
        let ghost mut full = false;
        while i < n
            invariant
                n == text@.len(),
                i <= n,
                count == self.input@.len(),
                count <= MAX_INPUT_CHARS,
                self.input@ == start + printable(text@.subrange(0, i as int)),
                self.global@ == old(self).global@,
                self.team@ == old(self).team@,
                self.active == old(self).active,
                self.input_active == old(self).input_active,
            ensures
                i < n ==> count >= MAX_INPUT_CHARS,
                i <= n,
                count == self.input@.len(),
                count <= MAX_INPUT_CHARS,
                self.input@ == start + printable(text@.subrange(0, i as int)),
                self.global@ == old(self).global@,
                self.team@ == old(self).team@,
                self.active == old(self).active,
                self.input_active == old(self).input_active,
            decreases n - i,
        {
            let c = text.get_char(i);
            proof {
                assert(text@.subrange(0, i + 1) =~= text@.subrange(0, i as int).push(c));
                text@.subrange(0, i as int).lemma_filter_push(c, |c: char| c as u32 >= 0x20);
            }
            if (c as u32) < 0x20 {
                i = i + 1;
                continue;
            }
            if count >= MAX_INPUT_CHARS {
                break;
            }
            push_char(&mut self.input, c);
            count = count + 1;
            i = i + 1;
        }
        proof {
            let kept = printable(text@.subrange(0, i as int));
            let all = printable(text@);
            assert(text@ =~= text@.subrange(0, i as int) + text@.subrange(i as int, n as int));
            Seq::filter_distributes_over_add(
                text@.subrange(0, i as int),
                text@.subrange(i as int, n as int),
                |c: char| c as u32 >= 0x20,
            );
            assert(all.take(kept.len() as int) =~= kept);
            if i < n {
                assert(count >= MAX_INPUT_CHARS);
            } else {
                assert(text@.subrange(i as int, n as int) =~= Seq::<char>::empty());
                assert(printable(Seq::<char>::empty()) =~= Seq::<char>::empty()) by {
                    reveal_with_fuel(Seq::filter, 1);
                }
            }
            assert(self@ == (ChatView { input: start + kept, ..old(self)@ }));
        }
    }

    /// Sends what was typed: the input line closes and clears, and its text
    /// comes back unless it was empty.
    pub fn submit(&mut self) -> (sent: Option<String>)
        requires
            old(self).wf(),
        ensures
            final(self).wf(),
            final(self)@ == (ChatView { input_open: false, input: Seq::<char>::empty(), ..old(self)@ }),
            old(self)@.input.len() == 0 ==> sent is None,
            old(self)@.input.len() > 0 ==> (sent matches Some(s) && s@ == old(self)@.input),
    {
        let msg = if self.input.as_str().unicode_len() == 0 {
            None
        } else {
            Some(self.input.clone())
        };
        self.close_input();
        msg
    }

    /// The log of `channel`, oldest first.
    pub fn messages(&self, channel: ChatChannel) -> (log: &Vec<T>)
        ensures
            log@ == log_of(self@, channel),
    {
        match channel {
            ChatChannel::Global => &self.global,
            ChatChannel::Team => &self.team,
        }
    }

    /// Files a message in `channel`'s log, dropping the oldest beyond
    /// `MAX_LOG`. Returns whether the channel's tab should flash: the message
    /// arrived on the channel not shown.
    pub fn receive(&mut self, channel: ChatChannel, message: T) -> (flash: bool)
        requires
            old(self).wf(),
        ensures
            final(self).wf(),
            flash == (channel != old(self)@.active),
            channel == ChatChannel::Global ==> final(self)@ == (ChatView {
                global: keep_last(old(self)@.global.push(message), MAX_LOG as nat),
                ..old(self)@
            }),
            channel == ChatChannel::Team ==> final(self)@ == (ChatView {
                team: keep_last(old(self)@.team.push(message), MAX_LOG as nat),
                ..old(self)@
            }),
    {
        match channel {
            ChatChannel::Global => {
                Self::push_bounded(&mut self.global, message);
            },
            ChatChannel::Team => {
                Self::push_bounded(&mut self.team, message);
            },
        }
        channel != self.active
    }

    fn push_bounded(list: &mut Vec<T>, message: T)
        requires
            old(list)@.len() <= MAX_LOG,
        ensures
            final(list)@ == keep_last(old(list)@.push(message), MAX_LOG as nat),
            final(list)@.len() <= MAX_LOG,
    {
        let ghost pushed = old(list)@.push(message);
        list.push(message);
        if list.len() > MAX_LOG {
            list.remove(0);
            assert(list@ =~= pushed.subrange(pushed.len() - MAX_LOG, pushed.len() as int));
        }
    }
}

/// Lines a message takes in the panel: its body, plus a header line (tag,
/// sender, time) unless it is a system message.
pub fn message_line_count(is_system: bool, body_lines: usize) -> (lines: usize)
    requires
        !is_system ==> body_lines < usize::MAX,
    ensures
        lines == if is_system { body_lines as int } else { body_lines + 1 },
{
    if is_system {
        body_lines
    } else {
        1 + body_lines
    }
}

/// Which messages the panel lists, oldest first, walking back from the
/// newest of `lines.len()` messages (message `j` spans `lines[j]` lines and
/// is still visible when `visible[j]`): with the input open it lists up to
/// `VISIBLE_HISTORY` messages, otherwise only visible ones; it stops adding
/// once `MAX_SHOWN_LINES` lines are reached.
pub open spec fn pick_from(
    lines: Seq<usize>,
    visible: Seq<bool>,
    input_open: bool,
    end: int,
    taken: nat,
    total: int,
) -> Seq<usize>
    decreases end,
{
    if end <= 0 {
        Seq::empty()
    } else {
        let j = end - 1;
        if input_open && taken >= VISIBLE_HISTORY {
            Seq::empty()
        } else if !input_open && !visible[j] {
            pick_from(lines, visible, input_open, j, taken, total)
        } else if total >= MAX_SHOWN_LINES {
            Seq::empty()
        } else {
            pick_from(lines, visible, input_open, j, taken + 1, total + lines[j]).push(j as usize)
        }
    }
}

/// Whether counting the lines of the messages `pick_from` lists passes
/// `usize::MAX`.
pub open spec fn pick_overflows(
    lines: Seq<usize>,
    visible: Seq<bool>,
    input_open: bool,
    end: int,
    taken: nat,
    total: int,
) -> bool
    decreases end,
{
    if end <= 0 {
        false
    } else {
        let j = end - 1;
        if input_open && taken >= VISIBLE_HISTORY {
            false
        } else if !input_open && !visible[j] {
            pick_overflows(lines, visible, input_open, j, taken, total)
        } else if total >= MAX_SHOWN_LINES {
            false
        } else {
            total + lines[j] > usize::MAX || pick_overflows(
                lines,
                visible,
                input_open,
                j,
                taken + 1,
                total + lines[j],
            )
        }
    }
}

/// Indices of the messages the panel lists, oldest first (see `pick_from`).
pub fn select_shown(lines: &Vec<usize>, visible: &Vec<bool>, input_open: bool) -> (shown: Vec<usize>)
    requires
        lines@.len() == visible@.len(),
        !pick_overflows(lines@, visible@, input_open, lines@.len() as int, 0, 0),
    ensures
        shown@ == pick_from(lines@, visible@, input_open, lines@.len() as int, 0, 0),
{
    let mut shown: Vec<usize> = Vec::new();
    let n: usize = lines.len();
    let mut j: usize = n;
    let mut taken: usize = 0;
    let mut total: usize = 0;
    while j > 0
        invariant
            j <= lines@.len(),
            lines@.len() == visible@.len(),
            !pick_overflows(lines@, visible@, input_open, j as int, taken as nat, total as int),
            taken == shown@.len(),
            n == lines@.len(),
            taken <= n - j,
            pick_from(lines@, visible@, input_open, lines@.len() as int, 0, 0) == pick_from(
                lines@,
                visible@,
                input_open,
                j as int,
                taken as nat,
                total as int,
            ) + shown@,
        ensures
            pick_from(lines@, visible@, input_open, j as int, taken as nat, total as int) == Seq::<usize>::empty(),
            pick_from(lines@, visible@, input_open, lines@.len() as int, 0, 0) == pick_from(
                lines@,
                visible@,
                input_open,
                j as int,
                taken as nat,
                total as int,
            ) + shown@,
        decreases j,
    {
        let k = j - 1;
        if input_open && taken >= VISIBLE_HISTORY {
            break;
        }
        if !input_open && !visible[k] {
            j = k;
            continue;
        }
        if total >= MAX_SHOWN_LINES {
            break;
        }
        let ghost before = shown@;
        shown.insert(0, k);
        proof {
            assert(shown@ =~= seq![k] + before);
            let rest = pick_from(lines@, visible@, input_open, k as int, (taken + 1) as nat, total + lines@[k as int]);
            assert(rest.push(k) + before =~= rest + shown@);
        }
        taken = taken + 1;
        total = total + lines[k];
        j = k;
    }
    proof {
        assert(Seq::<usize>::empty() + shown@ =~= shown@);
    }
    shown
}

/// The channel `switch_channel` leaves active.
pub open spec fn other_channel(channel: ChatChannel) -> ChatChannel {
    match channel {
        ChatChannel::Global => ChatChannel::Team,
        ChatChannel::Team => ChatChannel::Global,
    }
}

/// Switching channels twice brings back the channel that was active, and a
/// switch always changes it.
pub proof fn law_switch_twice(channel: ChatChannel)
    ensures
        other_channel(other_channel(channel)) == channel,
        other_channel(channel) != channel,
{
}

proof fn lemma_printable_all(text: Seq<char>)
    requires
        forall|i: int| 0 <= i < text.len() ==> #[trigger] text[i] as u32 >= 0x20,
    ensures
        printable(text) == text,
    decreases text.len(),
{
    reveal(Seq::filter);
    if text.len() > 0 {
        lemma_printable_all(text.drop_last());
        assert(text.drop_last().push(text.last()) =~= text);
    }
}

proof fn lemma_printable_none(text: Seq<char>)
    requires
        forall|i: int| 0 <= i < text.len() ==> (#[trigger] text[i] as u32) < 0x20,
    ensures
        printable(text) == Seq::<char>::empty(),
    decreases text.len(),
{
    reveal(Seq::filter);
    if text.len() > 0 {
        lemma_printable_none(text.drop_last());
    }
}

/// Typing text made of characters at or above U+0020 (the space included)
/// into a line with room for it appends all of it, unchanged.
pub proof fn law_typing_appends_printable_text<T>(before: ChatView<T>, after: ChatView<T>, text: Seq<char>)
    requires
        typed_into(before, after, text),
        before.input.len() + text.len() <= MAX_INPUT_CHARS,
        forall|i: int| 0 <= i < text.len() ==> #[trigger] text[i] as u32 >= 0x20,
    ensures
        after == (ChatView { input: before.input + text, ..before }),
{
    lemma_printable_all(text);
    let kept = choose|kept: Seq<char>|
        {
            &&& printable(text).take(kept.len() as int) == kept
            &&& kept.len() <= printable(text).len()
            &&& after == (ChatView { input: before.input + kept, ..before })
            &&& (kept.len() == printable(text).len() || after.input.len() == MAX_INPUT_CHARS)
        };
    assert(kept.len() == text.len());
    assert(kept =~= text);
}

/// Characters below U+0020 are never typed: text made only of them leaves
/// the chat as it was.
pub proof fn law_typing_skips_control_characters<T>(before: ChatView<T>, after: ChatView<T>, text: Seq<char>)
    requires
        typed_into(before, after, text),
        forall|i: int| 0 <= i < text.len() ==> (#[trigger] text[i] as u32) < 0x20,
    ensures
        after == before,
{
    lemma_printable_none(text);
    let kept = choose|kept: Seq<char>|
        {
            &&& printable(text).take(kept.len() as int) == kept
            &&& kept.len() <= printable(text).len()
            &&& after == (ChatView { input: before.input + kept, ..before })
            &&& (kept.len() == printable(text).len() || after.input.len() == MAX_INPUT_CHARS)
        };
    assert(before.input + kept =~= before.input);
}

/// Whatever is typed, only characters at or above U+0020 are added, after
/// what was already there, and no more of them than the text holds.
pub proof fn law_typing_adds_only_printable<T>(before: ChatView<T>, after: ChatView<T>, text: Seq<char>)
    requires
        typed_into(before, after, text),
    ensures
        after.input.len() <= before.input.len() + text.len(),
        after.input.subrange(0, before.input.len() as int) == before.input,
        forall|j: int| before.input.len() <= j < after.input.len() ==> #[trigger] after.input[j] as u32 >= 0x20,
{
    let p = printable(text);
    text.filter_lemma(|c: char| c as u32 >= 0x20);
    let kept = choose|kept: Seq<char>|
        {
            &&& printable(text).take(kept.len() as int) == kept
            &&& kept.len() <= printable(text).len()
            &&& after == (ChatView { input: before.input + kept, ..before })
            &&& (kept.len() == printable(text).len() || after.input.len() == MAX_INPUT_CHARS)
        };
    assert(after.input.subrange(0, before.input.len() as int) =~= before.input);
    assert forall|j: int| before.input.len() <= j < after.input.len() implies #[trigger] after.input[j] as u32 >= 0x20 by {
        assert(after.input[j] == kept[j - before.input.len()]);
        assert(kept[j - before.input.len()] == p[j - before.input.len()]);
    }
}

} // verus!
