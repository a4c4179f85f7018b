//! Which script listeners a game event wakes, and the registries that
//! scripts fill: event listeners and administrator commands. Script
//! functions are held by the caller and named here by a handle.
use vstd::prelude::*;
use vstd::string::StringExecFns;

verus! {

/// The kinds of event the game loop hands to scripts.
#[derive(Clone, Copy, Debug, PartialEq, Eq, Structural)]
pub enum GameEventKind {
    PlayerSpawn,
    PlayerDisconnect,
    PlayerMovement,
    PlayerAutoFire,
    PlayerAim,
    TankTree,
}

/// The event name scripts register listeners under for an event kind.
pub fn listener_event_name(kind: GameEventKind) -> (name: &'static str)
    ensures
        kind == GameEventKind::PlayerSpawn ==> name@ == "player_spawn"@,
        kind == GameEventKind::PlayerDisconnect ==> name@ == "player_disconnect"@,
        kind == GameEventKind::PlayerMovement ==> name@ == "player_movement"@,
        kind == GameEventKind::PlayerAutoFire ==> name@ == "player_autofire"@,
        kind == GameEventKind::PlayerAim ==> name@ == "player_aim"@,
        kind == GameEventKind::TankTree ==> name@ == "tank_tree"@,
{
    match kind {
        GameEventKind::PlayerSpawn => "player_spawn",
        GameEventKind::PlayerDisconnect => "player_disconnect",
        GameEventKind::PlayerMovement => "player_movement",
        GameEventKind::PlayerAutoFire => "player_autofire",
        GameEventKind::PlayerAim => "player_aim",
        GameEventKind::TankTree => "tank_tree",
    }
}

/// The handlers registered under `name`, in registration order.
pub open spec fn listeners_of(regs: Seq<(String, u32)>, name: Seq<char>) -> Seq<u32>
    decreases regs.len(),
{
    if regs.len() == 0 {
        Seq::empty()
    } else {
        let prev = listeners_of(regs.drop_last(), name);
        if regs.last().0@ == name {
            prev.push(regs.last().1)
        } else {
            prev
        }
    }
}

/// The listeners scripts attach to named events (`events.on(name, f)`).
pub struct EventRegistry {
    regs: Vec<(String, u32)>,
}

/// A registration log as (name, handler) pairs.
pub open spec fn log_of(regs: Seq<(String, u32)>) -> Seq<(Seq<char>, u32)> {
    regs.map_values(|r: (String, u32)| (r.0@, r.1))
}

/// The handlers of the registrations under `name` in `log`, in order.
pub open spec fn registered_under(log: Seq<(Seq<char>, u32)>, name: Seq<char>) -> Seq<u32> {
    log.filter(|e: (Seq<char>, u32)| e.0 == name).map_values(|e: (Seq<char>, u32)| e.1)
}

proof fn lemma_listeners_of(regs: Seq<(String, u32)>, name: Seq<char>)
    ensures
        listeners_of(regs, name) == registered_under(log_of(regs), name),
    decreases regs.len(),
{
    reveal(Seq::filter);
    if regs.len() > 0 {
        lemma_listeners_of(regs.drop_last(), name);
        assert(log_of(regs).drop_last() =~= log_of(regs.drop_last()));
        let p = |e: (Seq<char>, u32)| e.0 == name;
        let f = |e: (Seq<char>, u32)| e.1;
        let prev = log_of(regs.drop_last()).filter(p);
        if regs.last().0@ == name {
            assert(log_of(regs).filter(p) == prev.push(log_of(regs).last()));
            assert(prev.push(log_of(regs).last()).map_values(f) =~= prev.map_values(f).push(regs.last().1));
        } else {
            assert(log_of(regs).filter(p) == prev);
        }
    } else {
        assert(registered_under(log_of(regs), name) =~= Seq::<u32>::empty());
    }
}

impl EventRegistry {
    /// The handlers listening on `name`, in the order they were attached.
    pub closed spec fn listeners(&self, name: Seq<char>) -> Seq<u32> {
        listeners_of(self.regs@, name)
    }

    /// Every `events.on` call so far, in order, as (name, handler).
    pub closed spec fn registrations(&self) -> Seq<(Seq<char>, u32)> {
        log_of(self.regs@)
    }

    /// No listeners on any event.
    pub fn new() -> (reg: Self)
        ensures
            forall|name: Seq<char>| #[trigger] reg.listeners(name) == Seq::<u32>::empty(),
            reg.registrations() == Seq::<(Seq<char>, u32)>::empty(),
    {
        let reg = EventRegistry { regs: Vec::new() };
        assert(reg.registrations() =~= Seq::<(Seq<char>, u32)>::empty());
        reg
    }

    /// Attaches `handler` after the listeners already on `name`.
    pub fn on(&mut self, name: String, handler: u32)
        ensures
            final(self).listeners(name@) == old(self).listeners(name@).push(handler),
            forall|other: Seq<char>|
                other != name@ ==> #[trigger] final(self).listeners(other) == old(self).listeners(other),
            final(self).registrations() == old(self).registrations().push((name@, handler)),
    {
        let ghost before = self.regs@;
        self.regs.push((name, handler));
        proof {
            assert(self.regs@.drop_last() =~= before);
            assert(log_of(self.regs@) =~= log_of(before).push((self.regs@.last().0@, handler)));
        }
    }

    /// The handlers listening on `name`, in the order they were attached.
    pub fn listeners_for(&self, name: &String) -> (hs: Vec<u32>)
        ensures
            hs@ == self.listeners(name@),
    {
        let mut hs: Vec<u32> = Vec::new();
        let mut i: usize = 0;
        while i < self.regs.len()
            invariant
                i <= self.regs@.len(),
                hs@ == listeners_of(self.regs@.subrange(0, i as int), name@),
            decreases self.regs.len() - i,
        {
            proof {
                assert(self.regs@.subrange(0, i + 1).drop_last() =~= self.regs@.subrange(0, i as int));
            }
            if self.regs[i].0 == *name {
                hs.push(self.regs[i].1);
            }
            i = i + 1;
        }
        proof {
            assert(self.regs@.subrange(0, self.regs@.len() as int) =~= self.regs@);
        }
        hs
    }

    /// The handlers to run for a game event of `kind`, in the order they
    /// were attached to its event name.
    pub fn handlers_for_event(&self, kind: GameEventKind) -> (hs: Vec<u32>)
        ensures
            hs@ == self.listeners(event_name_spec(kind)),
    {
        let name = String::from_str(listener_event_name(kind));
        self.listeners_for(&name)
    }
}

/// After any series of `events.on` calls, the listeners of a name are
/// exactly the handlers registered under that name, in registration order.
pub proof fn law_listeners_are_registrations(reg: EventRegistry, name: Seq<char>)
    ensures
        reg.listeners(name) == registered_under(reg.registrations(), name),
{
    lemma_listeners_of(reg.regs@, name);
}

/// The event name of each event kind.
pub open spec fn event_name_spec(kind: GameEventKind) -> Seq<char> {
    match kind {
        GameEventKind::PlayerSpawn => "player_spawn"@,
        GameEventKind::PlayerDisconnect => "player_disconnect"@,
        GameEventKind::PlayerMovement => "player_movement"@,
        GameEventKind::PlayerAutoFire => "player_autofire"@,
        GameEventKind::PlayerAim => "player_aim"@,
        GameEventKind::TankTree => "tank_tree"@,
    }
}

/// The handler registered last under `name`, if any.
pub open spec fn command_of(regs: Seq<(String, u32)>, name: Seq<char>) -> Option<u32>
    decreases regs.len(),
{
    if regs.len() == 0 {
        None
    } else if regs.last().0@ == name {
        Some(regs.last().1)
    } else {
        command_of(regs.drop_last(), name)
    }
}

/// The administrator commands scripts register (`commands.register(name,
/// f)`); registering a name again replaces its handler.
pub struct CommandRegistry {
    regs: Vec<(String, u32)>,
}

impl View for CommandRegistry {
    type V = Map<Seq<char>, u32>;

    closed spec fn view(&self) -> Map<Seq<char>, u32> {
        Map::new(
            |name: Seq<char>| command_of(self.regs@, name) is Some,
            |name: Seq<char>| command_of(self.regs@, name)->0,
        )
    }
}

proof fn lemma_command_of(regs: Seq<(String, u32)>, name: Seq<char>)
    ensures
        command_of(regs, name) is Some <==> exists|k: int| 0 <= k < regs.len() && #[trigger] log_of(regs)[k].0 == name,
        command_of(regs, name) matches Some(h) ==> exists|k: int|
            0 <= k < regs.len() && #[trigger] log_of(regs)[k] == (name, h) && forall|j: int|
                k < j < regs.len() ==> #[trigger] log_of(regs)[j].0 != name,
    decreases regs.len(),
{
    if regs.len() > 0 {
        let rest = regs.drop_last();
        lemma_command_of(rest, name);
        let n = regs.len() - 1;
        assert(log_of(regs)[n] == (regs.last().0@, regs.last().1));
        assert forall|k: int| 0 <= k < rest.len() implies #[trigger] log_of(rest)[k] == log_of(regs)[k] by {}
        if regs.last().0@ != name {
            if exists|k: int| 0 <= k < regs.len() && #[trigger] log_of(regs)[k].0 == name {
                let k = choose|k: int| 0 <= k < regs.len() && #[trigger] log_of(regs)[k].0 == name;
                assert(log_of(rest)[k].0 == name);
            }
            if let Some(h) = command_of(regs, name) {
                let k = choose|k: int|
                    0 <= k < rest.len() && #[trigger] log_of(rest)[k] == (name, h) && forall|j: int|
                        k < j < rest.len() ==> #[trigger] log_of(rest)[j].0 != name;
                assert(log_of(regs)[k] == (name, h));
                assert forall|j: int| k < j < regs.len() implies #[trigger] log_of(regs)[j].0 != name by {
                    if j < rest.len() {
                        assert(log_of(rest)[j] == log_of(regs)[j]);
                    }
                }
            }
        } else {
            assert(log_of(regs)[n].0 == name);
        }
    }
}

impl CommandRegistry {
    /// Every `commands.register` call so far, in order, as (name, handler).
    pub closed spec fn registrations(&self) -> Seq<(Seq<char>, u32)> {
        log_of(self.regs@)
    }

    /// No commands.
    pub fn new() -> (reg: Self)
        ensures
            reg@ == Map::<Seq<char>, u32>::empty(),
            reg.registrations() == Seq::<(Seq<char>, u32)>::empty(),
    {
        let reg = CommandRegistry { regs: Vec::new() };
        assert(reg@ =~= Map::<Seq<char>, u32>::empty());
        assert(reg.registrations() =~= Seq::<(Seq<char>, u32)>::empty());
        reg
    }

    /// Registers `handler` under `name`; the last registration of a name wins.
    pub fn register(&mut self, name: String, handler: u32)
        ensures
            final(self)@ == old(self)@.insert(name@, handler),
            final(self).registrations() == old(self).registrations().push((name@, handler)),
    {
        let ghost before = self.regs@;
        self.regs.push((name, handler));
        proof {
            assert(self.regs@.drop_last() =~= before);
            assert(log_of(self.regs@) =~= log_of(before).push((self.regs@.last().0@, handler)));
            assert(self@ =~= old(self)@.insert(self.regs@.last().0@, handler));
        }
    }

    /// The handler registered for `name`, if any.
    pub fn lookup(&self, name: &String) -> (h: Option<u32>)
        ensures
            h == (if self@.dom().contains(name@) { Some(self@[name@]) } else { None::<u32> }),
    {
        let mut i: usize = self.regs.len();
        assert(self.regs@.subrange(0, i as int) =~= self.regs@);
        while i > 0
            invariant
                i <= self.regs@.len(),
                command_of(self.regs@, name@) == command_of(self.regs@.subrange(0, i as int), name@),
            decreases i,
        {
            proof {
                assert(self.regs@.subrange(0, i as int).drop_last() =~= self.regs@.subrange(0, i - 1));
            }
            if self.regs[i - 1].0 == *name {
                return Some(self.regs[i - 1].1);
            }
            i = i - 1;
        }
        None
    }
}

/// After any series of `commands.register` calls, a name has a command
/// exactly when it was registered, and it maps to the handler of its last
/// registration.
pub proof fn law_last_registration_wins(reg: CommandRegistry, name: Seq<char>)
    ensures
        reg@.dom().contains(name) <==> exists|k: int|
            0 <= k < reg.registrations().len() && #[trigger] reg.registrations()[k].0 == name,
        reg@.dom().contains(name) ==> exists|k: int|
            0 <= k < reg.registrations().len() && #[trigger] reg.registrations()[k] == (name, reg@[name])
                && forall|j: int|
                k < j < reg.registrations().len() ==> #[trigger] reg.registrations()[j].0 != name,
{
    let regs = reg.regs@;
    lemma_command_of(regs, name);
    let log = reg.registrations();
    assert(log == log_of(regs));
    assert(log.len() == regs.len());
    assert(reg@.dom().contains(name) == (command_of(regs, name) is Some));
    if exists|k: int| 0 <= k < log.len() && #[trigger] log[k].0 == name {
        let k = choose|k: int| 0 <= k < log.len() && #[trigger] log[k].0 == name;
        assert(log_of(regs)[k].0 == name);
    }
    if let Some(h) = command_of(regs, name) {
        assert(reg@[name] == h);
        let k = choose|k: int|
            0 <= k < regs.len() && #[trigger] log_of(regs)[k] == (name, h) && forall|j: int|
                k < j < regs.len() ==> #[trigger] log_of(regs)[j].0 != name;
        assert(log[k] == (name, h));
        assert forall|j: int| k < j < log.len() implies #[trigger] log[j].0 != name by {
            assert(log_of(regs)[j].0 != name);
        }
    }
}

} // verus!
