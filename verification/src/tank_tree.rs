//! Tank definitions and the upgrade tree built from them: tier 0 holds the
//! basic tank, and each further tier holds the tanks first reachable by one
//! more upgrade.
use vstd::prelude::*;
use vstd::seq_lib::seq_to_set_is_finite;

verus! {

/// Ability flags of a tank class.
#[derive(Clone, Copy, Debug, PartialEq, Eq, Structural)]
pub struct TankFlags {
    pub invisibility: bool,
    pub zoom_ability: bool,
    pub can_shoot: bool,
    pub dev_only: bool,
}

impl Default for TankFlags {
    /// The flags a definition gets when it names none: it can shoot, and
    /// nothing else.
    fn default() -> (flags: Self)
        ensures
            flags == (TankFlags {
                invisibility: false,
                zoom_ability: false,
                can_shoot: true,
                dev_only: false,
            }),
    {
        TankFlags { invisibility: false, zoom_ability: false, can_shoot: true, dev_only: false }
    }
}

/// An upgradable stat of a tank class and its maximum level.
#[derive(Debug)]
pub struct Stat {
    pub name: String,
    pub max: u32,
}

/// Maximum level of a stat whose definition names none.
pub const DEFAULT_STAT_MAX: u32 = 7;

impl Stat {
    /// A stat called `name` with the default maximum level.
    pub fn named(name: String) -> (stat: Self)
        ensures
            stat.name == name,
            stat.max == DEFAULT_STAT_MAX,
    {
        Stat { name, max: DEFAULT_STAT_MAX }
    }
}

/// One loaded tank definition, as far as the tree needs it: the key it is
/// registered under (its file name), its class id, its display name, and
/// the keys of the classes it upgrades to.
pub struct TankDefEntry {
    pub key: String,
    pub id: u32,
    pub name: String,
    pub upgrade_names: Vec<String>,
}

/// All loaded tank definitions. Keys are distinct, as in a map.
pub struct TankRegistry {
    pub entries: Vec<TankDefEntry>,
}

/// A tank of the upgrade tree: the definition it comes from, and the class
/// ids of the upgrades that resolve, in the order the definition names them.
pub struct TreeNode {
    pub entry: usize,
    pub upgrades: Vec<u32>,
}

/// Why no tree could be built.
#[derive(Clone, Copy, Debug, PartialEq, Eq, Structural)]
pub enum TreeError {
    /// No definition is named `Tank`.
    BasicTankMissing,
}

/// The display name of the basic tank.
pub open spec fn basic_tank_name() -> Seq<char> {
    seq!['T', 'a', 'n', 'k']
}

impl TankRegistry {
    /// No two definitions share a key.
    pub open spec fn keys_distinct(self) -> bool {
        forall|i: int, j: int|
            0 <= i < j < self.entries@.len() ==> #[trigger] self.entries@[i].key@
                != #[trigger] self.entries@[j].key@
    }

    /// The definition registered under `key`, if any.
    pub open spec fn lookup(self, key: Seq<char>) -> Option<int> {
        if exists|i: int| 0 <= i < self.entries@.len() && #[trigger] self.entries@[i].key@ == key {
            Some(choose|i: int| 0 <= i < self.entries@.len() && #[trigger] self.entries@[i].key@ == key)
        } else {
            None
        }
    }

    /// Class ids of the names in `names` that resolve to a definition, in order.
    pub open spec fn upgrade_ids(self, names: Seq<String>) -> Seq<u32>
        decreases names.len(),
    {
        if names.len() == 0 {
            Seq::empty()
        } else {
            let rest = self.upgrade_ids(names.drop_last());
            match self.lookup(names.last()@) {
                Some(t) => rest.push(self.entries@[t].id),
                None => rest,
            }
        }
    }

    /// The upgrade names of `names` that resolve to a definition, in order.
    pub open spec fn resolving_names(self, names: Seq<String>) -> Seq<String> {
        names.filter(|n: String| self.lookup(n@) is Some)
    }

    /// The class id of the definition a resolving name names.
    pub open spec fn class_of(self, name: String) -> u32 {
        self.entries@[self.lookup(name@)->0].id
    }

    /// The upgrade ids of a list of names are the class ids of exactly the
    /// names that resolve, one each, in the order the names come: as many
    /// ids as resolving names, the `k`th id that of the `k`th resolving name.
    pub proof fn law_upgrade_ids_follow_resolving_names(self, names: Seq<String>)
        ensures
            self.upgrade_ids(names).len() == self.resolving_names(names).len(),
            forall|k: int|
                0 <= k < self.upgrade_ids(names).len() ==> #[trigger] self.upgrade_ids(names)[k]
                    == self.class_of(self.resolving_names(names)[k]),
            forall|k: int|
                0 <= k < self.resolving_names(names).len() ==> self.lookup(
                    #[trigger] self.resolving_names(names)[k]@,
                ) is Some,
        decreases names.len(),
    {
        reveal(Seq::filter);
        if names.len() > 0 {
            self.law_upgrade_ids_follow_resolving_names(names.drop_last());
            let prev = self.resolving_names(names.drop_last());
            let ids = self.upgrade_ids(names.drop_last());
            if self.lookup(names.last()@) is Some {
                assert(self.resolving_names(names) == prev.push(names.last()));
                assert forall|k: int| 0 <= k < self.upgrade_ids(names).len() implies #[trigger] self.upgrade_ids(names)[k]
                    == self.class_of(self.resolving_names(names)[k]) by {
                    if k < ids.len() {
                        assert(self.upgrade_ids(names)[k] == ids[k]);
                        assert(self.resolving_names(names)[k] == prev[k]);
                    }
                }
                assert forall|k: int| 0 <= k < self.resolving_names(names).len() implies self.lookup(
                    #[trigger] self.resolving_names(names)[k]@,
                ) is Some by {
                    if k < prev.len() {
                        assert(self.resolving_names(names)[k] == prev[k]);
                    }
                }
            } else {
                assert(self.resolving_names(names) == prev);
            }
        }
    }

    /// The first definition named `Tank`, if any.
    pub open spec fn basic_index(self) -> Option<int> {
        if exists|i: int| 0 <= i < self.entries@.len() && #[trigger] self.entries@[i].name@ == basic_tank_name() {
            Some(choose|i: int|
                0 <= i < self.entries@.len() && #[trigger] self.entries@[i].name@ == basic_tank_name()
                    && forall|j: int| 0 <= j < i ==> self.entries@[j].name@ != basic_tank_name())
        } else {
            None
        }
    }

    /// Class id of the definition a node comes from.
    pub open spec fn node_id(self, tree: Seq<Seq<usize>>, a: int, i: int) -> u32 {
        self.entries@[tree[a][i] as int].id
    }

    /// Whether some node in the tiers before `upto` plays class `id`.
    pub open spec fn id_in_tiers(self, tree: Seq<Seq<usize>>, id: u32, upto: int) -> bool {
        exists|a: int, i: int|
            0 <= a < upto && 0 <= i < tree[a].len() && #[trigger] self.node_id(tree, a, i) == id
    }

    /// `child` is the definition that one of `parent`'s upgrade names resolves to.
    pub open spec fn upgrades_to(self, parent: int, child: int) -> bool {
        exists|u: int|
            0 <= u < self.entries@[parent].upgrade_names@.len() && self.lookup(
                #[trigger] self.entries@[parent].upgrade_names@[u]@,
            ) == Some(child)
    }

    /// The shape of a correct tree of definition indices: tier 0 is the basic
    /// tank alone; every tier is nonempty; no class appears twice; every tank
    /// past tier 0 is an upgrade of a tank one tier up; and every upgrade of a
    /// tank in tier `k` plays a class that appears within tier `k + 1`, or
    /// within tier `k` for the last tier.
    pub open spec fn is_upgrade_tree(self, tree: Seq<Seq<usize>>) -> bool {
        &&& tree.len() >= 1
        &&& self.basic_index() matches Some(b) && tree[0] == seq![b as usize]
        &&& forall|a: int| 0 <= a < tree.len() ==> (#[trigger] tree[a]).len() >= 1
        &&& forall|a: int, i: int|
            0 <= a < tree.len() && 0 <= i < tree[a].len() ==> (#[trigger] tree[a][i]) < self.entries@.len()
        &&& forall|a: int, i: int, b: int, j: int|
            0 <= a < tree.len() && 0 <= i < tree[a].len() && 0 <= b < tree.len() && 0 <= j
                < tree[b].len() && (a != b || i != j) ==> #[trigger] self.node_id(tree, a, i)
                != #[trigger] self.node_id(tree, b, j)
        &&& forall|a: int, i: int|
            1 <= a < tree.len() && 0 <= i < tree[a].len() ==> self.has_parent(
                tree[a - 1],
                #[trigger] tree[a][i],
            )
        &&& forall|a: int, i: int, u: int|
            0 <= a < tree.len() && 0 <= i < tree[a].len() && 0 <= u
                < self.entries@[tree[a][i] as int].upgrade_names@.len() ==> (#[trigger] self.lookup(
                self.entries@[tree[a][i] as int].upgrade_names@[u]@,
            ) matches Some(t) ==> self.id_in_tiers(
                tree,
                self.entries@[t].id,
                if a + 1 < tree.len() {
                    a + 2
                } else {
                    a + 1
                },
            ))
    }
}

impl TankRegistry {
    /// One discovery step of the walk: the definition `name` resolves to
    /// joins `found`, unless its class is in `seen` or already among `found`.
    pub open spec fn discover_one(self, name: Seq<char>, seen: Seq<u32>, found: Seq<usize>) -> Seq<usize> {
        match self.lookup(name) {
            Some(t) => if seen.contains(self.entries@[t].id) || self.ids_of(found).contains(
                self.entries@[t].id,
            ) {
                found
            } else {
                found.push(t as usize)
            },
            None => found,
        }
    }

    /// Discovery over a list of upgrade names, in order.
    pub open spec fn discover_names(self, names: Seq<String>, seen: Seq<u32>, found: Seq<usize>) -> Seq<usize>
        decreases names.len(),
    {
        if names.len() == 0 {
            found
        } else {
            self.discover_names(names.drop_first(), seen, self.discover_one(names[0]@, seen, found))
        }
    }

    /// Discovery over the upgrades of every tank of a tier, tank by tank.
    pub open spec fn discover_tier(self, current: Seq<usize>, seen: Seq<u32>, found: Seq<usize>) -> Seq<usize>
        decreases current.len(),
    {
        if current.len() == 0 {
            found
        } else {
            self.discover_tier(
                current.drop_first(),
                seen,
                self.discover_names(self.entries@[current[0] as int].upgrade_names@, seen, found),
            )
        }
    }

    /// Class ids of the tiers before `upto`, tier by tier.
    pub open spec fn tier_ids(self, tree: Seq<Seq<usize>>, upto: int) -> Seq<u32>
        decreases upto,
    {
        if upto <= 0 {
            Seq::empty()
        } else {
            self.tier_ids(tree, upto - 1) + self.ids_of(tree[upto - 1])
        }
    }

    /// The tiers come in discovery order: each tier is what discovery over
    /// the previous tier finds, given the classes of all earlier tiers, and
    /// discovery over the last tier finds nothing.
    pub open spec fn is_discovery_order(self, tree: Seq<Seq<usize>>) -> bool {
        &&& tree.len() >= 1
        &&& forall|k: int|
            0 <= k < tree.len() - 1 ==> #[trigger] tree[k + 1] == self.discover_tier(
                tree[k],
                self.tier_ids(tree, k + 1),
                Seq::empty(),
            )
        &&& self.discover_tier(tree[tree.len() - 1], self.tier_ids(tree, tree.len() as int), Seq::empty())
            == Seq::<usize>::empty()
    }
}

/// Whether `x` occurs in `v`.
fn contains_u32(v: &Vec<u32>, x: u32) -> (found: bool)
    ensures
        found == v@.contains(x),
{
    let mut i: usize = 0;
    while i < v.len()
        invariant
            i <= v.len(),
            forall|j: int| 0 <= j < i ==> v@[j] != x,
        decreases v.len() - i,
    {
        if v[i] == x {
            return true;
        }
        i = i + 1;
    }
    false
}

/// Whether `x` occurs in `v`.
fn contains_index(v: &Vec<usize>, x: usize) -> (found: bool)
    ensures
        found == v@.contains(x),
{
    let mut i: usize = 0;
    while i < v.len()
        invariant
            i <= v.len(),
            forall|j: int| 0 <= j < i ==> v@[j] != x,
        decreases v.len() - i,
    {
        if v[i] == x {
            return true;
        }
        i = i + 1;
    }
    false
}

impl TankRegistry {
    /// Some tank of `current` upgrades to `child`.
    pub open spec fn has_parent(self, current: Seq<usize>, child: usize) -> bool {
        exists|p: int| 0 <= p < current.len() && #[trigger] self.upgrades_to(current[p] as int, child as int)
    }

    /// Class ids of all definitions, in registry order.
    pub open spec fn all_ids(self) -> Seq<u32> {
        self.entries@.map_values(|e: TankDefEntry| e.id)
    }

    /// Class ids of the definitions at the given indices.
    pub open spec fn ids_of(self, idx: Seq<usize>) -> Seq<u32> {
        idx.map_values(|e: usize| self.entries@[e as int].id)
    }

    /// The definition registered under `key`, if any.
    pub fn find_key(&self, key: &String) -> (found: Option<usize>)
        requires
            self.keys_distinct(),
        ensures
            match found {
                Some(i) => self.lookup(key@) == Some(i as int),
                None => self.lookup(key@) is None,
            },
    {
        let mut i: usize = 0;
        while i < self.entries.len()
            invariant
                i <= self.entries@.len(),
                self.keys_distinct(),
                forall|j: int| 0 <= j < i ==> self.entries@[j].key@ != key@,
            decreases self.entries.len() - i,
        {
            if self.entries[i].key == *key {
                proof {
                    assert(self.entries@[i as int].key@ == key@);
                    let c = choose|c: int| 0 <= c < self.entries@.len() && #[trigger] self.entries@[c].key@ == key@;
                    if c != i as int {
                        if c < i {
                        } else {
                            assert(self.entries@[i as int].key@ != self.entries@[c].key@);
                        }
                    }
                }
                return Some(i);
            }
            i = i + 1;
        }
        None
    }

    /// The first definition named `Tank`, if any.
    pub fn find_basic(&self) -> (found: Option<usize>)
        ensures
            match found {
                Some(i) => self.basic_index() == Some(i as int) && i < self.entries@.len(),
                None => self.basic_index() is None,
            },
    {
        let tank = String::from_str("Tank");
        proof {
            reveal_strlit("Tank");
            assert(tank@ =~= basic_tank_name());
        }
        let mut i: usize = 0;
        while i < self.entries.len()
            invariant
                i <= self.entries@.len(),
                tank@ == basic_tank_name(),
                forall|j: int| 0 <= j < i ==> self.entries@[j].name@ != basic_tank_name(),
            decreases self.entries.len() - i,
        {
            if self.entries[i].name == tank {
                proof {
                    let w = i as int;
                    assert(0 <= w < self.entries@.len() && self.entries@[w].name@ == basic_tank_name()
                        && forall|j: int| 0 <= j < w ==> self.entries@[j].name@ != basic_tank_name());
                    let c = choose|c: int|
                        0 <= c < self.entries@.len() && #[trigger] self.entries@[c].name@ == basic_tank_name()
                            && forall|j: int| 0 <= j < c ==> self.entries@[j].name@ != basic_tank_name();
                    assert(c == w);
                }
                return Some(i);
            }
            i = i + 1;
        }
        None
    }

    /// Class ids of the upgrades of definition `entry` that resolve, in the
    /// order it names them.
    pub fn resolve_upgrades(&self, entry: usize) -> (ids: Vec<u32>)
        requires
            self.keys_distinct(),
            entry < self.entries@.len(),
        ensures
            ids@ == self.upgrade_ids(self.entries@[entry as int].upgrade_names@),
            ids@.len() == self.resolving_names(self.entries@[entry as int].upgrade_names@).len(),
            forall|k: int|
                0 <= k < ids@.len() ==> #[trigger] ids@[k] == self.class_of(
                    self.resolving_names(self.entries@[entry as int].upgrade_names@)[k],
                ),
    {
        let names = &self.entries[entry].upgrade_names;
        let mut ids: Vec<u32> = Vec::new();
        let mut u: usize = 0;
        while u < names.len()
            invariant
                u <= names@.len(),
                names@ == self.entries@[entry as int].upgrade_names@,
                self.keys_distinct(),
                ids@ == self.upgrade_ids(names@.subrange(0, u as int)),
            decreases names.len() - u,
        {
            proof {
                assert(names@.subrange(0, u + 1).drop_last() =~= names@.subrange(0, u as int));
            }
            match self.find_key(&names[u]) {
                Some(t) => ids.push(self.entries[t].id),
                None => {},
            }
            u = u + 1;
        }
        proof {
            assert(names@.subrange(0, names@.len() as int) =~= names@);
            self.law_upgrade_ids_follow_resolving_names(names@);
        }
        ids
    }

    /// Walks one tier further: every upgrade of a tank in `current` whose
    /// class is not yet in `visited` joins the next tier (first discovery
    /// wins), and its class joins `visited`.
    fn next_tier(&self, current: &Vec<usize>, visited: &mut Vec<u32>) -> (next: Vec<usize>)
        requires
            self.keys_distinct(),
            forall|p: int| 0 <= p < current@.len() ==> (#[trigger] current@[p]) < self.entries@.len(),
            old(visited)@.no_duplicates(),
        ensures
            next@ == self.discover_tier(current@, old(visited)@, Seq::empty()),
            final(visited)@ == old(visited)@ + self.ids_of(next@),
            final(visited)@.no_duplicates(),
            forall|i: int| 0 <= i < next@.len() ==> (#[trigger] next@[i]) < self.entries@.len(),
            forall|i: int| 0 <= i < next@.len() ==> self.has_parent(current@, #[trigger] next@[i]),
            forall|p: int, u: int|
                0 <= p < current@.len() && 0 <= u < self.entries@[current@[p] as int].upgrade_names@.len()
                    ==> (#[trigger] self.lookup(
                    self.entries@[current@[p] as int].upgrade_names@[u]@,
                ) matches Some(t) ==> final(visited)@.contains(self.entries@[t].id)),
    {
        let mut next: Vec<usize> = Vec::new();
        let mut ci: usize = 0;
        proof {
            assert(current@.subrange(0, current@.len() as int) =~= current@);
        }
        while ci < current.len()
            invariant
                ci <= current@.len(),
                self.keys_distinct(),
                forall|p: int| 0 <= p < current@.len() ==> (#[trigger] current@[p]) < self.entries@.len(),
                self.discover_tier(current@, old(visited)@, Seq::empty()) == self.discover_tier(
                    current@.subrange(ci as int, current@.len() as int),
                    old(visited)@,
                    next@,
                ),
                visited@ == old(visited)@ + self.ids_of(next@),
                visited@.no_duplicates(),
                forall|i: int| 0 <= i < next@.len() ==> (#[trigger] next@[i]) < self.entries@.len(),
                forall|i: int| 0 <= i < next@.len() ==> self.has_parent(current@, #[trigger] next@[i]),
                forall|p: int, u: int|
                    0 <= p < ci && 0 <= u < self.entries@[current@[p] as int].upgrade_names@.len()
                        ==> (#[trigger] self.lookup(
                        self.entries@[current@[p] as int].upgrade_names@[u]@,
                    ) matches Some(t) ==> visited@.contains(self.entries@[t].id)),
            decreases current.len() - ci,
        {
            let e = current[ci];
            let names = &self.entries[e].upgrade_names;
            let mut ui: usize = 0;
            let ghost start = next@;
            proof {
                assert(names@.subrange(0, names@.len() as int) =~= names@);
            }
            while ui < names.len()
                invariant
                    ci < current@.len(),
                    self.discover_names(names@, old(visited)@, start) == self.discover_names(
                        names@.subrange(ui as int, names@.len() as int),
                        old(visited)@,
                        next@,
                    ),
                    e == current@[ci as int],
                    e < self.entries@.len(),
                    names@ == self.entries@[e as int].upgrade_names@,
                    ui <= names@.len(),
                    self.keys_distinct(),
                    forall|p: int| 0 <= p < current@.len() ==> (#[trigger] current@[p]) < self.entries@.len(),
                    visited@ == old(visited)@ + self.ids_of(next@),
                    visited@.no_duplicates(),
                    forall|i: int| 0 <= i < next@.len() ==> (#[trigger] next@[i]) < self.entries@.len(),
                    forall|i: int| 0 <= i < next@.len() ==> self.has_parent(current@, #[trigger] next@[i]),
                    forall|p: int, u: int|
                        0 <= p < ci && 0 <= u < self.entries@[current@[p] as int].upgrade_names@.len()
                            ==> (#[trigger] self.lookup(
                            self.entries@[current@[p] as int].upgrade_names@[u]@,
                        ) matches Some(t) ==> visited@.contains(self.entries@[t].id)),
                    forall|u: int|
                        0 <= u < ui ==> (#[trigger] self.lookup(names@[u]@) matches Some(t)
                            ==> visited@.contains(self.entries@[t].id)),
                decreases names.len() - ui,
            {
                let ghost next_old = next@;
                let ghost vis_old = visited@;
                let found = self.find_key(&names[ui]);
                match found {
                    None => {},
                    Some(t) => {
                        let tid = self.entries[t].id;
                        let seen = contains_u32(visited, tid);
                        let queued = contains_index(&next, t);
                        if queued {
                            proof {
                                let k = choose|k: int| 0 <= k < next@.len() && next@[k] == t;
                                assert(self.ids_of(next@)[k] == tid);
                                assert(visited@[old(visited)@.len() + k] == tid);
                            }
                        }
                        if !seen && !queued {
                            let ghost before_v = visited@;
                            let ghost before_n = next@;
                            visited.push(tid);
                            next.push(t);
                            proof {
                                assert forall|x: u32| before_v.contains(x) implies visited@.contains(x) by {
                                    let k = choose|k: int| 0 <= k < before_v.len() && before_v[k] == x;
                                    assert(visited@[k] == x);
                                }
                                assert(visited@[visited@.len() - 1] == tid);
                                assert(self.ids_of(next@) =~= self.ids_of(before_n).push(tid));
                                assert(visited@ =~= old(visited)@ + self.ids_of(next@));
                                assert(visited@.no_duplicates()) by {
                                    assert forall|a: int, b: int|
                                        0 <= a < b < visited@.len() implies visited@[a] != visited@[b] by {
                                        if b == visited@.len() - 1 {
                                            assert(before_v.contains(visited@[a]));
                                        }
                                    }
                                }
                                assert(self.upgrades_to(e as int, t as int)) by {
                                    assert(self.lookup(self.entries@[e as int].upgrade_names@[ui as int]@)
                                        == Some(t as int));
                                }
                                assert forall|i: int|
                                    0 <= i < next@.len() implies self.has_parent(current@, #[trigger] next@[i]) by {
                                    if i == next@.len() - 1 {
                                        assert(self.upgrades_to(current@[ci as int] as int, next@[i] as int));
                                    } else {
                                        assert(next@[i] == before_n[i]);
                                    }
                                }
                            }
                        }
                    },
                }
                proof {
                    let rest = names@.subrange(ui as int, names@.len() as int);
                    assert(rest.drop_first() =~= names@.subrange(ui + 1, names@.len() as int));
                    assert(rest[0] == names@[ui as int]);
                    if let Some(t) = found {
                        let tid = self.entries@[t as int].id;
                        assert(vis_old == old(visited)@ + self.ids_of(next_old));
                        if next_old.contains(t) {
                            let k = choose|k: int| 0 <= k < next_old.len() && next_old[k] == t;
                            assert(self.ids_of(next_old)[k] == tid);
                            assert(self.ids_of(next_old).contains(tid));
                            assert(next@ == next_old);
                        } else if vis_old.contains(tid) {
                            let k = choose|k: int| 0 <= k < vis_old.len() && vis_old[k] == tid;
                            if k < old(visited)@.len() {
                                assert(old(visited)@[k] == tid);
                                assert(old(visited)@.contains(tid));
                            } else {
                                assert(self.ids_of(next_old)[k - old(visited)@.len()] == tid);
                                assert(self.ids_of(next_old).contains(tid));
                            }
                            assert(next@ == next_old);
                        } else {
                            assert(!old(visited)@.contains(tid)) by {
                                if old(visited)@.contains(tid) {
                                    let k = choose|k: int| 0 <= k < old(visited)@.len() && old(visited)@[k] == tid;
                                    assert(vis_old[k] == tid);
                                }
                            }
                            assert(!self.ids_of(next_old).contains(tid)) by {
                                if self.ids_of(next_old).contains(tid) {
                                    let k = choose|k: int| 0 <= k < self.ids_of(next_old).len() && self.ids_of(next_old)[k] == tid;
                                    assert(vis_old[old(visited)@.len() + k] == tid);
                                }
                            }
                            assert(next@ == next_old.push(t));
                        }
                        assert(self.discover_one(names@[ui as int]@, old(visited)@, next_old) == next@);
                    } else {
                        assert(self.discover_one(names@[ui as int]@, old(visited)@, next_old) == next@);
                    }
                    if let Some(t) = found {
                        assert(visited@.contains(self.entries@[t as int].id));
                    }
                    assert forall|u: int|
                        0 <= u < ui + 1 implies (#[trigger] self.lookup(names@[u]@) matches Some(t)
                            ==> visited@.contains(self.entries@[t].id)) by {
                        if u == ui {
                            if let Some(t) = self.lookup(names@[u]@) {
                                assert(self.entries@[t].id == self.entries@[found->0 as int].id);
                            }
                        }
                    }
                }
                ui = ui + 1;
            }
            proof {
                let sub = current@.subrange(ci as int, current@.len() as int);
                assert(sub.drop_first() =~= current@.subrange(ci + 1, current@.len() as int));
                assert(sub[0] == e);
                assert(names@.subrange(names@.len() as int, names@.len() as int) =~= Seq::<String>::empty());
                assert(self.discover_names(names@, old(visited)@, start) == next@);
                assert forall|p: int, u: int|
                    0 <= p < ci + 1 && 0 <= u < self.entries@[current@[p] as int].upgrade_names@.len()
                        implies (#[trigger] self.lookup(
                        self.entries@[current@[p] as int].upgrade_names@[u]@,
                    ) matches Some(t) ==> visited@.contains(self.entries@[t].id)) by {
                    if p == ci {
                        assert(self.lookup(names@[u]@) == self.lookup(
                            self.entries@[current@[p] as int].upgrade_names@[u]@,
                        ));
                    }
                }
            }
            ci = ci + 1;
        }
        next
    }
}

/// The tiers as sequences of definition indices.
pub open spec fn tiers_view(tiers: Seq<Vec<usize>>) -> Seq<Seq<usize>> {
    tiers.map_values(|v: Vec<usize>| v@)
}

impl TankRegistry {
    proof fn lemma_visited_bounded(self, visited: Seq<u32>)
        requires
            visited.no_duplicates(),
            forall|k: int| 0 <= k < visited.len() ==> self.all_ids().contains(#[trigger] visited[k]),
        ensures
            visited.len() <= self.entries@.len(),
    {
        broadcast use seq_to_set_is_finite;

        visited.unique_seq_to_set();
        assert(visited.to_set().subset_of(self.all_ids().to_set())) by {
            assert forall|x: u32| visited.to_set().contains(x) implies self.all_ids().to_set().contains(x) by {
                let k = choose|k: int| 0 <= k < visited.len() && visited[k] == x;
                assert(self.all_ids().contains(visited[k]));
            }
        }
        vstd::set_lib::lemma_len_subset(visited.to_set(), self.all_ids().to_set());
        self.all_ids().lemma_cardinality_of_set();
    }

    proof fn lemma_tree_ids_bounded(self, tree: Seq<Seq<usize>>, visited: Seq<u32>)
        requires
            visited.no_duplicates(),
            forall|a: int, i: int|
                0 <= a < tree.len() && 0 <= i < tree[a].len() ==> (#[trigger] tree[a][i]) < self.entries@.len(),
            forall|x: u32| #[trigger] visited.contains(x) ==> self.id_in_tiers(tree, x, tree.len() as int),
        ensures
            visited.len() <= self.entries@.len(),
    {
        assert forall|k: int| 0 <= k < visited.len() implies self.all_ids().contains(#[trigger] visited[k]) by {
            assert(visited.contains(visited[k]));
            let (a, i) = choose|a: int, i: int|
                0 <= a < tree.len() && 0 <= i < tree[a].len() && #[trigger] self.node_id(tree, a, i) == visited[k];
            assert(self.all_ids()[tree[a][i] as int] == visited[k]);
        }
        self.lemma_visited_bounded(visited);
    }

    /// What holds of the tiers and the visited classes between two steps of
    /// the breadth-first walk from the basic tank `b`.
    spec fn bfs_inv(self, tree: Seq<Seq<usize>>, visited: Seq<u32>, b: usize) -> bool {
        &&& self.keys_distinct()
        &&& tree.len() >= 1
        &&& self.basic_index() == Some(b as int)
        &&& tree[0] == seq![b]
        &&& forall|a: int| 0 <= a < tree.len() ==> (#[trigger] tree[a]).len() >= 1
        &&& forall|a: int, i: int|
            0 <= a < tree.len() && 0 <= i < tree[a].len() ==> (#[trigger] tree[a][i]) < self.entries@.len()
        &&& forall|a: int, i: int, c: int, j: int|
            0 <= a < tree.len() && 0 <= i < tree[a].len() && 0 <= c < tree.len() && 0 <= j
                < tree[c].len() && (a != c || i != j) ==> #[trigger] self.node_id(tree, a, i)
                != #[trigger] self.node_id(tree, c, j)
        &&& forall|a: int, i: int|
            1 <= a < tree.len() && 0 <= i < tree[a].len() ==> self.has_parent(
                tree[a - 1],
                #[trigger] tree[a][i],
            )
        &&& forall|a: int, i: int, u: int|
            0 <= a < tree.len() - 1 && 0 <= i < tree[a].len() && 0 <= u
                < self.entries@[tree[a][i] as int].upgrade_names@.len() ==> (#[trigger] self.lookup(
                self.entries@[tree[a][i] as int].upgrade_names@[u]@,
            ) matches Some(t) ==> self.id_in_tiers(tree, self.entries@[t].id, a + 2))
        &&& forall|x: u32| #[trigger] visited.contains(x) <==> self.id_in_tiers(tree, x, tree.len() as int)
        &&& visited.no_duplicates()
        &&& visited == self.tier_ids(tree, tree.len() as int)
        &&& forall|k: int|
            0 <= k < tree.len() - 1 ==> #[trigger] tree[k + 1] == self.discover_tier(
                tree[k],
                self.tier_ids(tree, k + 1),
                Seq::empty(),
            )
    }

    /// What `next_tier` promises about a step from the last tier of `tree`.
    spec fn step_facts(self, tree: Seq<Seq<usize>>, visited: Seq<u32>, next: Seq<usize>, after: Seq<u32>) -> bool {
        let current = tree[tree.len() - 1];
        &&& next == self.discover_tier(current, visited, Seq::empty())
        &&& after == visited + self.ids_of(next)
        &&& after.no_duplicates()
        &&& forall|i: int| 0 <= i < next.len() ==> (#[trigger] next[i]) < self.entries@.len()
        &&& forall|i: int| 0 <= i < next.len() ==> self.has_parent(current, #[trigger] next[i])
        &&& forall|p: int, u: int|
            0 <= p < current.len() && 0 <= u < self.entries@[current[p] as int].upgrade_names@.len()
                ==> (#[trigger] self.lookup(
                self.entries@[current[p] as int].upgrade_names@[u]@,
            ) matches Some(t) ==> after.contains(self.entries@[t].id))
    }

    proof fn lemma_tier_ids_prefix(self, tree: Seq<Seq<usize>>, other: Seq<Seq<usize>>, upto: int)
        requires
            0 <= upto <= tree.len(),
            upto <= other.len(),
            forall|k: int| 0 <= k < upto ==> tree[k] == other[k],
        ensures
            self.tier_ids(tree, upto) == self.tier_ids(other, upto),
        decreases upto,
    {
        if upto > 0 {
            self.lemma_tier_ids_prefix(tree, other, upto - 1);
        }
    }

    proof fn lemma_step_order(self, tree: Seq<Seq<usize>>, visited: Seq<u32>, b: usize, next: Seq<usize>, after: Seq<u32>)
        requires
            self.bfs_inv(tree, visited, b),
            self.step_facts(tree, visited, next, after),
        ensures
            after == self.tier_ids(tree.push(next), (tree.len() + 1) as int),
            forall|k: int|
                0 <= k < tree.len() ==> #[trigger] tree.push(next)[k + 1] == self.discover_tier(
                    tree.push(next)[k],
                    self.tier_ids(tree.push(next), k + 1),
                    Seq::empty(),
                ),
    {
        let t2 = tree.push(next);
        let l = tree.len() as int;
        self.lemma_tier_ids_prefix(tree, t2, l);
        assert(t2[l] == next);
        assert(self.tier_ids(t2, l + 1) == self.tier_ids(t2, l) + self.ids_of(t2[l]));
        assert forall|k: int| 0 <= k < l implies #[trigger] t2[k + 1] == self.discover_tier(
            t2[k],
            self.tier_ids(t2, k + 1),
            Seq::empty(),
        ) by {
            self.lemma_tier_ids_prefix(tree, t2, k + 1);
            assert(t2[k] == tree[k]);
            if k < l - 1 {
                assert(t2[k + 1] == tree[k + 1]);
            }
        }
    }

    proof fn lemma_bfs_start(self, b: usize)
        requires
            self.keys_distinct(),
            self.basic_index() == Some(b as int),
            b < self.entries@.len(),
        ensures
            self.bfs_inv(seq![seq![b]], seq![self.entries@[b as int].id], b),
    {
        let t = seq![seq![b]];
        let v = seq![self.entries@[b as int].id];
        assert(self.tier_ids(t, 0) == Seq::<u32>::empty());
        assert(self.ids_of(t[0]) =~= v);
        assert(self.tier_ids(t, 1) =~= v);
        assert forall|x: u32| #[trigger] v.contains(x) <==> self.id_in_tiers(t, x, 1) by {
            if v.contains(x) {
                assert(self.node_id(t, 0, 0) == x);
            }
            if self.id_in_tiers(t, x, 1) {
                assert(v[0] == x);
            }
        }
    }

    proof fn lemma_bfs_done(self, tree: Seq<Seq<usize>>, visited: Seq<u32>, b: usize, next: Seq<usize>, after: Seq<u32>)
        requires
            self.bfs_inv(tree, visited, b),
            self.step_facts(tree, visited, next, after),
            next.len() == 0,
        ensures
            self.is_upgrade_tree(tree),
            self.is_discovery_order(tree),
    {
        assert(self.ids_of(next) =~= Seq::<u32>::empty());
        assert(after =~= visited);
        let l = tree.len() as int;
        assert(visited == self.tier_ids(tree, l));
        assert(self.discover_tier(tree[l - 1], self.tier_ids(tree, l), Seq::empty()) == next);
        assert(next =~= Seq::<usize>::empty());
        assert forall|a: int, i: int, u: int|
            0 <= a < l && 0 <= i < tree[a].len() && 0 <= u < self.entries@[tree[a][i] as int].upgrade_names@.len()
                implies (#[trigger] self.lookup(self.entries@[tree[a][i] as int].upgrade_names@[u]@) matches Some(t)
                ==> self.id_in_tiers(tree, self.entries@[t].id, if a + 1 < l { a + 2 } else { a + 1 })) by {
            if a == l - 1 {
                if let Some(t) = self.lookup(self.entries@[tree[a][i] as int].upgrade_names@[u]@) {
                    assert(after.contains(self.entries@[t].id));
                }
            }
        }
        assert(self.basic_index() matches Some(w) && tree[0] == seq![w as usize]);
        assert(forall|a: int| 0 <= a < tree.len() ==> (#[trigger] tree[a]).len() >= 1);
        assert(forall|a: int, i: int|
            0 <= a < tree.len() && 0 <= i < tree[a].len() ==> (#[trigger] tree[a][i]) < self.entries@.len());
        assert(forall|a: int, i: int, c: int, j: int|
            0 <= a < tree.len() && 0 <= i < tree[a].len() && 0 <= c < tree.len() && 0 <= j < tree[c].len() && (a
                != c || i != j) ==> #[trigger] self.node_id(tree, a, i) != #[trigger] self.node_id(tree, c, j));
    }

    proof fn lemma_in_visited(self, tree: Seq<Seq<usize>>, visited: Seq<u32>, b: usize, x: u32)
        requires
            self.bfs_inv(tree, visited, b),
            self.id_in_tiers(tree, x, tree.len() as int),
        ensures
            exists|k: int| 0 <= k < visited.len() && visited[k] == x,
    {
        assert(visited.contains(x));
    }

    proof fn lemma_step_visited(self, tree: Seq<Seq<usize>>, visited: Seq<u32>, b: usize, next: Seq<usize>, after: Seq<u32>)
        requires
            self.bfs_inv(tree, visited, b),
            self.step_facts(tree, visited, next, after),
        ensures
            forall|x: u32| #[trigger] after.contains(x) <==> self.id_in_tiers(tree.push(next), x, (tree.len() + 1) as int),
    {
        let t2 = tree.push(next);
        let l = tree.len() as int;
        assert(self.ids_of(next).len() == next.len());
        assert forall|x: u32| #[trigger] after.contains(x) <==> self.id_in_tiers(t2, x, l + 1) by {
            if after.contains(x) {
                let k = choose|k: int| 0 <= k < after.len() && after[k] == x;
                if k < visited.len() {
                    assert(visited[k] == x);
                    assert(visited.contains(x));
                    let (a, i) = choose|a: int, i: int|
                        0 <= a < l && 0 <= i < tree[a].len() && #[trigger] self.node_id(tree, a, i) == x;
                    assert(self.node_id(t2, a, i) == x);
                } else {
                    let i = k - visited.len();
                    assert(self.ids_of(next)[i] == x);
                    assert(self.node_id(t2, l, i) == x);
                }
            }
            if self.id_in_tiers(t2, x, l + 1) {
                let (a, i) = choose|a: int, i: int|
                    0 <= a < l + 1 && 0 <= i < t2[a].len() && #[trigger] self.node_id(t2, a, i) == x;
                if a < l {
                    assert(self.node_id(tree, a, i) == x);
                    self.lemma_in_visited(tree, visited, b, x);
                    let k = choose|k: int| 0 <= k < visited.len() && visited[k] == x;
                    assert(after[k] == x);
                } else {
                    assert(after[visited.len() + i] == x);
                }
            }
        }
    }

    proof fn lemma_step_distinct(self, tree: Seq<Seq<usize>>, visited: Seq<u32>, b: usize, next: Seq<usize>, after: Seq<u32>)
        requires
            self.bfs_inv(tree, visited, b),
            self.step_facts(tree, visited, next, after),
        ensures
            forall|a: int, i: int, c: int, j: int|
                0 <= a < tree.len() + 1 && 0 <= i < tree.push(next)[a].len() && 0 <= c < tree.len() + 1 && 0 <= j
                    < tree.push(next)[c].len() && (a != c || i != j) ==> #[trigger] self.node_id(tree.push(next), a, i)
                    != #[trigger] self.node_id(tree.push(next), c, j),
    {
        let t2 = tree.push(next);
        let l = tree.len() as int;
        assert(self.ids_of(next).len() == next.len());
        assert forall|a: int, i: int, c: int, j: int|
            0 <= a < l + 1 && 0 <= i < t2[a].len() && 0 <= c < l + 1 && 0 <= j < t2[c].len() && (a != c
                || i != j) implies #[trigger] self.node_id(t2, a, i) != #[trigger] self.node_id(t2, c, j) by {
            if a < l && c < l {
                assert(self.node_id(t2, a, i) == self.node_id(tree, a, i));
                assert(self.node_id(t2, c, j) == self.node_id(tree, c, j));
            } else if a == l && c == l {
                assert(after[visited.len() + i] == self.node_id(t2, a, i));
                assert(after[visited.len() + j] == self.node_id(t2, c, j));
            } else if a == l {
                let x = self.node_id(t2, c, j);
                assert(self.node_id(tree, c, j) == x);
                self.lemma_in_visited(tree, visited, b, x);
                let k = choose|k: int| 0 <= k < visited.len() && visited[k] == x;
                assert(after[k] == x);
                assert(after[visited.len() + i] == self.node_id(t2, a, i));
            } else {
                let x = self.node_id(t2, a, i);
                assert(self.node_id(tree, a, i) == x);
                self.lemma_in_visited(tree, visited, b, x);
                let k = choose|k: int| 0 <= k < visited.len() && visited[k] == x;
                assert(after[k] == x);
                assert(after[visited.len() + j] == self.node_id(t2, c, j));
            }
        }
    }

    #[verifier::spinoff_prover]
    proof fn lemma_step_parents(self, tree: Seq<Seq<usize>>, visited: Seq<u32>, b: usize, next: Seq<usize>, after: Seq<u32>)
        requires
            self.bfs_inv(tree, visited, b),
            self.step_facts(tree, visited, next, after),
        ensures
            forall|a: int, i: int|
                1 <= a < tree.len() + 1 && 0 <= i < tree.push(next)[a].len() ==> self.has_parent(
                    tree.push(next)[a - 1],
                    #[trigger] tree.push(next)[a][i],
                ),
    {
        let t2 = tree.push(next);
        let l = tree.len() as int;
        assert forall|a: int, i: int|
            1 <= a < l + 1 && 0 <= i < t2[a].len() implies self.has_parent(t2[a - 1], #[trigger] t2[a][i]) by {
            if a < l {
                assert(t2[a] == tree[a]);
                assert(t2[a - 1] == tree[a - 1]);
            }
        }
    }

    #[verifier::spinoff_prover]
    #[verifier::rlimit(40)]
    proof fn lemma_step_complete(self, tree: Seq<Seq<usize>>, visited: Seq<u32>, b: usize, next: Seq<usize>, after: Seq<u32>)
        requires
            self.bfs_inv(tree, visited, b),
            self.step_facts(tree, visited, next, after),
            forall|x: u32| #[trigger] after.contains(x) <==> self.id_in_tiers(tree.push(next), x, (tree.len() + 1) as int),
        ensures
            forall|a: int, i: int, u: int|
                0 <= a < tree.len() && 0 <= i < tree.push(next)[a].len() && 0 <= u
                    < self.entries@[tree.push(next)[a][i] as int].upgrade_names@.len() ==> (#[trigger] self.lookup(
                    self.entries@[tree.push(next)[a][i] as int].upgrade_names@[u]@,
                ) matches Some(t) ==> self.id_in_tiers(tree.push(next), self.entries@[t].id, a + 2)),
    {
        let t2 = tree.push(next);
        let l = tree.len() as int;
        assert forall|a: int, i: int, u: int|
            0 <= a < l && 0 <= i < t2[a].len() && 0 <= u < self.entries@[t2[a][i] as int].upgrade_names@.len()
                implies (#[trigger] self.lookup(self.entries@[t2[a][i] as int].upgrade_names@[u]@) matches Some(t)
                ==> self.id_in_tiers(t2, self.entries@[t].id, a + 2)) by {
            assert(t2[a] == tree[a]);
            if let Some(t) = self.lookup(self.entries@[t2[a][i] as int].upgrade_names@[u]@) {
                let x = self.entries@[t].id;
                if a < l - 1 {
                    assert(self.id_in_tiers(tree, x, a + 2));
                    let (c, j) = choose|c: int, j: int|
                        0 <= c < a + 2 && 0 <= j < tree[c].len() && #[trigger] self.node_id(tree, c, j) == x;
                    assert(self.node_id(t2, c, j) == x);
                } else {
                    assert(after.contains(x));
                    assert(self.id_in_tiers(t2, x, l + 1));
                }
            }
        }
    }

    proof fn lemma_bfs_step(self, tree: Seq<Seq<usize>>, visited: Seq<u32>, b: usize, next: Seq<usize>, after: Seq<u32>)
        requires
            self.bfs_inv(tree, visited, b),
            self.step_facts(tree, visited, next, after),
            next.len() >= 1,
        ensures
            self.bfs_inv(tree.push(next), after, b),
    {
        let t2 = tree.push(next);
        self.lemma_step_visited(tree, visited, b, next, after);
        self.lemma_step_distinct(tree, visited, b, next, after);
        self.lemma_step_parents(tree, visited, b, next, after);
        self.lemma_step_complete(tree, visited, b, next, after);
        self.lemma_step_order(tree, visited, b, next, after);
        assert(t2.len() == tree.len() + 1);
        assert(t2[0] == tree[0]);
        assert forall|a: int| 0 <= a < t2.len() implies (#[trigger] t2[a]).len() >= 1 by {
            if a < tree.len() {
                assert(t2[a] == tree[a]);
            }
        }
        assert forall|a: int, i: int| 0 <= a < t2.len() && 0 <= i < t2[a].len() implies (#[trigger] t2[a][i])
            < self.entries@.len() by {
            if a < tree.len() {
                assert(t2[a] == tree[a]);
            }
        }
    }

    /// Builds the upgrade tree as tiers of definition indices, breadth first
    /// from the basic tank: each tier holds the upgrades of the previous one
    /// whose classes have not appeared yet, in order of discovery. Fails when
    /// no definition is named `Tank`.
    pub fn build_tiers(&self) -> (tiers: Result<Vec<Vec<usize>>, TreeError>)
        requires
            self.keys_distinct(),
        ensures
            tiers is Err <==> self.basic_index() is None,
            tiers matches Err(e) ==> e == TreeError::BasicTankMissing,
            tiers matches Ok(t) ==> self.is_upgrade_tree(tiers_view(t@)),
            tiers matches Ok(t) ==> self.is_discovery_order(tiers_view(t@)),
    {
        let b = match self.find_basic() {
            Some(b) => b,
            None => return Err(TreeError::BasicTankMissing),
        };
        let mut first: Vec<usize> = Vec::new();
        first.push(b);
        let mut tiers: Vec<Vec<usize>> = Vec::new();
        tiers.push(first);
        let mut visited: Vec<u32> = Vec::new();
        visited.push(self.entries[b].id);
        proof {
            self.lemma_bfs_start(b);
            assert(tiers_view(tiers@) =~= seq![seq![b]]);
            assert(visited@ =~= seq![self.entries@[b as int].id]);
        }
        loop
            invariant
                self.bfs_inv(tiers_view(tiers@), visited@, b),
                tiers@.len() >= 1,
            ensures
                self.is_upgrade_tree(tiers_view(tiers@)),
                self.is_discovery_order(tiers_view(tiers@)),
            decreases self.entries@.len() - visited@.len(),
        {
            let last = tiers.len() - 1;
            let ghost before = tiers_view(tiers@);
            let ghost vbefore = visited@;
            proof {
                self.lemma_tree_ids_bounded(before, vbefore);
                assert(tiers@[last as int]@ == before[last as int]);
                assert forall|p: int| 0 <= p < tiers@[last as int]@.len() implies (#[trigger] tiers@[last as int]@[p])
                    < self.entries@.len() by {
                    assert(before[last as int][p] == tiers@[last as int]@[p]);
                }
            }
            let next = self.next_tier(&tiers[last], &mut visited);
            proof {
                assert(self.step_facts(before, vbefore, next@, visited@));
            }
            if next.len() == 0 {
                proof {
                    self.lemma_bfs_done(before, vbefore, b, next@, visited@);
                }
                break;
            }
            let ghost nv = next@;
            tiers.push(next);
            proof {
                self.lemma_bfs_step(before, vbefore, b, nv, visited@);
                assert(tiers_view(tiers@) =~= before.push(nv));
                self.lemma_tree_ids_bounded(tiers_view(tiers@), visited@);
            }
        }
        Ok(tiers)
    }

    /// Builds the upgrade tree: `build_tiers`, with each tank's resolved
    /// upgrade ids attached.
    pub fn build_tree(&self) -> (tree: Result<Vec<Vec<TreeNode>>, TreeError>)
        requires
            self.keys_distinct(),
        ensures
            tree is Err <==> self.basic_index() is None,
            tree matches Err(e) ==> e == TreeError::BasicTankMissing,
            tree matches Ok(t) ==> {
                let shape = t@.map_values(|tier: Vec<TreeNode>| tier@.map_values(|n: TreeNode| n.entry));
                &&& self.is_upgrade_tree(shape)
                &&& self.is_discovery_order(shape)
                &&& forall|a: int, i: int|
                    0 <= a < t@.len() && 0 <= i < t@[a]@.len() ==> (#[trigger] t@[a]@[i]).upgrades@
                        == self.upgrade_ids(self.entries@[t@[a]@[i].entry as int].upgrade_names@)
                &&& forall|a: int, i: int|
                    0 <= a < t@.len() && 0 <= i < t@[a]@.len() ==> {
                        let node = #[trigger] t@[a]@[i];
                        let resolving = self.resolving_names(self.entries@[node.entry as int].upgrade_names@);
                        &&& node.upgrades@.len() == resolving.len()
                        &&& forall|k: int|
                            0 <= k < resolving.len() ==> node.upgrades@[k] == self.class_of(resolving[k])
                    }
            },
    {
        let tiers = match self.build_tiers() {
            Ok(t) => t,
            Err(e) => return Err(e),
        };
        let ghost shape = tiers_view(tiers@);
        let mut tree: Vec<Vec<TreeNode>> = Vec::new();
        let mut a: usize = 0;
        while a < tiers.len()
            invariant
                a <= tiers@.len(),
                self.keys_distinct(),
                shape == tiers_view(tiers@),
                self.is_upgrade_tree(shape),
                self.is_discovery_order(shape),
                tree@.len() == a,
                forall|c: int| 0 <= c < a ==> (#[trigger] tree@[c])@.map_values(|n: TreeNode| n.entry) == shape[c],
                forall|c: int, i: int|
                    0 <= c < a && 0 <= i < tree@[c]@.len() ==> (#[trigger] tree@[c]@[i]).upgrades@
                        == self.upgrade_ids(self.entries@[tree@[c]@[i].entry as int].upgrade_names@),
            decreases tiers.len() - a,
        {
            let tier = &tiers[a];
            let mut nodes: Vec<TreeNode> = Vec::new();
            let mut i: usize = 0;
            while i < tier.len()
                invariant
                    a < tiers@.len(),
                    shape == tiers_view(tiers@),
                    tier@ == shape[a as int],
                    self.keys_distinct(),
                    self.is_upgrade_tree(shape),
                    i <= tier@.len(),
                    nodes@.len() == i,
                    forall|j: int| 0 <= j < i ==> (#[trigger] nodes@[j]).entry == tier@[j],
                    forall|j: int|
                        0 <= j < i ==> (#[trigger] nodes@[j]).upgrades@ == self.upgrade_ids(
                            self.entries@[nodes@[j].entry as int].upgrade_names@,
                        ),
                decreases tier.len() - i,
            {
                let entry = tier[i];
                proof {
                    assert(shape.len() == tiers@.len());
                    assert(shape[a as int][i as int] == entry);
                    assert(shape[a as int][i as int] < self.entries@.len());
                }
                let upgrades = self.resolve_upgrades(entry);
                nodes.push(TreeNode { entry, upgrades });
                i = i + 1;
            }
            assert(nodes@.map_values(|n: TreeNode| n.entry) =~= shape[a as int]);
            tree.push(nodes);
            a = a + 1;
        }
        proof {
            let built = tree@.map_values(|tier: Vec<TreeNode>| tier@.map_values(|n: TreeNode| n.entry));
            assert(built =~= shape);
            assert forall|a: int, i: int| 0 <= a < tree@.len() && 0 <= i < tree@[a]@.len() implies {
                let node = #[trigger] tree@[a]@[i];
                let resolving = self.resolving_names(self.entries@[node.entry as int].upgrade_names@);
                &&& node.upgrades@.len() == resolving.len()
                &&& forall|k: int| 0 <= k < resolving.len() ==> node.upgrades@[k] == self.class_of(resolving[k])
            } by {
                let node = tree@[a]@[i];
                self.law_upgrade_ids_follow_resolving_names(self.entries@[node.entry as int].upgrade_names@);
            }
        }
        Ok(tree)
    }
}

} // verus!
