//! The class-upgrade choices the server offers the client, and the grid the
//! upgrade panel lays them out in.
use vstd::prelude::*;
use crate::tanks::BarrelBits;

verus! {

/// A tank class the player may upgrade to.
pub struct TankOption {
    pub name: String,
    pub tier: u32,
    pub sides: u32,
    pub barrels: Vec<BarrelBits>,
}

/// A tank option as plain values.
pub struct TankOptionView {
    pub name: Seq<char>,
    pub tier: u32,
    pub sides: u32,
    pub barrels: Seq<BarrelBits>,
}

impl View for TankOption {
    type V = TankOptionView;

    open spec fn view(&self) -> TankOptionView {
        TankOptionView { name: self.name@, tier: self.tier, sides: self.sides, barrels: self.barrels@ }
    }
}

/// The options as plain values.
pub open spec fn options_view(options: Seq<TankOption>) -> Seq<TankOptionView> {
    options.map_values(|o: TankOption| o@)
}

impl TankOption {
    /// An equal, separately owned option.
    pub fn duplicate(&self) -> (copy: TankOption)
        ensures
            copy@ == self@,
    {
        let mut barrels: Vec<BarrelBits> = Vec::new();
        let mut i: usize = 0;
        while i < self.barrels.len()
            invariant
                i <= self.barrels@.len(),
                barrels@ == self.barrels@.subrange(0, i as int),
            decreases self.barrels.len() - i,
        {
            barrels.push(self.barrels[i]);
            i = i + 1;
            proof {
                assert(barrels@ =~= self.barrels@.subrange(0, i as int));
            }
        }
        proof {
            assert(barrels@ =~= self.barrels@);
        }
        TankOption { name: self.name.clone(), tier: self.tier, sides: self.sides, barrels }
    }
}

fn duplicate_all(options: &Vec<TankOption>) -> (copy: Vec<TankOption>)
    ensures
        options_view(copy@) == options_view(options@),
{
    let mut copy: Vec<TankOption> = Vec::new();
    let mut i: usize = 0;
    while i < options.len()
        invariant
            i <= options@.len(),
            options_view(copy@) == options_view(options@.subrange(0, i as int)),
        decreases options.len() - i,
    {
        let o = options[i].duplicate();
        let ghost before = copy@;
        copy.push(o);
        proof {
            assert(options_view(copy@) =~= options_view(before).push(options@[i as int]@));
            assert(options_view(options@.subrange(0, i + 1)) =~= options_view(
                options@.subrange(0, i as int),
            ).push(options@[i as int]@));
        }
        i = i + 1;
    }
    proof {
        assert(options@.subrange(0, options@.len() as int) =~= options@);
    }
    copy
}

/// The latest upgrade choices and a generation counter that changes (mod
/// 2^32) with every push, so that the panel can tell when to rebuild.
pub struct TankOptionStore {
    generation: u32,
    options: Vec<TankOption>,
}

impl TankOptionStore {
    /// Generation of the current choices.
    pub closed spec fn generation_spec(&self) -> u32 {
        self.generation
    }

    /// The current choices.
    pub closed spec fn options_spec(&self) -> Seq<TankOptionView> {
        options_view(self.options@)
    }

    /// No choices yet, at generation 0.
    pub fn new() -> (store: Self)
        ensures
            store.generation_spec() == 0,
            store.options_spec() == Seq::<TankOptionView>::empty(),
    {
        let store = TankOptionStore { generation: 0, options: Vec::new() };
        assert(store.options_spec() =~= Seq::<TankOptionView>::empty());
        store
    }
}

/// Replaces the choices and bumps the generation (wrapping).
pub fn push_tank_options(store: &mut TankOptionStore, options: Vec<TankOption>)
    ensures
        final(store).generation_spec() == vstd::wrapping::u32_specs::wrapping_add(
            old(store).generation_spec(),
            1,
        ),
        final(store).options_spec() == options_view(options@),
{
    store.generation = store.generation.wrapping_add(1);
    store.options = options;
}

/// A copy of the current choices.
pub fn current_options(store: &TankOptionStore) -> (options: Vec<TankOption>)
    ensures
        options_view(options@) == store.options_spec(),
{
    duplicate_all(&store.options)
}

/// The generation and a copy of the current choices.
pub fn options_snapshot(store: &TankOptionStore) -> (snapshot: (u32, Vec<TankOption>))
    ensures
        snapshot.0 == store.generation_spec(),
        options_view(snapshot.1@) == store.options_spec(),
{
    (store.generation, duplicate_all(&store.options))
}

/// Fewest and most columns of the upgrade grid.
pub const MIN_COLS: usize = 3;

/// Most columns of the upgrade grid.
pub const MAX_COLS: usize = 5;

/// The smallest `k` with `k * k >= n`.
pub open spec fn is_ceil_sqrt(k: nat, n: nat) -> bool {
    k * k >= n && (k == 0 || (k - 1) * (k - 1) < n)
}

/// `k` clamped to `MIN_COLS..=MAX_COLS`.
pub open spec fn clamp_cols(k: nat) -> nat {
    if k < MIN_COLS {
        MIN_COLS as nat
    } else if k > MAX_COLS {
        MAX_COLS as nat
    } else {
        k
    }
}

/// Columns for `n` tiles, by size band.
pub open spec fn grid_cols_spec(n: nat) -> nat {
    if n <= 9 {
        3
    } else if n <= 16 {
        4
    } else {
        5
    }
}

/// Columns of the upgrade grid for `n` tiles: `MIN_COLS` up to that many
/// tiles, otherwise the ceiling of the square root of `n`, clamped to
/// `MIN_COLS..=MAX_COLS`.
pub fn grid_cols(n: usize) -> (cols: usize)
    ensures
        cols == grid_cols_spec(n as nat),
        n <= MIN_COLS ==> cols == MIN_COLS,
        forall|k: nat| n > MIN_COLS && #[trigger] is_ceil_sqrt(k, n as nat) ==> cols == clamp_cols(k),
{
    if n <= MIN_COLS {
        return MIN_COLS;
    }
    let mut k: usize = 0;
    while k < MAX_COLS && k * k < n
        invariant
            k <= MAX_COLS,
            k * k <= 25,
            n > MIN_COLS,
            forall|j: nat| j < k ==> #[trigger] (j * j) < n,
        decreases MAX_COLS - k,
    {
        k = k + 1;
        assert(k * k <= 25) by (nonlinear_arith)
            requires
                k <= 5,
        ;
    }
    proof {
        assert forall|m: nat| #[trigger] is_ceil_sqrt(m, n as nat) implies (if k as nat <= MIN_COLS {
            MIN_COLS as nat
        } else {
            k as nat
        }) == clamp_cols(m) by {
            if k < MAX_COLS {
                if m < k {
                    assert(m * m < n);
                } else if m > k {
                    assert((m - 1) * (m - 1) >= k * k) by (nonlinear_arith)
                        requires
                            m > k,
                    ;
                }
            } else {
                if m < MAX_COLS {
                    assert(m * m < n);
                }
            }
        }
        if k < MAX_COLS {
            assert(k * k >= n);
            if k >= 1 {
                assert(((k - 1) as nat) * ((k - 1) as nat) < n);
            }
        }
        assert(2 * 2 == 4 && 3 * 3 == 9 && 4 * 4 == 16 && 5 * 5 == 25);
        if n <= 9 {
            assert(k <= 3) by {
                if k > 3 {
                    assert(3 * 3 < n);
                }
            }
        } else if n <= 16 {
            assert(k == 4) by {
                if k > 4 {
                    assert(4 * 4 < n);
                }
                if k < 4 {
                    assert(k * k < n);
                    assert(k * k <= 9) by (nonlinear_arith)
                        requires
                            k < 4,
                    ;
                }
            }
        } else {
            assert(k == 5) by {
                if k < 5 {
                    assert(k * k <= 16) by (nonlinear_arith)
                        requires
                            k < 5,
                    ;
                }
            }
        }
    }
    if k <= MIN_COLS {
        MIN_COLS
    } else {
        k
    }
}

/// Rows of the upgrade grid for `n` tiles.
pub fn grid_rows(n: usize) -> (rows: usize)
    requires
        n + grid_cols_spec(n as nat) <= usize::MAX,
    ensures
        rows as int == (n + grid_cols_spec(n as nat) - 1) / (grid_cols_spec(n as nat) as int),
{
    let cols = grid_cols(n);
    (n + cols - 1) / cols
}

/// The colour a tier's tiles are drawn in.
#[derive(Clone, Copy, Debug, PartialEq, Eq, Structural)]
pub enum TierColor {
    Blue,
    Red,
    Purple,
    Pentagon,
}

/// Tiles cycle through four colours by tier.
pub fn tier_color(tier: u32) -> (color: TierColor)
    ensures
        tier % 4 == 0 ==> color == TierColor::Blue,
        tier % 4 == 1 ==> color == TierColor::Red,
        tier % 4 == 2 ==> color == TierColor::Purple,
        tier % 4 == 3 ==> color == TierColor::Pentagon,
{
    match tier % 4 {
        0 => TierColor::Blue,
        1 => TierColor::Red,
        2 => TierColor::Purple,
        _ => TierColor::Pentagon,
    }
}

/// Upgrade level a stat bar shows at most.
pub const MAX_STAT_LEVEL: u8 = 7;

/// One stat bar of the upgrade panel: the level shown (capped at
/// `MAX_STAT_LEVEL`) and whether its plus button is live (a point to spend
/// and room to grow).
pub open spec fn stat_row_spec(level: u8, points: u32) -> (u8, bool) {
    let shown = if level < MAX_STAT_LEVEL { level } else { MAX_STAT_LEVEL };
    (shown, points > 0 && shown < MAX_STAT_LEVEL)
}

/// The shown level and button state of each of the eight stat bars.
pub fn stat_rows(levels: &[u8; 8], points: u32) -> (rows: Vec<(u8, bool)>)
    ensures
        rows@.len() == 8,
        forall|i: int| 0 <= i < 8 ==> #[trigger] rows@[i] == stat_row_spec(levels@[i], points),
{
    let mut rows: Vec<(u8, bool)> = Vec::new();
    let mut i: usize = 0;
    while i < 8
        invariant
            i <= 8,
            levels@.len() == 8,
            rows@.len() == i,
            forall|k: int| 0 <= k < i ==> #[trigger] rows@[k] == stat_row_spec(levels@[k], points),
        decreases 8 - i,
    {
        let level = levels[i];
        let shown = if level < MAX_STAT_LEVEL { level } else { MAX_STAT_LEVEL };
        rows.push((shown, points > 0 && shown < MAX_STAT_LEVEL));
        i = i + 1;
    }
    rows
}

/// Whether segment `k` of a bar showing `level` is lit.
pub fn segment_lit(k: u8, level: u8) -> (lit: bool)
    ensures
        lit == (k < level),
{
    k < level
}

/// The segment that flashes after an upgrade: the highest lit one.
pub fn flash_segment(level: u8) -> (seg: Option<u8>)
    ensures
        level == 0 ==> seg is None,
        level > 0 ==> seg == Some((level - 1) as u8),
{
    if level > 0 {
        Some(level - 1)
    } else {
        None
    }
}

} // verus!
