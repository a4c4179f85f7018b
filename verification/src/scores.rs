//! Scores shown on the client's HUD.
use vstd::prelude::*;

verus! {

/// The first leaderboard row carrying `name`, if any.
pub open spec fn first_row_named(board: Seq<(String, u32)>, name: Seq<char>) -> Option<int>
    decreases board.len(),
{
    if board.len() == 0 {
        None
    } else if board[0].0@ == name {
        Some(0)
    } else {
        match first_row_named(board.drop_first(), name) {
            Some(k) => Some(k + 1),
            None => None,
        }
    }
}

/// The player's score: the score of the first leaderboard row with the
/// player's name, or the player's own experience when the player has no
/// tank yet or no row carries its name.
pub fn my_score(my_name: Option<&String>, board: &Vec<(String, u32)>, xp: u32) -> (score: u32)
    ensures
        score == match my_name {
            Some(name) => match first_row_named(board@, name@) {
                Some(k) => board@[k].1,
                None => xp,
            },
            None => xp,
        },
{
    let name = match my_name {
        Some(n) => n,
        None => return xp,
    };
    let mut i: usize = 0;
    proof {
        assert(board@.subrange(0, board@.len() as int) =~= board@);
    }
    while i < board.len()
        invariant
            i <= board@.len(),
            my_name == Some(name),
            first_row_named(board@, name@) == match first_row_named(board@.subrange(i as int, board@.len() as int), name@) {
                Some(k) => Some(k + i),
                None => None,
            },
        decreases board.len() - i,
    {
        proof {
            let rest = board@.subrange(i as int, board@.len() as int);
            assert(rest.drop_first() =~= board@.subrange(i + 1, board@.len() as int));
            assert(rest[0] == board@[i as int]);
        }
        if board[i].0 == *name {
            proof {
                let rest = board@.subrange(i as int, board@.len() as int);
                assert(rest[0].0@ == name@);
                assert(first_row_named(rest, name@) == Some(0int));
            }
            return board[i].1;
        }
        i = i + 1;
    }
    xp
}

/// Rows the server's leaderboard keeps.
pub const LEADERBOARD_ROWS: usize = 10;

/// Entry `j` comes before entry `i` on the leaderboard: a higher score, or
/// an equal score and an earlier place in the input.
pub open spec fn ranks_before(s: Seq<(String, u32)>, j: int, i: int) -> bool {
    s[j].1 > s[i].1 || (s[j].1 == s[i].1 && j < i)
}

/// `order` lists distinct entries of `s` from first to last place, and no
/// entry it leaves out comes before one it lists: it is the top
/// `order.len()` of the leaderboard.
pub open spec fn is_top_order(s: Seq<(String, u32)>, order: Seq<usize>) -> bool {
    &&& forall|k: int| 0 <= k < order.len() ==> (#[trigger] order[k]) < s.len()
    &&& forall|a: int, b: int|
        0 <= a < b < order.len() ==> ranks_before(s, #[trigger] order[a] as int, #[trigger] order[b] as int)
    &&& forall|k: int, j: int|
        0 <= k < order.len() && 0 <= j < s.len() && ranks_before(s, j, #[trigger] order[k] as int)
            ==> #[trigger] order.contains(j as usize)
}

/// The leaderboard's rows: the entries sorted by score, highest first, ties
/// kept in input order, cut to the top `LEADERBOARD_ROWS`.
pub fn top_scores(entries: &Vec<(String, u32)>) -> (board: Vec<(String, u32)>)
    ensures
        board@.len() == if entries@.len() < LEADERBOARD_ROWS { entries@.len() } else { LEADERBOARD_ROWS as nat },
        exists|order: Seq<usize>|
            {
                &&& is_top_order(entries@, order)
                &&& order.len() == board@.len()
                &&& forall|k: int| 0 <= k < order.len() ==> #[trigger] board@[k] == entries@[order[k] as int]
            },
{
    let n = entries.len();
    let mut order: Vec<usize> = Vec::new();
    let mut i: usize = 0;
    while i < n
        invariant
            n == entries@.len(),
            i <= n,
            order@.len() == i,
            forall|k: int| 0 <= k < order@.len() ==> (#[trigger] order@[k]) < i,
            forall|j: int| 0 <= j < i ==> #[trigger] order@.contains(j as usize),
            forall|a: int, b: int|
                0 <= a < b < order@.len() ==> ranks_before(entries@, #[trigger] order@[a] as int, #[trigger] order@[b] as int),
        decreases n - i,
    {
        let score = entries[i].1;
        let mut pos: usize = 0;
        while pos < order.len() && entries[order[pos]].1 >= score
            invariant
                n == entries@.len(),
                i < n,
                pos <= order@.len(),
                forall|k: int| 0 <= k < order@.len() ==> (#[trigger] order@[k]) < i,
                forall|k: int| 0 <= k < pos ==> entries@[#[trigger] order@[k] as int].1 >= score,
            decreases order.len() - pos,
        {
            pos = pos + 1;
        }
        let ghost before = order@;
        order.insert(pos, i);
        proof {
            assert(order@ =~= before.subrange(0, pos as int).push(i).add(before.subrange(pos as int, before.len() as int)));
            assert forall|k: int| 0 <= k < order@.len() implies (#[trigger] order@[k]) < i + 1 by {
                if k < pos {
                    assert(order@[k] == before[k]);
                } else if k > pos {
                    assert(order@[k] == before[k - 1]);
                }
            }
            assert forall|j: int| 0 <= j < i + 1 implies #[trigger] order@.contains(j as usize) by {
                if j == i {
                    assert(order@[pos as int] == i);
                } else {
                    assert(before.contains(j as usize));
                    let k = choose|k: int| 0 <= k < before.len() && before[k] == j as usize;
                    if k < pos {
                        assert(order@[k] == j as usize);
                    } else {
                        assert(order@[k + 1] == j as usize);
                    }
                }
            }
            assert forall|a: int, b: int|
                0 <= a < b < order@.len() implies ranks_before(entries@, #[trigger] order@[a] as int, #[trigger] order@[b] as int) by {
                if b < pos {
                    assert(order@[a] == before[a] && order@[b] == before[b]);
                } else if a > pos {
                    assert(order@[a] == before[a - 1] && order@[b] == before[b - 1]);
                } else if a < pos && b > pos {
                    assert(order@[a] == before[a] && order@[b] == before[b - 1]);
                } else if a == pos {
                    // i sits before everything after its slot: those score lower
                    assert(order@[b] == before[b - 1]);
                    assert(pos < before.len());
                    assert(entries@[before[pos as int] as int].1 < score);
                    if b - 1 > pos {
                        assert(ranks_before(entries@, before[pos as int] as int, before[b - 1] as int));
                    }
                } else {
                    // everything before i's slot scores at least as high and came earlier
                    assert(b == pos);
                    assert(order@[a] == before[a]);
                    assert(entries@[before[a] as int].1 >= score);
                }
            }
        }
        i = i + 1;
    }
    let m: usize = if n < LEADERBOARD_ROWS { n } else { LEADERBOARD_ROWS };
    let mut board: Vec<(String, u32)> = Vec::new();
    let mut k: usize = 0;
    while k < m
        invariant
            n == entries@.len(),
            m <= n,
            order@.len() == n,
            k <= m,
            board@.len() == k,
            forall|q: int| 0 <= q < order@.len() ==> (#[trigger] order@[q]) < n,
            forall|q: int| 0 <= q < k ==> #[trigger] board@[q] == entries@[order@[q] as int],
        decreases m - k,
    {
        let e = order[k];
        let row = (entries[e].0.clone(), entries[e].1);
        board.push(row);
        k = k + 1;
    }
    proof {
        let top = order@.subrange(0, m as int);
        assert forall|q: int, j: int|
            0 <= q < top.len() && 0 <= j < entries@.len() && ranks_before(entries@, j, #[trigger] top[q] as int)
                implies #[trigger] top.contains(j as usize) by {
            assert(order@.contains(j as usize));
            let p = choose|p: int| 0 <= p < order@.len() && order@[p] == j as usize;
            if p >= q {
                if p == q {
                    assert(ranks_before(entries@, j, j));
                } else {
                    assert(ranks_before(entries@, order@[q] as int, order@[p] as int));
                }
            }
            assert(top[p] == j as usize);
        }
        assert forall|a: int, b: int|
            0 <= a < b < top.len() implies ranks_before(entries@, #[trigger] top[a] as int, #[trigger] top[b] as int) by {
            assert(top[a] == order@[a] && top[b] == order@[b]);
        }
        assert(is_top_order(entries@, top));
        assert forall|q: int| 0 <= q < top.len() implies #[trigger] board@[q] == entries@[top[q] as int] by {}
    }
    board
}

} // verus!
