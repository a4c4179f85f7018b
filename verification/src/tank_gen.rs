//! Converting tank definitions from the JSON catalogue into script files:
//! file-name slugs, field defaults and upgrade references.
use vstd::prelude::*;
use crate::text::{ascii_lower, is_ascii_alnum, is_ascii_alphanumeric, pop_char, push_char, to_ascii_lowercase};

verus! {

/// Lower-cased letters and digits of `name`, with each run of other
/// characters between two of them written as one `_`; before trimming.
pub open spec fn slug_raw(name: Seq<char>) -> Seq<char>
    decreases name.len(),
{
    if name.len() == 0 {
        Seq::empty()
    } else {
        let prev = slug_raw(name.drop_last());
        let c = name.last();
        if is_ascii_alnum(c) {
            prev.push(ascii_lower(c))
        } else if prev.len() > 0 && prev.last() != '_' {
            prev.push('_')
        } else {
            prev
        }
    }
}

/// `s` without trailing underscores.
pub open spec fn trim_end_underscores(s: Seq<char>) -> Seq<char>
    decreases s.len(),
{
    if s.len() > 0 && s.last() == '_' {
        trim_end_underscores(s.drop_last())
    } else {
        s
    }
}

/// `s` without leading underscores.
pub open spec fn trim_start_underscores(s: Seq<char>) -> Seq<char>
    decreases s.len(),
{
    if s.len() > 0 && s[0] == '_' {
        trim_start_underscores(s.drop_first())
    } else {
        s
    }
}

/// The file-name slug of a tank name.
pub open spec fn slug_spec(name: Seq<char>) -> Seq<char> {
    trim_start_underscores(trim_end_underscores(slug_raw(name)))
}

/// The raw slug never starts with `_` and never holds two `_` in a row at its end.
proof fn lemma_slug_raw_shape(name: Seq<char>)
    ensures
        slug_raw(name).len() > 0 ==> slug_raw(name)[0] != '_',
        slug_raw(name).len() > 0 && slug_raw(name).last() == '_' ==> slug_raw(name).len() >= 2
            && slug_raw(name)[slug_raw(name).len() - 2] != '_',
    decreases name.len(),
{
    if name.len() > 0 {
        lemma_slug_raw_shape(name.drop_last());
        let c = name.last();
        if is_ascii_alnum(c) {
            assert(ascii_lower(c) != '_');
        }
    }
}

/// A character a slug is made of: a lower-case ASCII letter, a digit or `_`.
pub open spec fn slug_char(c: char) -> bool {
    ('0' <= c && c <= '9') || ('a' <= c && c <= 'z') || c == '_'
}

/// Slug characters only, not starting with `_`, no two `_` in a row.
pub open spec fn slug_prefix_shaped(t: Seq<char>) -> bool {
    &&& forall|i: int| 0 <= i < t.len() ==> slug_char(#[trigger] t[i])
    &&& (t.len() > 0 ==> t[0] != '_')
    &&& forall|i: int| 0 <= i < t.len() - 1 ==> !(#[trigger] t[i] == '_' && t[i + 1] == '_')
}

proof fn lemma_raw_of_shaped(t: Seq<char>)
    requires
        slug_prefix_shaped(t),
    ensures
        slug_raw(t) == t,
    decreases t.len(),
{
    if t.len() > 0 {
        let p = t.drop_last();
        assert forall|i: int| 0 <= i < p.len() - 1 implies !(#[trigger] p[i] == '_' && p[i + 1] == '_') by {
            assert(p[i] == t[i] && p[i + 1] == t[i + 1]);
        }
        assert forall|i: int| 0 <= i < p.len() implies slug_char(#[trigger] p[i]) by {
            assert(p[i] == t[i]);
        }
        lemma_raw_of_shaped(p);
        let c = t.last();
        assert(slug_char(t[t.len() - 1]));
        if c == '_' {
            assert(t.len() >= 2);
            assert(!(t[t.len() - 2] == '_' && t[t.len() - 1] == '_'));
        }
        assert(p.push(c) =~= t);
    }
}

proof fn lemma_raw_shaped(name: Seq<char>)
    ensures
        slug_prefix_shaped(slug_raw(name)),
    decreases name.len(),
{
    if name.len() > 0 {
        lemma_raw_shaped(name.drop_last());
        let prev = slug_raw(name.drop_last());
        let c = name.last();
        let r = slug_raw(name);
        if is_ascii_alnum(c) {
            assert(slug_char(ascii_lower(c)));
            assert forall|i: int| 0 <= i < r.len() implies slug_char(#[trigger] r[i]) by {
                if i < prev.len() {
                    assert(r[i] == prev[i]);
                }
            }
            assert forall|i: int| 0 <= i < r.len() - 1 implies !(#[trigger] r[i] == '_' && r[i + 1] == '_') by {
                if i + 1 < prev.len() {
                    assert(r[i] == prev[i] && r[i + 1] == prev[i + 1]);
                }
            }
        } else if prev.len() > 0 && prev.last() != '_' {
            assert forall|i: int| 0 <= i < r.len() implies slug_char(#[trigger] r[i]) by {
                if i < prev.len() {
                    assert(r[i] == prev[i]);
                }
            }
            assert forall|i: int| 0 <= i < r.len() - 1 implies !(#[trigger] r[i] == '_' && r[i + 1] == '_') by {
                if i + 1 < prev.len() {
                    assert(r[i] == prev[i] && r[i + 1] == prev[i + 1]);
                } else {
                    assert(r[i] == prev.last());
                }
            }
        }
    }
}

proof fn lemma_trim_end_shaped(t: Seq<char>)
    requires
        slug_prefix_shaped(t),
    ensures
        slug_prefix_shaped(trim_end_underscores(t)),
        trim_end_underscores(t).len() > 0 ==> trim_end_underscores(t).last() != '_',
    decreases t.len(),
{
    if t.len() > 0 && t.last() == '_' {
        let p = t.drop_last();
        assert forall|i: int| 0 <= i < p.len() - 1 implies !(#[trigger] p[i] == '_' && p[i + 1] == '_') by {
            assert(p[i] == t[i] && p[i + 1] == t[i + 1]);
        }
        assert forall|i: int| 0 <= i < p.len() implies slug_char(#[trigger] p[i]) by {
            assert(p[i] == t[i]);
        }
        lemma_trim_end_shaped(p);
    }
}

/// A slug is its own slug: slugging twice gives what slugging once gave.
pub proof fn law_slug_idempotent(name: Seq<char>)
    ensures
        slug_spec(slug_spec(name)) == slug_spec(name),
{
    let raw = slug_raw(name);
    lemma_raw_shaped(name);
    lemma_trim_end_shaped(raw);
    let t = trim_end_underscores(raw);
    assert(trim_start_underscores(t) == t);
    assert(slug_spec(name) == t);
    lemma_raw_of_shaped(t);
    assert(trim_end_underscores(t) == t);
}

/// The file-name slug of a tank name: ASCII letters and digits lower-cased,
/// every run of other characters between them collapsed to one `_`, and no
/// `_` at either end.
pub fn slug(name: &str) -> (out: String)
    ensures
        out@ == slug_spec(name@),
{
    let mut out = String::new();
    let n = name.unicode_len();
    let mut i: usize = 0;
    let mut last_underscore = false;
    let mut len: usize = 0;
    while i < n
        invariant
            n == name@.len(),
            i <= n,
            out@ == slug_raw(name@.subrange(0, i as int)),
            len == out@.len(),
            len <= i,
            last_underscore == (out@.len() > 0 && out@.last() == '_'),
        decreases n - i,
    {
        let c = name.get_char(i);
        proof {
            assert(name@.subrange(0, i + 1).drop_last() =~= name@.subrange(0, i as int));
            assert(name@.subrange(0, i + 1).last() == c);
        }
        if is_ascii_alphanumeric(c) {
            let lower = to_ascii_lowercase(c);
            push_char(&mut out, lower);
            len = len + 1;
            last_underscore = false;
            proof {
                assert(lower != '_');
            }
        } else if !last_underscore && len != 0 {
            push_char(&mut out, '_');
            len = len + 1;
            last_underscore = true;
        }
        i = i + 1;
    }
    proof {
        assert(name@.subrange(0, n as int) =~= name@);
        lemma_slug_raw_shape(name@);
    }
    let ghost raw = out@;
    if last_underscore {
        pop_char(&mut out);
        proof {
            assert(trim_end_underscores(raw.drop_last()) == raw.drop_last());
        }
    }
    proof {
        let t = trim_end_underscores(raw);
        assert(t == out@);
        if t.len() > 0 {
            assert(t[0] == raw[0]);
        }
    }
    out
}

/// How a boolean is written in a script file.
pub fn boolean(v: bool) -> (text: &'static str)
    ensures
        v ==> text@ == "true"@,
        !v ==> text@ == "false"@,
{
    if v {
        "true"
    } else {
        "false"
    }
}

/// Max health of a definition that names none.
pub fn d_max_health() -> (health: u32)
    ensures
        health == 50,
{
    50
}

/// Number of sides of a definition that names none.
pub fn d_sides() -> (sides: u32)
    ensures
        sides == 1,
{
    1
}

/// Bullet type of a barrel that names none.
pub fn d_bullet_type() -> (kind: String)
    ensures
        kind@ == "bullet"@,
{
    String::from_str("bullet")
}

/// The last entry of `table` (class id, slug) for `id`, if any: later
/// definitions of an id replace earlier ones.
pub open spec fn slug_index(table: Seq<(u32, String)>, id: u32) -> Option<int>
    decreases table.len(),
{
    if table.len() == 0 {
        None
    } else if table.last().0 == id {
        Some(table.len() - 1)
    } else {
        slug_index(table.drop_last(), id)
    }
}

/// Slugs of the upgrades a definition lists by class id, in its order;
/// ids no definition has are left out.
pub open spec fn upgrade_slugs_spec(table: Seq<(u32, String)>, upgrades: Seq<u32>) -> Seq<Seq<char>>
    decreases upgrades.len(),
{
    if upgrades.len() == 0 {
        Seq::empty()
    } else {
        let rest = upgrade_slugs_spec(table, upgrades.drop_last());
        match slug_index(table, upgrades.last()) {
            Some(k) => rest.push(table[k].1@),
            None => rest,
        }
    }
}

fn find_slug(table: &Vec<(u32, String)>, id: u32) -> (found: Option<usize>)
    ensures
        match found {
            Some(k) => slug_index(table@, id) == Some(k as int) && k < table@.len(),
            None => slug_index(table@, id) is None,
        },
{
    let mut k: usize = table.len();
    proof {
        assert(table@.subrange(0, k as int) =~= table@);
    }
    while k > 0
        invariant
            k <= table@.len(),
            slug_index(table@, id) == slug_index(table@.subrange(0, k as int), id),
        decreases k,
    {
        proof {
            assert(table@.subrange(0, k as int).drop_last() =~= table@.subrange(0, k - 1));
        }
        if table[k - 1].0 == id {
            return Some(k - 1);
        }
        k = k - 1;
    }
    None
}

/// The slugs of the upgrades `upgrades` names by class id, looked up in
/// `table` (each definition's class id and slug, in catalogue order).
pub fn upgrade_slugs(table: &Vec<(u32, String)>, upgrades: &Vec<u32>) -> (slugs: Vec<String>)
    ensures
        slugs@.map_values(|s: String| s@) == upgrade_slugs_spec(table@, upgrades@),
{
    let mut slugs: Vec<String> = Vec::new();
    let mut i: usize = 0;
    while i < upgrades.len()
        invariant
            i <= upgrades@.len(),
            slugs@.map_values(|s: String| s@) == upgrade_slugs_spec(table@, upgrades@.subrange(0, i as int)),
        decreases upgrades.len() - i,
    {
        proof {
            assert(upgrades@.subrange(0, i + 1).drop_last() =~= upgrades@.subrange(0, i as int));
        }
        match find_slug(table, upgrades[i]) {
            Some(k) => {
                let s = table[k].1.clone();
                let ghost before = slugs@;
                slugs.push(s);
                proof {
                    assert(slugs@.map_values(|s: String| s@) =~= before.map_values(|s: String| s@).push(
                        table@[k as int].1@,
                    ));
                }
            },
            None => {},
        }
        i = i + 1;
    }
    proof {
        assert(upgrades@.subrange(0, upgrades@.len() as int) =~= upgrades@);
    }
    slugs
}

} // verus!
