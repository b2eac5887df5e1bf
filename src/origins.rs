//! The allow-list of browser origins.

use vstd::prelude::*;
use vstd::string::{StrSliceExecFns, StringExecFns};
use crate::text::{string_of, trim, trim_bounds};

verus! {

/// Whether `origin` may connect: the list holds "*" or the origin itself.
pub open spec fn origin_allowed(origin: Seq<char>, allowed: Seq<String>) -> bool {
    exists|i: int|
        0 <= i < allowed.len() && (#[trigger] allowed[i]@ == seq!['*'] || allowed[i]@ == origin)
}

/// The setting used where none is given.
pub open spec fn default_origins_setting() -> Seq<char> {
    "http://localhost:8096,https://localhost:8096"@
}

/// The pieces of `s` between commas, in order; there is always one more
/// piece than there are commas.
pub open spec fn split_commas(s: Seq<char>) -> Seq<Seq<char>>
    decreases s.len(),
{
    if s.len() == 0 {
        seq![seq![]]
    } else {
        let p = split_commas(s.drop_last());
        if s.last() == ',' {
            p.push(seq![])
        } else {
            p.update(p.len() - 1, p.last().push(s.last()))
        }
    }
}

/// Each piece trimmed, and the pieces left empty dropped.
pub open spec fn trimmed_nonempty(ps: Seq<Seq<char>>) -> Seq<Seq<char>>
    decreases ps.len(),
{
    if ps.len() == 0 {
        seq![]
    } else if trim(ps.last()).len() == 0 {
        trimmed_nonempty(ps.drop_last())
    } else {
        trimmed_nonempty(ps.drop_last()).push(trim(ps.last()))
    }
}

/// The origins a comma-separated setting lists.
pub open spec fn parse_origins(s: Seq<char>) -> Seq<Seq<char>> {
    trimmed_nonempty(split_commas(s))
}

/// The origins listed in `setting`: split at commas, each trimmed, the
/// empty ones dropped.
pub fn parse_allowed_origins(setting: &str) -> (r: Vec<String>)
    ensures
        r@.map_values(|o: String| o@) == parse_origins(setting@),
{
    let n = setting.unicode_len();
    let mut out: Vec<String> = Vec::new();
    let mut cur: Vec<char> = Vec::new();
    let ghost mut done: Seq<Seq<char>> = seq![];
    let mut i: usize = 0;
    while i < n
        invariant
            n == setting@.len(),
            i <= n,
            split_commas(setting@.take(i as int)) == done.push(cur@),
            out@.map_values(|o: String| o@) == trimmed_nonempty(done),
        decreases n - i,
    {
        let c = setting.get_char(i);
        proof {
            assert(setting@.take(i + 1).drop_last() =~= setting@.take(i as int));
            assert(setting@.take(i + 1).last() == c);
        }
        if c == ',' {
            let (lo, hi) = trim_bounds(&cur);
            let ghost before = out@;
            if lo < hi {
                out.push(string_of(&cur, lo, hi));
                proof {
                    assert(out@.map_values(|o: String| o@) =~= before.map_values(|o: String| o@).push(trim(cur@)));
                }
            }
            proof {
                assert(done.push(cur@).drop_last() =~= done);
                assert(trimmed_nonempty(done.push(cur@)) == if trim(cur@).len() == 0 {
                    trimmed_nonempty(done)
                } else {
                    trimmed_nonempty(done).push(trim(cur@))
                });
                done = done.push(cur@);
            }
            cur = Vec::new();
        } else {
            let ghost old_cur = cur@;
            cur.push(c);
            proof {
                assert(done.push(old_cur).update(done.len() as int, old_cur.push(c)) =~= done.push(cur@));
            }
        }
        i = i + 1;
    }
    let (lo, hi) = trim_bounds(&cur);
    let ghost before = out@;
    if lo < hi {
        out.push(string_of(&cur, lo, hi));
        proof {
            assert(out@.map_values(|o: String| o@) =~= before.map_values(|o: String| o@).push(trim(cur@)));
        }
    }
    proof {
        assert(setting@.take(n as int) =~= setting@);
        assert(done.push(cur@).drop_last() =~= done);
    }
    out
}

/// The allow-list from the setting, or from the default setting where
/// there is none.
pub fn allowed_origins(setting: Option<String>) -> (r: Vec<String>)
    ensures
        setting matches Some(s) ==> r@.map_values(|o: String| o@) == parse_origins(s@),
        setting is None ==> r@.map_values(|o: String| o@) == parse_origins(default_origins_setting()),
{
    match setting {
        Some(s) => parse_allowed_origins(s.as_str()),
        None => parse_allowed_origins("http://localhost:8096,https://localhost:8096"),
    }
}

pub fn is_origin_allowed(origin: &str, allowed: &[String]) -> (r: bool)
    ensures
        r == origin_allowed(origin@, allowed@),
{
    let any = String::from_str("*");
    let wanted = String::from_str(origin);
    proof {
        reveal_strlit("*");
    }
    assert(any@ =~= seq!['*']);
    let mut i: usize = 0;
    while i < allowed.len()
        invariant
            i <= allowed@.len(),
            any@ == seq!['*'],
            wanted@ == origin@,
            forall|k: int| 0 <= k < i ==> !(allowed@[k]@ == seq!['*'] || allowed@[k]@ == origin@),
        decreases allowed@.len() - i,
    {
        if allowed[i] == any || allowed[i] == wanted {
            return true;
        }
        i = i + 1;
    }
    false
}

} // verus!
