//! The command-line surface as plain data: the parsed flags and the
//! `key=value` override arguments. Argument parsing itself is the outer
//! layer's concern; this module gives the flags a home and turns override
//! arguments into an argument map.

use vstd::prelude::*;
use crate::models::ArgumentMap;
use crate::text::{chars_to_string, str_to_chars};

verus! {

/// The parsed command line: override arguments, mode flags, and the
/// command to run, if one was named.
pub struct Cli {
    /// Override arguments, each of the form `key=value`.
    pub args: Vec<String>,
    /// Show the active parameter group and exit.
    pub show_active_params: bool,
    /// Clear stored last-used values and exit.
    pub clear_stored: bool,
    /// Change the active parameter group.
    pub switch_param_group: bool,
    /// Run in interactive mode.
    pub interactive: bool,
    /// Run a specific command by name.
    pub command: Option<String>,
    /// List all available commands.
    pub list_cmds: bool,
}

/// Index of the first `=` in `s`, or `-1` if there is none.
pub open spec fn eq_index_of(s: Seq<char>) -> int
    decreases s.len(),
{
    if s.len() == 0 {
        -1
    } else if s[0] == '=' {
        0
    } else {
        let r = eq_index_of(s.drop_first());
        if r == -1 {
            -1
        } else {
            r + 1
        }
    }
}

proof fn lemma_eq_index_of_props(s: Seq<char>)
    ensures
        -1 <= eq_index_of(s) < s.len(),
        eq_index_of(s) >= 0 ==> s[eq_index_of(s)] == '=',
        eq_index_of(s) >= 0 ==> forall|j: int| 0 <= j < eq_index_of(s) ==> s[j] != '=',
        eq_index_of(s) == -1 ==> forall|j: int| 0 <= j < s.len() ==> s[j] != '=',
    decreases s.len(),
{
    if s.len() > 0 && s[0] != '=' {
        lemma_eq_index_of_props(s.drop_first());
        assert(forall|j: int| 1 <= j < s.len() ==> s[j] == s.drop_first()[j - 1]);
    }
}

/// The override map a list of `key=value` arguments denotes: each argument
/// split at its first `=`, arguments without one ignored, later bindings
/// winning.
pub open spec fn spec_parse_overrides(
    args: Seq<Seq<char>>,
    acc: Map<Seq<char>, Seq<char>>,
) -> Map<Seq<char>, Seq<char>>
    decreases args.len(),
{
    if args.len() == 0 {
        acc
    } else {
        let s = args[0];
        let i = eq_index_of(s);
        let acc2 = if i >= 0 {
            acc.insert(s.take(i), s.skip(i + 1))
        } else {
            acc
        };
        spec_parse_overrides(args.drop_first(), acc2)
    }
}

/// Index of the first `=` in `v`, if any.
fn find_eq(v: &Vec<char>) -> (r: Option<usize>)
    ensures
        match r {
            Some(i) => eq_index_of(v@) == i && i < v@.len() && v@[i as int] == '=',
            None => eq_index_of(v@) == -1,
        },
{
    let mut i: usize = 0;
    while i < v.len()
        invariant
            i <= v@.len(),
            forall|j: int| 0 <= j < i ==> v@[j] != '=',
        decreases v@.len() - i,
    {
        if v[i] == '=' {
            proof {
                lemma_eq_index_of_props(v@);
            }
            return Some(i);
        }
        i = i + 1;
    }
    proof {
        lemma_eq_index_of_props(v@);
    }
    None
}

/// Build the argument overrides from `key=value` command-line arguments:
/// each argument splits at its first `=`; one without an `=` is ignored.
pub fn parse_arg_overrides(args: &Vec<String>) -> (r: ArgumentMap)
    ensures
        r@ == spec_parse_overrides(args.deep_view(), Map::empty()),
{
    let mut r = ArgumentMap::new();
    let ghost all = args.deep_view();
    let mut k: usize = 0;
    proof {
        assert(all.skip(0) =~= all);
    }
    while k < args.len()
        invariant
            all == args.deep_view(),
            k <= all.len(),
            spec_parse_overrides(all, Map::empty()) == spec_parse_overrides(
                all.skip(k as int),
                r@,
            ),
        decreases all.len() - k,
    {
        proof {
            assert(all.skip(k as int)[0] == all[k as int]);
            assert(all.skip(k as int).drop_first() =~= all.skip(k + 1 as int));
        }
        let chars = str_to_chars(args[k].as_str());
        let n = chars.len();
        match find_eq(&chars) {
            Some(p) => {
                let mut key: Vec<char> = Vec::new();
                let mut j: usize = 0;
                while j < p
                    invariant
                        p <= chars@.len(),
                        j <= p,
                        key@ =~= chars@.subrange(0, j as int),
                    decreases p - j,
                {
                    key.push(chars[j]);
                    proof {
                        assert(key@ =~= chars@.subrange(0, j + 1 as int));
                    }
                    j = j + 1;
                }
                let mut value: Vec<char> = Vec::new();
                let mut j2: usize = p + 1;
                while j2 < n
                    invariant
                        n == chars@.len(),
                        p + 1 <= j2 <= n,
                        value@ =~= chars@.subrange(p + 1 as int, j2 as int),
                    decreases n - j2,
                {
                    value.push(chars[j2]);
                    proof {
                        assert(value@ =~= chars@.subrange(p + 1 as int, j2 + 1 as int));
                    }
                    j2 = j2 + 1;
                }
                proof {
                    assert(key@ =~= chars@.take(p as int));
                    assert(value@ =~= chars@.skip(p + 1 as int));
                }
                r.insert(chars_to_string(&key), chars_to_string(&value));
            },
            None => {},
        }
        k = k + 1;
    }
    proof {
        assert(all.skip(all.len() as int) =~= Seq::<Seq<char>>::empty());
    }
    r
}

} // verus!
