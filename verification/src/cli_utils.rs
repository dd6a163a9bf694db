//! Table rendering support: the NAME / DESCRIPTION / ARGS listing of
//! commands, with fixed name column, word-wrapped description and argument
//! columns, and the column-width allocation that biases the remaining
//! terminal width toward the description. Printing and colour belong to
//! the presentation layer; this module computes the plain rows.

use vstd::prelude::*;
use crate::models::{CommandDef, CommandDefModel, ParamDefModel};
use crate::template::{spec_trim, trim_range};
use crate::text::{
    chars_to_string, copy_chars, is_space, lower_of, lowercase, pad_chars, repeat_char,
    spec_is_space, spec_pad, spec_repeat, spec_wrap_text, str_to_chars, wrap_text,
};

verus! {

/// Saturating addition on machine words.
pub open spec fn spec_sat_add(a: int, b: int) -> int {
    if a + b > usize::MAX {
        usize::MAX as int
    } else {
        a + b
    }
}

/// Saturating addition.
pub fn sat_add(a: usize, b: usize) -> (r: usize)
    ensures
        r as int == spec_sat_add(a as int, b as int),
{
    if a <= usize::MAX - b {
        a + b
    } else {
        usize::MAX
    }
}

/// Subtraction floored at zero.
pub open spec fn spec_sat_sub(a: int, b: int) -> int {
    if a >= b {
        a - b
    } else {
        0
    }
}

/// Subtraction floored at zero.
pub fn sat_sub(a: usize, b: usize) -> (r: usize)
    ensures
        r as int == spec_sat_sub(a as int, b as int),
{
    if a >= b {
        a - b
    } else {
        0
    }
}

/// One argument as it appears in the ARGS column: bracketed when
/// optional.
pub open spec fn spec_args_item(p: ParamDefModel) -> Seq<char> {
    if p.optional {
        "["@ + p.name + "]"@
    } else {
        p.name
    }
}

/// The argument names joined with commas.
pub open spec fn spec_args_items(params: Seq<ParamDefModel>) -> Seq<char>
    decreases params.len(),
{
    if params.len() == 0 {
        Seq::empty()
    } else if params.len() == 1 {
        spec_args_item(params[0])
    } else {
        spec_args_item(params[0]) + ", "@ + spec_args_items(params.drop_first())
    }
}

/// The ARGS column of a command: a dash when it takes no arguments, else
/// its argument names in order, optional ones bracketed.
pub open spec fn spec_args_column(params: Seq<ParamDefModel>) -> Seq<char> {
    if params.len() == 0 {
        "-"@
    } else {
        spec_args_items(params)
    }
}

/// Build the ARGS column for a command, wrapping optional arguments in
/// brackets.
pub fn args_column(cmd: &CommandDef) -> (r: String)
    ensures
        r@ == spec_args_column(cmd@.params),
{
    let n = cmd.params.len();
    if n == 0 {
        return "-".to_owned();
    }
    let ghost all = cmd.params.deep_view();
    let mut out: Vec<char> = Vec::new();
    let mut k: usize = 0;
    proof {
        assert(all.skip(0) =~= all);
        assert(out@ + spec_args_items(all) =~= spec_args_items(all));
    }
    while k < n
        invariant
            n == cmd.params@.len(),
            n >= 1,
            all == cmd.params.deep_view(),
            k <= n,
            k < n ==> spec_args_items(all) == out@ + spec_args_items(all.skip(k as int)),
            k == n ==> spec_args_items(all) == out@,
        decreases n - k,
    {
        proof {
            assert(all.skip(k as int)[0] == all[k as int]);
            assert(all.skip(k as int).drop_first() =~= all.skip(k + 1 as int));
        }
        let ghost pre = out@;
        let ghost item = spec_args_item(all[k as int]);
        let p = &cmd.params[k];
        if p.optional {
            let mut open_mark = str_to_chars("[");
            out.append(&mut open_mark);
            let mut name = str_to_chars(p.name.as_str());
            out.append(&mut name);
            let mut close_mark = str_to_chars("]");
            out.append(&mut close_mark);
            proof {
                assert(out@ =~= pre + item);
            }
        } else {
            let mut name = str_to_chars(p.name.as_str());
            out.append(&mut name);
            proof {
                assert(out@ =~= pre + item);
            }
        }
        if k + 1 < n {
            let mut sep = str_to_chars(", ");
            out.append(&mut sep);
            proof {
                assert(all.skip(k as int).len() >= 2);
                assert(spec_args_items(all.skip(k as int)) == item + ", "@ + spec_args_items(
                    all.skip(k + 1 as int),
                ));
                assert(out@ =~= pre + item + ", "@);
                assert(pre + (item + ", "@ + spec_args_items(all.skip(k + 1 as int))) =~= out@
                    + spec_args_items(all.skip(k + 1 as int)));
            }
        } else {
            proof {
                assert(all.skip(k as int).len() == 1);
                assert(spec_args_items(all.skip(k as int)) == item);
                assert(pre + item =~= out@);
            }
        }
        k = k + 1;
    }
    chars_to_string(&out)
}

/// Index of the first name equal to `current`, or `-1` if there is none.
pub open spec fn group_index_of(names: Seq<Seq<char>>, current: Seq<char>) -> int
    decreases names.len(),
{
    if names.len() == 0 {
        -1
    } else if names[0] == current {
        0
    } else {
        let r = group_index_of(names.drop_first(), current);
        if r == -1 {
            -1
        } else {
            r + 1
        }
    }
}

proof fn lemma_group_index_of_props(names: Seq<Seq<char>>, current: Seq<char>)
    ensures
        -1 <= group_index_of(names, current) < names.len(),
        group_index_of(names, current) >= 0 ==> names[group_index_of(names, current)] == current,
        group_index_of(names, current) >= 0 ==> forall|j: int|
            0 <= j < group_index_of(names, current) ==> names[j] != current,
        group_index_of(names, current) == -1 ==> forall|j: int|
            0 <= j < names.len() ==> names[j] != current,
    decreases names.len(),
{
    if names.len() > 0 && names[0] != current {
        lemma_group_index_of_props(names.drop_first(), current);
        assert(forall|j: int| 1 <= j < names.len() ==> names[j] == names.drop_first()[j - 1]);
    }
}

/// The default selection when switching groups: the position of the
/// current group in the listed names, or the first entry.
pub open spec fn spec_default_group_index(
    names: Seq<Seq<char>>,
    current: Option<Seq<char>>,
) -> int {
    match current {
        Some(c) => if group_index_of(names, c) == -1 {
            0
        } else {
            group_index_of(names, c)
        },
        None => 0,
    }
}

/// The position the group chooser starts on: the current group's place in
/// the listed names, or the first entry.
pub fn default_group_index(names: &Vec<String>, current: Option<&String>) -> (r: usize)
    ensures
        r as int == spec_default_group_index(
            names.deep_view(),
            match current {
                Some(c) => Some(c@),
                None => None,
            },
        ),
{
    match current {
        Some(c) => {
            let n = names.len();
            let mut i: usize = 0;
            while i < n
                invariant
                    current == Some(c),
                    n == names@.len(),
                    i <= n,
                    forall|j: int| 0 <= j < i ==> names.deep_view()[j] != c@,
                decreases n - i,
            {
                if crate::text::str_eq(names[i].as_str(), c.as_str()) {
                    proof {
                        assert(names.deep_view()[i as int] == c@);
                        lemma_group_index_of_props(names.deep_view(), c@);
                        assert(group_index_of(names.deep_view(), c@) == i);
                    }
                    return i;
                }
                i = i + 1;
            }
            proof {
                lemma_group_index_of_props(names.deep_view(), c@);
            }
            0
        },
        None => 0,
    }
}

/// The DESCRIPTION and ARGS column widths for a terminal of `term_cols`
/// columns once the NAME column takes `name_w`: the remainder splits with
/// a bias toward the description, the description borrows from the
/// arguments up to their minimum, and a description beyond `desc_cap`
/// gives the excess back.
pub open spec fn spec_desc_args_widths(term_cols: int, name_w: int, desc_cap: int) -> (int, int) {
    let remaining = spec_sat_sub(spec_sat_sub(term_cols, name_w), 4);
    let args0 = {
        let a = if remaining / 3 > 12 {
            remaining / 3
        } else {
            12
        };
        if a > 30 {
            30
        } else {
            a
        }
    };
    let desc0 = spec_sat_sub(remaining, args0);
    let take = if desc0 < 16 {
        let need = 16 - desc0;
        let can = spec_sat_sub(args0, 12);
        if need < can {
            need
        } else {
            can
        }
    } else {
        0
    };
    let args1 = args0 - take;
    let desc1 = desc0 + take;
    if desc1 > desc_cap {
        let a = spec_sat_sub(remaining, desc_cap);
        (desc_cap, if a > 12 {
            a
        } else {
            12
        })
    } else {
        (desc1, args1)
    }
}

/// Allocate the DESCRIPTION and ARGS column widths.
pub fn desc_args_widths(term_cols: usize, name_w: usize, desc_cap: usize) -> (r: (usize, usize))
    ensures
        (r.0 as int, r.1 as int) == spec_desc_args_widths(
            term_cols as int,
            name_w as int,
            desc_cap as int,
        ),
{
    let remaining = sat_sub(sat_sub(term_cols, name_w), 4);
    let third = remaining / 3;
    let mut args_w: usize = if third > 12 {
        third
    } else {
        12
    };
    if args_w > 30 {
        args_w = 30;
    }
    let mut desc_w = sat_sub(remaining, args_w);
    if desc_w < 16 {
        let need = 16 - desc_w;
        let can = sat_sub(args_w, 12);
        let take = if need < can {
            need
        } else {
            can
        };
        args_w = args_w - take;
        desc_w = desc_w + take;
    }
    if desc_w > desc_cap {
        desc_w = desc_cap;
        let a = sat_sub(remaining, desc_cap);
        args_w = if a > 12 {
            a
        } else {
            12
        };
    }
    (desc_w, args_w)
}

/// The length the NAME column must allow for one command under a prefix
/// of `plen` characters: the dotted full name, capped at the machine's
/// limit.
pub open spec fn spec_full_len(plen: int, nlen: int) -> int {
    if plen == 0 {
        nlen
    } else {
        spec_sat_add(spec_sat_add(plen, 1), nlen)
    }
}

/// The NAME column width: the longest dotted full name, and twelve at
/// least.
pub open spec fn spec_name_width(cmds: Seq<CommandDefModel>, plen: int) -> int
    decreases cmds.len(),
{
    if cmds.len() == 0 {
        12
    } else {
        let rest = spec_name_width(cmds.drop_first(), plen);
        let l = spec_full_len(plen, cmds[0].name.len() as int);
        if l > rest {
            l
        } else {
            rest
        }
    }
}

proof fn lemma_name_width_min(cmds: Seq<CommandDefModel>, plen: int)
    ensures
        spec_name_width(cmds, plen) >= 12,
    decreases cmds.len(),
{
    if cmds.len() > 0 {
        lemma_name_width_min(cmds.drop_first(), plen);
    }
}

/// The widest dotted full name of `cmds` under a prefix of `plen`
/// characters, and twelve at least.
pub fn name_width(cmds: &Vec<CommandDef>, plen: usize) -> (r: usize)
    ensures
        r as int == spec_name_width(cmds.deep_view(), plen as int),
{
    let ghost all = cmds.deep_view();
    let mut acc: usize = 12;
    let mut k: usize = 0;
    proof {
        assert(all.skip(0) =~= all);
        lemma_name_width_min(all, plen as int);
    }
    while k < cmds.len()
        invariant
            all == cmds.deep_view(),
            k <= all.len(),
            acc >= 12,
            spec_name_width(all, plen as int) == (if spec_name_width(
                all.skip(k as int),
                plen as int,
            ) > acc {
                spec_name_width(all.skip(k as int), plen as int)
            } else {
                acc as int
            }),
        decreases all.len() - k,
    {
        proof {
            assert(all.skip(k as int)[0] == all[k as int]);
            assert(all.skip(k as int).drop_first() =~= all.skip(k + 1 as int));
        }
        let nlen = cmds[k].name.as_str().unicode_len();
        let l = if plen == 0 {
            nlen
        } else {
            sat_add(sat_add(plen, 1), nlen)
        };
        if l > acc {
            acc = l;
        }
        k = k + 1;
    }
    proof {
        assert(all.skip(all.len() as int) =~= Seq::<CommandDefModel>::empty());
    }
    acc
}

/// One table line: the name cell padded to the NAME width, the
/// description cell padded to the DESCRIPTION width, the args cell as it
/// is, two spaces between columns.
pub open spec fn spec_table_line(
    name_cell: Seq<char>,
    desc_cell: Seq<char>,
    args_cell: Seq<char>,
    name_w: int,
    desc_w: int,
) -> Seq<char> {
    spec_pad(name_cell, name_w) + "  "@ + spec_pad(desc_cell, desc_w) + "  "@ + args_cell
}

/// Assemble one table line from its three cells.
pub fn table_line(
    name_cell: &Vec<char>,
    desc_cell: &Vec<char>,
    args_cell: &Vec<char>,
    name_w: usize,
    desc_w: usize,
) -> (r: Vec<char>)
    ensures
        r@ == spec_table_line(name_cell@, desc_cell@, args_cell@, name_w as int, desc_w as int),
{
    let mut out = pad_chars(name_cell, name_w);
    let mut sep1 = str_to_chars("  ");
    out.append(&mut sep1);
    let mut desc = pad_chars(desc_cell, desc_w);
    out.append(&mut desc);
    let mut sep2 = str_to_chars("  ");
    out.append(&mut sep2);
    let mut args = copy_chars(args_cell);
    out.append(&mut args);
    proof {
        assert(out@ =~= spec_table_line(
            name_cell@,
            desc_cell@,
            args_cell@,
            name_w as int,
            desc_w as int,
        ));
    }
    out
}

/// The cell a wrapped column shows on line `i`: its own line there, or
/// blank past its end.
pub open spec fn spec_cell(lines: Seq<Seq<char>>, i: int) -> Seq<char> {
    if 0 <= i < lines.len() {
        lines[i]
    } else {
        Seq::empty()
    }
}

/// The line a wrapped column shows at `i`, or blank past its end.
pub fn cell_at(lines: &Vec<Vec<char>>, i: usize) -> (r: Vec<char>)
    ensures
        r@ == spec_cell(lines.deep_view(), i as int),
{
    if i < lines.len() {
        proof {
            assert(lines.deep_view()[i as int] =~= lines@[i as int]@);
        }
        copy_chars(&lines[i])
    } else {
        Vec::new()
    }
}

/// The lines one command contributes to a table, from `i` on: the name
/// cell on the first line only, the wrapped description and args beside
/// it.
pub open spec fn spec_cmd_lines(
    name_cell0: Seq<char>,
    dl: Seq<Seq<char>>,
    al: Seq<Seq<char>>,
    name_w: int,
    desc_w: int,
    i: int,
    m: int,
) -> Seq<Seq<char>>
    decreases m - i,
{
    if i >= m {
        Seq::empty()
    } else {
        seq![
            spec_table_line(
                if i == 0 {
                    name_cell0
                } else {
                    Seq::empty()
                },
                spec_cell(dl, i),
                spec_cell(al, i),
                name_w,
                desc_w,
            ),
        ] + spec_cmd_lines(name_cell0, dl, al, name_w, desc_w, i + 1, m)
    }
}

/// Build the lines one command contributes to a table.
pub fn command_lines(
    name_cell0: &Vec<char>,
    dl: &Vec<Vec<char>>,
    al: &Vec<Vec<char>>,
    name_w: usize,
    desc_w: usize,
    m: usize,
) -> (r: Vec<Vec<char>>)
    ensures
        r.deep_view() == spec_cmd_lines(
            name_cell0@,
            dl.deep_view(),
            al.deep_view(),
            name_w as int,
            desc_w as int,
            0,
            m as int,
        ),
{
    let mut out: Vec<Vec<char>> = Vec::new();
    let mut i: usize = 0;
    proof {
        assert(out.deep_view() + spec_cmd_lines(
            name_cell0@,
            dl.deep_view(),
            al.deep_view(),
            name_w as int,
            desc_w as int,
            0,
            m as int,
        ) =~= spec_cmd_lines(
            name_cell0@,
            dl.deep_view(),
            al.deep_view(),
            name_w as int,
            desc_w as int,
            0,
            m as int,
        ));
    }
    while i < m
        invariant
            i <= m,
            spec_cmd_lines(
                name_cell0@,
                dl.deep_view(),
                al.deep_view(),
                name_w as int,
                desc_w as int,
                0,
                m as int,
            ) == out.deep_view() + spec_cmd_lines(
                name_cell0@,
                dl.deep_view(),
                al.deep_view(),
                name_w as int,
                desc_w as int,
                i as int,
                m as int,
            ),
        decreases m - i,
    {
        let name_cell = if i == 0 {
            copy_chars(name_cell0)
        } else {
            Vec::new()
        };
        let desc_cell = cell_at(dl, i);
        let args_cell = cell_at(al, i);
        let line = table_line(&name_cell, &desc_cell, &args_cell, name_w, desc_w);
        let ghost pre = out.deep_view();
        let ghost linev = line@;
        out.push(line);
        proof {
            assert(out@[out@.len() - 1].deep_view() =~= linev);
            assert(out.deep_view() =~= pre.push(linev));
            assert(pre + (seq![linev] + spec_cmd_lines(
                name_cell0@,
                dl.deep_view(),
                al.deep_view(),
                name_w as int,
                desc_w as int,
                i + 1 as int,
                m as int,
            )) =~= out.deep_view() + spec_cmd_lines(
                name_cell0@,
                dl.deep_view(),
                al.deep_view(),
                name_w as int,
                desc_w as int,
                i + 1 as int,
                m as int,
            ));
        }
        i = i + 1;
    }
    proof {
        assert(out.deep_view() + Seq::<Seq<char>>::empty() =~= out.deep_view());
    }
    out
}

/// The dotted full display name of a command under a prefix.
pub open spec fn spec_full_name(prefix: Seq<char>, name: Seq<char>) -> Seq<char> {
    if prefix.len() == 0 {
        name
    } else {
        prefix + "."@ + name
    }
}

/// How many lines a command's block spans: the taller of its wrapped
/// description and args columns, one at least.
pub open spec fn spec_block_height(dl: Seq<Seq<char>>, al: Seq<Seq<char>>) -> int {
    let m = if dl.len() > al.len() {
        dl.len() as int
    } else {
        al.len() as int
    };
    if m > 1 {
        m
    } else {
        1
    }
}

/// The rows all commands contribute to a table under a shared prefix.
pub open spec fn spec_render_rows(
    cmds: Seq<CommandDefModel>,
    prefix: Seq<char>,
    name_w: int,
    desc_w: int,
    args_w: int,
) -> Seq<Seq<char>>
    decreases cmds.len(),
{
    if cmds.len() == 0 {
        Seq::empty()
    } else {
        let c = cmds[0];
        let dl = spec_wrap_text(c.description, desc_w);
        let al = spec_wrap_text(spec_args_column(c.params), args_w);
        spec_cmd_lines(
            spec_full_name(prefix, c.name),
            dl,
            al,
            name_w,
            desc_w,
            0,
            spec_block_height(dl, al),
        ) + spec_render_rows(cmds.drop_first(), prefix, name_w, desc_w, args_w)
    }
}

/// A label normalized for display prefixes: trimmed, lowercased, all
/// whitespace removed.
pub open spec fn spec_remove_ws(s: Seq<char>) -> Seq<char>
    decreases s.len(),
{
    if s.len() == 0 {
        Seq::empty()
    } else {
        let rest = spec_remove_ws(s.drop_last());
        if spec_is_space(s.last()) {
            rest
        } else {
            rest.push(s.last())
        }
    }
}

/// A prefix normalized for consistent, copyable names.
pub open spec fn spec_normalize_prefix(s: Seq<char>) -> Seq<char> {
    spec_remove_ws(lower_of(spec_trim(s)))
}

/// Normalize a display prefix: trim, lowercase, remove all whitespace.
fn normalize_prefix(s: &str) -> (r: Vec<char>)
    ensures
        r@ == spec_normalize_prefix(s@),
{
    let chars = str_to_chars(s);
    let trimmed = trim_range(&chars, 0, chars.len());
    proof {
        assert(chars@.subrange(0, chars@.len() as int) =~= chars@);
    }
    let trimmed_s = chars_to_string(&trimmed);
    let lowered = lowercase(trimmed_s.as_str());
    let lchars = str_to_chars(lowered.as_str());
    let mut out: Vec<char> = Vec::new();
    let mut i: usize = 0;
    while i < lchars.len()
        invariant
            i <= lchars@.len(),
            out@ == spec_remove_ws(lchars@.subrange(0, i as int)),
        decreases lchars@.len() - i,
    {
        proof {
            assert(lchars@.subrange(0, i + 1 as int).drop_last() =~= lchars@.subrange(0, i as int));
        }
        let c = lchars[i];
        if !is_space(c) {
            out.push(c);
        }
        i = i + 1;
    }
    proof {
        assert(lchars@.subrange(0, lchars@.len() as int) =~= lchars@);
    }
    out
}

/// Render a formatted NAME / DESCRIPTION / ARGS table for a slice of
/// commands with a prefixed name: a header row, an underline row, then
/// each command's lines; the name column is fixed at the longest full
/// name, and the description and args columns wrap within the widths
/// allocated from `term_cols`.
pub fn render_table(cmds: &Vec<CommandDef>, prefix: &str, term_cols: usize) -> (r: Vec<String>)
    ensures
        ({
            let p = spec_normalize_prefix(prefix@);
            let name_w = spec_name_width(cmds.deep_view(), p.len() as int);
            let widths = spec_desc_args_widths(term_cols as int, name_w, 100);
            &&& r@.len() >= 2
            &&& r@[0]@ == spec_table_line("NAME"@, "DESCRIPTION"@, "ARGS"@, name_w, widths.0)
            &&& r@[1]@ == spec_table_line(
                spec_repeat('-', name_w),
                spec_repeat('-', widths.0),
                spec_repeat('-', 4),
                name_w,
                widths.0,
            )
            &&& r.deep_view().skip(2) == spec_render_rows(
                cmds.deep_view(),
                p,
                name_w,
                widths.0,
                widths.1,
            )
        }),
{
    let p = normalize_prefix(prefix);
    let plen = p.len();
    let name_w = name_width(cmds, plen);
    let widths = desc_args_widths(term_cols, name_w, 100);
    let desc_w = widths.0;
    let args_w = widths.1;
    let mut rows: Vec<String> = Vec::new();
    let header = table_line(
        &str_to_chars("NAME"),
        &str_to_chars("DESCRIPTION"),
        &str_to_chars("ARGS"),
        name_w,
        desc_w,
    );
    rows.push(chars_to_string(&header));
    let under = table_line(
        &repeat_char('-', name_w),
        &repeat_char('-', desc_w),
        &repeat_char('-', 4),
        name_w,
        desc_w,
    );
    rows.push(chars_to_string(&under));
    let ghost hdr2 = rows.deep_view();
    proof {
        assert(hdr2.len() == 2);
        assert(hdr2[0] == header@);
        assert(hdr2[1] == under@);
    }
    let ghost all = cmds.deep_view();
    let ghost mut done: Seq<Seq<char>> = Seq::empty();
    let mut k: usize = 0;
    proof {
        assert(all.skip(0) =~= all);
        assert(done + spec_render_rows(all, p@, name_w as int, desc_w as int, args_w as int)
            =~= spec_render_rows(all, p@, name_w as int, desc_w as int, args_w as int));
        assert(rows.deep_view() =~= hdr2 + done);
    }
    while k < cmds.len()
        invariant
            all == cmds.deep_view(),
            k <= all.len(),
            plen == p@.len(),
            hdr2.len() == 2,
            rows.deep_view() =~= hdr2 + done,
            spec_render_rows(all, p@, name_w as int, desc_w as int, args_w as int) == done
                + spec_render_rows(
                all.skip(k as int),
                p@,
                name_w as int,
                desc_w as int,
                args_w as int,
            ),
        decreases all.len() - k,
    {
        proof {
            assert(all.skip(k as int)[0] == all[k as int]);
            assert(all.skip(k as int).drop_first() =~= all.skip(k + 1 as int));
        }
        let c = &cmds[k];
        let full: Vec<char> = if plen == 0 {
            str_to_chars(c.name.as_str())
        } else {
            let mut f = copy_chars(&p);
            let mut dot = str_to_chars(".");
            f.append(&mut dot);
            let mut nm = str_to_chars(c.name.as_str());
            f.append(&mut nm);
            f
        };
        proof {
            assert(full@ =~= spec_full_name(p@, all[k as int].name));
        }
        let desc_chars = str_to_chars(c.description.as_str());
        let dl = wrap_text(&desc_chars, desc_w);
        let args_str = args_column(c);
        let args_chars = str_to_chars(args_str.as_str());
        let al = wrap_text(&args_chars, args_w);
        let mut m: usize = if dl.len() > al.len() {
            dl.len()
        } else {
            al.len()
        };
        if m < 1 {
            m = 1;
        }
        proof {
            assert(m as int == spec_block_height(dl.deep_view(), al.deep_view()));
        }
        let lines = command_lines(&full, &dl, &al, name_w, desc_w, m);
        let ghost block = lines.deep_view();
        let mut j: usize = 0;
        while j < lines.len()
            invariant
                block == lines.deep_view(),
                j <= block.len(),
                hdr2.len() == 2,
                rows.deep_view() =~= hdr2 + done + block.subrange(0, j as int),
            decreases block.len() - j,
        {
            proof {
                assert(lines.deep_view()[j as int] =~= lines@[j as int]@);
            }
            let ghost pre = rows.deep_view();
            rows.push(chars_to_string(&lines[j]));
            proof {
                assert(rows.deep_view() =~= pre.push(block[j as int]));
                assert(block.subrange(0, j as int).push(block[j as int]) =~= block.subrange(
                    0,
                    j + 1 as int,
                ));
                assert(pre.push(block[j as int]) =~= hdr2 + done + block.subrange(0, j + 1 as int));
            }
            j = j + 1;
        }
        proof {
            assert(block.subrange(0, block.len() as int) =~= block);
            assert(spec_render_rows(
                all.skip(k as int),
                p@,
                name_w as int,
                desc_w as int,
                args_w as int,
            ) == block + spec_render_rows(
                all.skip(k + 1 as int),
                p@,
                name_w as int,
                desc_w as int,
                args_w as int,
            ));
            done = done + block;
            assert(rows.deep_view() =~= hdr2 + done);
            assert(spec_render_rows(all, p@, name_w as int, desc_w as int, args_w as int) == done
                + spec_render_rows(
                all.skip(k + 1 as int),
                p@,
                name_w as int,
                desc_w as int,
                args_w as int,
            ));
        }
        k = k + 1;
    }
    proof {
        assert(all.skip(all.len() as int) =~= Seq::<CommandDefModel>::empty());
        assert(done + Seq::<Seq<char>>::empty() =~= done);
        assert(rows.deep_view().skip(2) =~= done);
        assert(rows.deep_view()[0] == hdr2[0]);
        assert(rows.deep_view()[1] == hdr2[1]);
        assert(rows@[0]@ == header@);
        assert(rows@[1]@ == under@);
    }
    rows
}

} // verus!
