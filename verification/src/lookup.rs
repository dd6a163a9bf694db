//! Command lookup: a command is addressed by its dotted, normalized full
//! name — `category.command` or `category.subcategory.command`, lowercased
//! with spaces removed — and the first match in catalog order wins.

use vstd::prelude::*;
use crate::models::{Category, CategoryModel, CommandDef, CommandDefModel, SubCategoryModel};
use crate::text::{chars_to_string, normalize_name, spec_normalize_name, str_eq, str_to_chars};

verus! {

/// Two name parts joined by a dot.
pub open spec fn spec_dotted(a: Seq<char>, b: Seq<char>) -> Seq<char> {
    a + "."@ + b
}

/// Join two name parts with a dot.
pub fn dotted(a: &str, b: &str) -> (r: String)
    ensures
        r@ == spec_dotted(a@, b@),
{
    let mut out = str_to_chars(a);
    let mut dot = str_to_chars(".");
    out.append(&mut dot);
    let mut tail = str_to_chars(b);
    out.append(&mut tail);
    chars_to_string(&out)
}

/// The first command in `cmds` whose dotted full name under `prefix`
/// normalizes to `q`.
pub open spec fn spec_find_in_commands(
    prefix: Seq<char>,
    cmds: Seq<CommandDefModel>,
    q: Seq<char>,
) -> Option<CommandDefModel>
    decreases cmds.len(),
{
    if cmds.len() == 0 {
        None
    } else if spec_normalize_name(spec_dotted(prefix, cmds[0].name)) == q {
        Some(cmds[0])
    } else {
        spec_find_in_commands(prefix, cmds.drop_first(), q)
    }
}

/// The first command of any subcategory of `subs` whose dotted full name
/// under the category `cat` normalizes to `q`.
pub open spec fn spec_find_in_subcats(
    cat: Seq<char>,
    subs: Seq<SubCategoryModel>,
    q: Seq<char>,
) -> Option<CommandDefModel>
    decreases subs.len(),
{
    if subs.len() == 0 {
        None
    } else {
        match spec_find_in_commands(spec_dotted(cat, subs[0].name), subs[0].commands, q) {
            Some(c) => Some(c),
            None => spec_find_in_subcats(cat, subs.drop_first(), q),
        }
    }
}

/// The first command of the catalog whose dotted full name normalizes to
/// `q`: each category's own commands first, then its subcategories'.
pub open spec fn spec_find_in_cats(cats: Seq<CategoryModel>, q: Seq<char>) -> Option<
    CommandDefModel,
>
    decreases cats.len(),
{
    if cats.len() == 0 {
        None
    } else {
        match spec_find_in_commands(cats[0].category, cats[0].commands, q) {
            Some(c) => Some(c),
            None => match spec_find_in_subcats(cats[0].category, cats[0].subcategories, q) {
                Some(c) => Some(c),
                None => spec_find_in_cats(cats.drop_first(), q),
            },
        }
    }
}

/// The command a query names: the query normalizes like the dotted full
/// names it is compared against.
pub open spec fn spec_find_command(cats: Seq<CategoryModel>, query: Seq<char>) -> Option<
    CommandDefModel,
> {
    spec_find_in_cats(cats, spec_normalize_name(query))
}

/// The first command in `cmds` whose dotted full name under `prefix`
/// normalizes to `q`.
fn find_in_commands<'a>(prefix: &str, cmds: &'a Vec<CommandDef>, q: &str) -> (r: Option<
    &'a CommandDef,
>)
    ensures
        match r {
            Some(c) => spec_find_in_commands(prefix@, cmds.deep_view(), q@) == Some(c@),
            None => spec_find_in_commands(prefix@, cmds.deep_view(), q@) is None,
        },
{
    let ghost all = cmds.deep_view();
    let mut k: usize = 0;
    proof {
        assert(all.skip(0) =~= all);
    }
    while k < cmds.len()
        invariant
            all == cmds.deep_view(),
            k <= all.len(),
            spec_find_in_commands(prefix@, all, q@) == spec_find_in_commands(
                prefix@,
                all.skip(k as int),
                q@,
            ),
        decreases all.len() - k,
    {
        proof {
            assert(all.skip(k as int)[0] == all[k as int]);
            assert(all.skip(k as int).drop_first() =~= all.skip(k + 1 as int));
        }
        let full = dotted(prefix, cmds[k].name.as_str());
        let normalized = normalize_name(full.as_str());
        if str_eq(normalized.as_str(), q) {
            return Some(&cmds[k]);
        }
        k = k + 1;
    }
    proof {
        assert(all.skip(all.len() as int) =~= Seq::<CommandDefModel>::empty());
    }
    None
}

/// Find a command by its dotted, normalized full name across categories
/// and subcategories; the first match in catalog order wins.
pub fn find_command<'a>(categories: &'a Vec<Category>, name: &str) -> (r: Option<&'a CommandDef>)
    ensures
        match r {
            Some(c) => spec_find_command(categories.deep_view(), name@) == Some(c@),
            None => spec_find_command(categories.deep_view(), name@) is None,
        },
{
    let q = normalize_name(name);
    let ghost cats = categories.deep_view();
    let mut ci: usize = 0;
    proof {
        assert(cats.skip(0) =~= cats);
    }
    while ci < categories.len()
        invariant
            cats == categories.deep_view(),
            ci <= cats.len(),
            q@ == spec_normalize_name(name@),
            spec_find_in_cats(cats, q@) == spec_find_in_cats(cats.skip(ci as int), q@),
        decreases cats.len() - ci,
    {
        proof {
            assert(cats.skip(ci as int)[0] == cats[ci as int]);
            assert(cats.skip(ci as int).drop_first() =~= cats.skip(ci + 1 as int));
        }
        let cat = &categories[ci];
        match find_in_commands(cat.category.as_str(), &cat.commands, q.as_str()) {
            Some(c) => {
                return Some(c);
            },
            None => {},
        }
        let ghost subs = cats[ci as int].subcategories;
        let mut si: usize = 0;
        proof {
            assert(subs.skip(0) =~= subs);
        }
        while si < cat.subcategories.len()
            invariant
                cats == categories.deep_view(),
                ci < cats.len(),
                cat == &categories[ci as int],
                subs == cats[ci as int].subcategories,
                si <= subs.len(),
                q@ == spec_normalize_name(name@),
                spec_find_in_cats(cats, q@) == spec_find_in_cats(cats.skip(ci as int), q@),
                spec_find_in_commands(cats[ci as int].category, cats[ci as int].commands, q@)
                    is None,
                spec_find_in_subcats(cats[ci as int].category, subs, q@) == spec_find_in_subcats(
                    cats[ci as int].category,
                    subs.skip(si as int),
                    q@,
                ),
            decreases subs.len() - si,
        {
            proof {
                assert(subs.skip(si as int)[0] == subs[si as int]);
                assert(subs.skip(si as int).drop_first() =~= subs.skip(si + 1 as int));
            }
            let sub = &cat.subcategories[si];
            let sub_prefix = dotted(cat.category.as_str(), sub.name.as_str());
            match find_in_commands(sub_prefix.as_str(), &sub.commands, q.as_str()) {
                Some(c) => {
                    return Some(c);
                },
                None => {},
            }
            si = si + 1;
        }
        proof {
            assert(subs.skip(subs.len() as int) =~= Seq::<SubCategoryModel>::empty());
        }
        ci = ci + 1;
    }
    proof {
        assert(cats.skip(cats.len() as int) =~= Seq::<CategoryModel>::empty());
    }
    None
}

} // verus!
