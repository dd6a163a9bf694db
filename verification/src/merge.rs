//! Catalog merging: a base catalog combined with an overlay catalog by
//! name-keyed recursive merge. Categories and subcategories merge
//! structurally (non-empty overlay descriptions replace base ones, command
//! lists merge by name); a command match causes full replacement by the
//! overlay command. Unmatched overlay entries are appended verbatim.

use vstd::prelude::*;
use vstd::pervasive::VecAdditionalExecFns;
use crate::models::{Category, CategoryModel, CommandDef, CommandDefModel, SubCategory, SubCategoryModel};
use crate::text::str_eq;

verus! {

/// Index of the first command named `name`, or `-1` if there is none.
pub open spec fn cmd_index_of(s: Seq<CommandDefModel>, name: Seq<char>) -> int
    decreases s.len(),
{
    if s.len() == 0 {
        -1
    } else if s[0].name == name {
        0
    } else {
        let r = cmd_index_of(s.drop_first(), name);
        if r == -1 {
            -1
        } else {
            r + 1
        }
    }
}

/// The first command named `name`, if any.
pub open spec fn cmd_lookup(s: Seq<CommandDefModel>, name: Seq<char>) -> Option<CommandDefModel> {
    if cmd_index_of(s, name) == -1 {
        None
    } else {
        Some(s[cmd_index_of(s, name)])
    }
}

/// One overlay command merged into a command list: full replacement on a
/// name match, append otherwise.
pub open spec fn merge_one_command(base: Seq<CommandDefModel>, c: CommandDefModel) -> Seq<
    CommandDefModel,
> {
    let i = cmd_index_of(base, c.name);
    if i == -1 {
        base.push(c)
    } else {
        base.update(i, c)
    }
}

/// The overlay command list merged into the base command list, left to
/// right.
pub open spec fn spec_merge_commands(
    base: Seq<CommandDefModel>,
    overlay: Seq<CommandDefModel>,
) -> Seq<CommandDefModel>
    decreases overlay.len(),
{
    if overlay.len() == 0 {
        base
    } else {
        spec_merge_commands(merge_one_command(base, overlay[0]), overlay.drop_first())
    }
}

/// Index of the first subcategory named `name`, or `-1` if there is none.
pub open spec fn subcat_index_of(s: Seq<SubCategoryModel>, name: Seq<char>) -> int
    decreases s.len(),
{
    if s.len() == 0 {
        -1
    } else if s[0].name == name {
        0
    } else {
        let r = subcat_index_of(s.drop_first(), name);
        if r == -1 {
            -1
        } else {
            r + 1
        }
    }
}

/// The first subcategory named `name`, if any.
pub open spec fn subcat_lookup(s: Seq<SubCategoryModel>, name: Seq<char>) -> Option<
    SubCategoryModel,
> {
    if subcat_index_of(s, name) == -1 {
        None
    } else {
        Some(s[subcat_index_of(s, name)])
    }
}

/// An overlay subcategory merged into a matching base subcategory: the
/// overlay description wins when non-empty, the command lists merge.
pub open spec fn merge_subcategory_into(b: SubCategoryModel, o: SubCategoryModel) -> SubCategoryModel {
    SubCategoryModel {
        name: b.name,
        description: if o.description.len() > 0 {
            o.description
        } else {
            b.description
        },
        commands: spec_merge_commands(b.commands, o.commands),
    }
}

/// One overlay subcategory merged into a subcategory list.
pub open spec fn merge_one_subcategory(base: Seq<SubCategoryModel>, sc: SubCategoryModel) -> Seq<
    SubCategoryModel,
> {
    let i = subcat_index_of(base, sc.name);
    if i == -1 {
        base.push(sc)
    } else {
        base.update(i, merge_subcategory_into(base[i], sc))
    }
}

/// The overlay subcategory list merged into the base subcategory list.
pub open spec fn spec_merge_subcategories(
    base: Seq<SubCategoryModel>,
    overlay: Seq<SubCategoryModel>,
) -> Seq<SubCategoryModel>
    decreases overlay.len(),
{
    if overlay.len() == 0 {
        base
    } else {
        spec_merge_subcategories(merge_one_subcategory(base, overlay[0]), overlay.drop_first())
    }
}

/// Index of the first category named `name`, or `-1` if there is none.
pub open spec fn cat_index_of(s: Seq<CategoryModel>, name: Seq<char>) -> int
    decreases s.len(),
{
    if s.len() == 0 {
        -1
    } else if s[0].category == name {
        0
    } else {
        let r = cat_index_of(s.drop_first(), name);
        if r == -1 {
            -1
        } else {
            r + 1
        }
    }
}

/// The first category named `name`, if any.
pub open spec fn cat_lookup(s: Seq<CategoryModel>, name: Seq<char>) -> Option<CategoryModel> {
    if cat_index_of(s, name) == -1 {
        None
    } else {
        Some(s[cat_index_of(s, name)])
    }
}

/// An overlay category merged into a matching base category: the overlay
/// description wins when non-empty, command and subcategory lists merge.
pub open spec fn merge_category_into(b: CategoryModel, o: CategoryModel) -> CategoryModel {
    CategoryModel {
        category: b.category,
        description: if o.description.len() > 0 {
            o.description
        } else {
            b.description
        },
        commands: spec_merge_commands(b.commands, o.commands),
        subcategories: spec_merge_subcategories(b.subcategories, o.subcategories),
    }
}

/// One overlay category merged into a catalog.
pub open spec fn merge_one_category(base: Seq<CategoryModel>, c: CategoryModel) -> Seq<
    CategoryModel,
> {
    let i = cat_index_of(base, c.category);
    if i == -1 {
        base.push(c)
    } else {
        base.update(i, merge_category_into(base[i], c))
    }
}

/// The overlay catalog merged into the base catalog, left to right.
pub open spec fn spec_merge(base: Seq<CategoryModel>, overlay: Seq<CategoryModel>) -> Seq<
    CategoryModel,
>
    decreases overlay.len(),
{
    if overlay.len() == 0 {
        base
    } else {
        spec_merge(merge_one_category(base, overlay[0]), overlay.drop_first())
    }
}

proof fn lemma_cmd_index_of_props(s: Seq<CommandDefModel>, name: Seq<char>)
    ensures
        -1 <= cmd_index_of(s, name) < s.len(),
        cmd_index_of(s, name) >= 0 ==> s[cmd_index_of(s, name)].name == name,
        cmd_index_of(s, name) >= 0 ==> forall|j: int|
            0 <= j < cmd_index_of(s, name) ==> s[j].name != name,
        cmd_index_of(s, name) == -1 ==> forall|j: int| 0 <= j < s.len() ==> s[j].name != name,
    decreases s.len(),
{
    if s.len() > 0 && s[0].name != name {
        lemma_cmd_index_of_props(s.drop_first(), name);
        assert(forall|j: int| 1 <= j < s.len() ==> s[j] == s.drop_first()[j - 1]);
    }
}

proof fn lemma_cmd_index_of_first_match(s: Seq<CommandDefModel>, name: Seq<char>, j: int)
    requires
        0 <= j < s.len(),
        s[j].name == name,
        forall|k: int| 0 <= k < j ==> s[k].name != name,
    ensures
        cmd_index_of(s, name) == j,
{
    lemma_cmd_index_of_props(s, name);
}

proof fn lemma_subcat_index_of_props(s: Seq<SubCategoryModel>, name: Seq<char>)
    ensures
        -1 <= subcat_index_of(s, name) < s.len(),
        subcat_index_of(s, name) >= 0 ==> s[subcat_index_of(s, name)].name == name,
        subcat_index_of(s, name) >= 0 ==> forall|j: int|
            0 <= j < subcat_index_of(s, name) ==> s[j].name != name,
        subcat_index_of(s, name) == -1 ==> forall|j: int| 0 <= j < s.len() ==> s[j].name != name,
    decreases s.len(),
{
    if s.len() > 0 && s[0].name != name {
        lemma_subcat_index_of_props(s.drop_first(), name);
        assert(forall|j: int| 1 <= j < s.len() ==> s[j] == s.drop_first()[j - 1]);
    }
}

proof fn lemma_subcat_index_of_first_match(s: Seq<SubCategoryModel>, name: Seq<char>, j: int)
    requires
        0 <= j < s.len(),
        s[j].name == name,
        forall|k: int| 0 <= k < j ==> s[k].name != name,
    ensures
        subcat_index_of(s, name) == j,
{
    lemma_subcat_index_of_props(s, name);
}

proof fn lemma_cat_index_of_props(s: Seq<CategoryModel>, name: Seq<char>)
    ensures
        -1 <= cat_index_of(s, name) < s.len(),
        cat_index_of(s, name) >= 0 ==> s[cat_index_of(s, name)].category == name,
        cat_index_of(s, name) >= 0 ==> forall|j: int|
            0 <= j < cat_index_of(s, name) ==> s[j].category != name,
        cat_index_of(s, name) == -1 ==> forall|j: int| 0 <= j < s.len() ==> s[j].category != name,
    decreases s.len(),
{
    if s.len() > 0 && s[0].category != name {
        lemma_cat_index_of_props(s.drop_first(), name);
        assert(forall|j: int| 1 <= j < s.len() ==> s[j] == s.drop_first()[j - 1]);
    }
}

proof fn lemma_cat_index_of_first_match(s: Seq<CategoryModel>, name: Seq<char>, j: int)
    requires
        0 <= j < s.len(),
        s[j].category == name,
        forall|k: int| 0 <= k < j ==> s[k].category != name,
    ensures
        cat_index_of(s, name) == j,
{
    lemma_cat_index_of_props(s, name);
}

proof fn lemma_merge_commands_snoc(
    b: Seq<CommandDefModel>,
    o: Seq<CommandDefModel>,
    c: CommandDefModel,
)
    ensures
        spec_merge_commands(b, o.push(c)) == merge_one_command(spec_merge_commands(b, o), c),
    decreases o.len(),
{
    if o.len() == 0 {
        assert(o.push(c)[0] == c);
        assert(o.push(c).drop_first() =~= Seq::<CommandDefModel>::empty());
        assert(spec_merge_commands(merge_one_command(b, c), Seq::<CommandDefModel>::empty())
            == merge_one_command(b, c));
    } else {
        assert(o.push(c)[0] == o[0]);
        assert(o.push(c).drop_first() =~= o.drop_first().push(c));
        let b1 = merge_one_command(b, o[0]);
        assert(spec_merge_commands(b, o.push(c)) == spec_merge_commands(
            b1,
            o.drop_first().push(c),
        ));
        assert(spec_merge_commands(b, o) == spec_merge_commands(b1, o.drop_first()));
        lemma_merge_commands_snoc(b1, o.drop_first(), c);
    }
}

proof fn lemma_merge_subcategories_snoc(
    b: Seq<SubCategoryModel>,
    o: Seq<SubCategoryModel>,
    c: SubCategoryModel,
)
    ensures
        spec_merge_subcategories(b, o.push(c)) == merge_one_subcategory(
            spec_merge_subcategories(b, o),
            c,
        ),
    decreases o.len(),
{
    if o.len() == 0 {
        assert(o.push(c)[0] == c);
        assert(o.push(c).drop_first() =~= Seq::<SubCategoryModel>::empty());
        assert(spec_merge_subcategories(merge_one_subcategory(b, c), Seq::<SubCategoryModel>::empty())
            == merge_one_subcategory(b, c));
    } else {
        assert(o.push(c)[0] == o[0]);
        assert(o.push(c).drop_first() =~= o.drop_first().push(c));
        let b1 = merge_one_subcategory(b, o[0]);
        assert(spec_merge_subcategories(b, o.push(c)) == spec_merge_subcategories(
            b1,
            o.drop_first().push(c),
        ));
        assert(spec_merge_subcategories(b, o) == spec_merge_subcategories(b1, o.drop_first()));
        lemma_merge_subcategories_snoc(b1, o.drop_first(), c);
    }
}

proof fn lemma_merge_snoc(b: Seq<CategoryModel>, o: Seq<CategoryModel>, c: CategoryModel)
    ensures
        spec_merge(b, o.push(c)) == merge_one_category(spec_merge(b, o), c),
    decreases o.len(),
{
    if o.len() == 0 {
        assert(o.push(c)[0] == c);
        assert(o.push(c).drop_first() =~= Seq::<CategoryModel>::empty());
        assert(spec_merge(merge_one_category(b, c), Seq::<CategoryModel>::empty())
            == merge_one_category(b, c));
    } else {
        assert(o.push(c)[0] == o[0]);
        assert(o.push(c).drop_first() =~= o.drop_first().push(c));
        let b1 = merge_one_category(b, o[0]);
        assert(spec_merge(b, o.push(c)) == spec_merge(b1, o.drop_first().push(c)));
        assert(spec_merge(b, o) == spec_merge(b1, o.drop_first()));
        lemma_merge_snoc(b1, o.drop_first(), c);
    }
}

/// Command names are pairwise distinct within one list.
pub open spec fn distinct_cmd_names(s: Seq<CommandDefModel>) -> bool {
    forall|i: int, j: int| 0 <= i < j < s.len() ==> s[i].name != s[j].name
}

/// Subcategory names are pairwise distinct and each subcategory's command
/// names are pairwise distinct.
pub open spec fn distinct_subcat_names(s: Seq<SubCategoryModel>) -> bool {
    forall|i: int, j: int| 0 <= i < j < s.len() ==> s[i].name != s[j].name
}

/// A subcategory with pairwise distinct command names.
pub open spec fn wf_subcategory(sc: SubCategoryModel) -> bool {
    distinct_cmd_names(sc.commands)
}

/// Category names are pairwise distinct within one catalog.
pub open spec fn distinct_cat_names(s: Seq<CategoryModel>) -> bool {
    forall|i: int, j: int| 0 <= i < j < s.len() ==> s[i].category != s[j].category
}

/// A category whose command and subcategory names are unique at each level.
pub open spec fn wf_category(c: CategoryModel) -> bool {
    &&& distinct_cmd_names(c.commands)
    &&& distinct_subcat_names(c.subcategories)
    &&& forall|i: int| 0 <= i < c.subcategories.len() ==> wf_subcategory(#[trigger] c.subcategories[i])
}

/// A catalog snapshot with unique names at every level.
pub open spec fn wf_catalog(s: Seq<CategoryModel>) -> bool {
    &&& distinct_cat_names(s)
    &&& forall|i: int| 0 <= i < s.len() ==> wf_category(#[trigger] s[i])
}

proof fn lemma_merge_commands_self_from(c: Seq<CommandDefModel>, k: int)
    requires
        distinct_cmd_names(c),
        0 <= k <= c.len(),
    ensures
        spec_merge_commands(c, c.skip(k)) == c,
    decreases c.len() - k,
{
    if k == c.len() {
        assert(c.skip(k) =~= Seq::<CommandDefModel>::empty());
    } else {
        assert(c.skip(k)[0] == c[k]);
        assert(forall|j: int| 0 <= j < k ==> c[j].name != c[k].name);
        lemma_cmd_index_of_first_match(c, c[k].name, k);
        assert(merge_one_command(c, c[k]) =~= c);
        assert(c.skip(k).drop_first() =~= c.skip(k + 1));
        assert(spec_merge_commands(c, c.skip(k)) == spec_merge_commands(c, c.skip(k + 1)));
        lemma_merge_commands_self_from(c, k + 1);
    }
}

proof fn lemma_merge_subcategories_self_from(c: Seq<SubCategoryModel>, k: int)
    requires
        distinct_subcat_names(c),
        forall|i: int| 0 <= i < c.len() ==> wf_subcategory(#[trigger] c[i]),
        0 <= k <= c.len(),
    ensures
        spec_merge_subcategories(c, c.skip(k)) == c,
    decreases c.len() - k,
{
    if k == c.len() {
        assert(c.skip(k) =~= Seq::<SubCategoryModel>::empty());
    } else {
        assert(c.skip(k)[0] == c[k]);
        assert(forall|j: int| 0 <= j < k ==> c[j].name != c[k].name);
        lemma_subcat_index_of_first_match(c, c[k].name, k);
        lemma_merge_commands_self_from(c[k].commands, 0);
        assert(c[k].commands.skip(0) =~= c[k].commands);
        assert(merge_subcategory_into(c[k], c[k]) == c[k]);
        assert(merge_one_subcategory(c, c[k]) =~= c);
        assert(c.skip(k).drop_first() =~= c.skip(k + 1));
        assert(spec_merge_subcategories(c, c.skip(k)) == spec_merge_subcategories(
            c,
            c.skip(k + 1),
        ));
        lemma_merge_subcategories_self_from(c, k + 1);
    }
}

proof fn lemma_merge_self_from(c: Seq<CategoryModel>, k: int)
    requires
        wf_catalog(c),
        0 <= k <= c.len(),
    ensures
        spec_merge(c, c.skip(k)) == c,
    decreases c.len() - k,
{
    if k == c.len() {
        assert(c.skip(k) =~= Seq::<CategoryModel>::empty());
    } else {
        assert(c.skip(k)[0] == c[k]);
        assert(forall|j: int| 0 <= j < k ==> c[j].category != c[k].category);
        lemma_cat_index_of_first_match(c, c[k].category, k);
        lemma_merge_commands_self_from(c[k].commands, 0);
        assert(c[k].commands.skip(0) =~= c[k].commands);
        lemma_merge_subcategories_self_from(c[k].subcategories, 0);
        assert(c[k].subcategories.skip(0) =~= c[k].subcategories);
        assert(merge_category_into(c[k], c[k]) == c[k]);
        assert(merge_one_category(c, c[k]) =~= c);
        assert(c.skip(k).drop_first() =~= c.skip(k + 1));
        assert(spec_merge(c, c.skip(k)) == spec_merge(c, c.skip(k + 1)));
        lemma_merge_self_from(c, k + 1);
    }
}

/// Merge idempotence: merging a catalog into itself yields that same
/// catalog, provided names are unique at every level as the catalog
/// invariant demands.
pub proof fn lemma_merge_idempotent(c: Seq<CategoryModel>)
    requires
        wf_catalog(c),
    ensures
        spec_merge(c, c) == c,
{
    lemma_merge_self_from(c, 0);
    assert(c.skip(0) =~= c);
}

proof fn lemma_merge_one_command_lookup(
    b: Seq<CommandDefModel>,
    c: CommandDefModel,
    name: Seq<char>,
)
    ensures
        c.name == name ==> cmd_lookup(merge_one_command(b, c), name) == Some(c),
        c.name != name ==> cmd_lookup(merge_one_command(b, c), name) == cmd_lookup(b, name),
{
    lemma_cmd_index_of_props(b, c.name);
    lemma_cmd_index_of_props(b, name);
    let i = cmd_index_of(b, c.name);
    let i2 = cmd_index_of(b, name);
    let s2 = merge_one_command(b, c);
    if c.name == name {
        if i == -1 {
            lemma_cmd_index_of_first_match(s2, name, b.len() as int);
        } else {
            lemma_cmd_index_of_first_match(s2, name, i);
        }
    } else {
        if i2 == -1 {
            assert(forall|k: int| 0 <= k < s2.len() ==> s2[k].name != name);
            lemma_cmd_index_of_props(s2, name);
        } else {
            lemma_cmd_index_of_first_match(s2, name, i2);
        }
    }
}

proof fn lemma_merge_commands_lookup(
    b: Seq<CommandDefModel>,
    o: Seq<CommandDefModel>,
    name: Seq<char>,
)
    requires
        distinct_cmd_names(o),
    ensures
        cmd_index_of(o, name) >= 0 ==> cmd_lookup(spec_merge_commands(b, o), name) == Some(
            o[cmd_index_of(o, name)],
        ),
        cmd_index_of(o, name) == -1 ==> cmd_lookup(spec_merge_commands(b, o), name) == cmd_lookup(
            b,
            name,
        ),
    decreases o.len(),
{
    lemma_cmd_index_of_props(o, name);
    if o.len() > 0 {
        let b1 = merge_one_command(b, o[0]);
        let rest = o.drop_first();
        assert(forall|j: int| 0 <= j < rest.len() ==> rest[j] == o[j + 1]);
        lemma_merge_one_command_lookup(b, o[0], name);
        lemma_merge_commands_lookup(b1, rest, name);
        lemma_cmd_index_of_props(rest, name);
        assert(spec_merge_commands(b, o) == spec_merge_commands(b1, rest));
        if o[0].name == name {
            assert(forall|j: int| 0 <= j < rest.len() ==> rest[j].name != name);
            assert(cmd_index_of(rest, name) == -1);
        } else {
            let r = cmd_index_of(rest, name);
            if r >= 0 {
                assert(o[r + 1] == rest[r]);
            }
        }
    }
}

proof fn lemma_merge_one_subcategory_lookup(
    b: Seq<SubCategoryModel>,
    c: SubCategoryModel,
    name: Seq<char>,
)
    ensures
        c.name == name && subcat_index_of(b, name) >= 0 ==> subcat_lookup(
            merge_one_subcategory(b, c),
            name,
        ) == Some(merge_subcategory_into(b[subcat_index_of(b, name)], c)),
        c.name == name && subcat_index_of(b, name) == -1 ==> subcat_lookup(
            merge_one_subcategory(b, c),
            name,
        ) == Some(c),
        c.name != name ==> subcat_lookup(merge_one_subcategory(b, c), name) == subcat_lookup(
            b,
            name,
        ),
{
    lemma_subcat_index_of_props(b, c.name);
    lemma_subcat_index_of_props(b, name);
    let i = subcat_index_of(b, c.name);
    let i2 = subcat_index_of(b, name);
    let s2 = merge_one_subcategory(b, c);
    if c.name == name {
        if i == -1 {
            lemma_subcat_index_of_first_match(s2, name, b.len() as int);
        } else {
            lemma_subcat_index_of_first_match(s2, name, i);
        }
    } else {
        if i2 == -1 {
            assert(forall|k: int| 0 <= k < s2.len() ==> s2[k].name != name);
            lemma_subcat_index_of_props(s2, name);
        } else {
            lemma_subcat_index_of_first_match(s2, name, i2);
        }
    }
}

proof fn lemma_merge_subcategories_lookup(
    b: Seq<SubCategoryModel>,
    o: Seq<SubCategoryModel>,
    name: Seq<char>,
)
    requires
        distinct_subcat_names(o),
    ensures
        subcat_index_of(o, name) >= 0 && subcat_index_of(b, name) >= 0 ==> subcat_lookup(
            spec_merge_subcategories(b, o),
            name,
        ) == Some(
            merge_subcategory_into(b[subcat_index_of(b, name)], o[subcat_index_of(o, name)]),
        ),
        subcat_index_of(o, name) >= 0 && subcat_index_of(b, name) == -1 ==> subcat_lookup(
            spec_merge_subcategories(b, o),
            name,
        ) == Some(o[subcat_index_of(o, name)]),
        subcat_index_of(o, name) == -1 ==> subcat_lookup(spec_merge_subcategories(b, o), name)
            == subcat_lookup(b, name),
    decreases o.len(),
{
    lemma_subcat_index_of_props(b, name);
    lemma_subcat_index_of_props(o, name);
    if o.len() > 0 {
        let b1 = merge_one_subcategory(b, o[0]);
        let rest = o.drop_first();
        assert(forall|j: int| 0 <= j < rest.len() ==> rest[j] == o[j + 1]);
        lemma_merge_one_subcategory_lookup(b, o[0], name);
        lemma_merge_subcategories_lookup(b1, rest, name);
        lemma_subcat_index_of_props(rest, name);
        lemma_subcat_index_of_props(b1, name);
        assert(spec_merge_subcategories(b, o) == spec_merge_subcategories(b1, rest));
        if o[0].name == name {
            assert(forall|j: int| 0 <= j < rest.len() ==> rest[j].name != name);
            assert(subcat_index_of(rest, name) == -1);
        } else {
            assert(subcat_lookup(b1, name) == subcat_lookup(b, name));
            if subcat_index_of(b, name) >= 0 {
                assert(subcat_index_of(b1, name) >= 0);
                assert(b1[subcat_index_of(b1, name)] == b[subcat_index_of(b, name)]);
            } else {
                assert(subcat_index_of(b1, name) == -1);
            }
            let r = subcat_index_of(rest, name);
            if r >= 0 {
                assert(o[r + 1] == rest[r]);
            }
        }
    }
}

proof fn lemma_merge_one_category_lookup(b: Seq<CategoryModel>, c: CategoryModel, name: Seq<char>)
    ensures
        c.category == name && cat_index_of(b, name) >= 0 ==> cat_lookup(
            merge_one_category(b, c),
            name,
        ) == Some(merge_category_into(b[cat_index_of(b, name)], c)),
        c.category == name && cat_index_of(b, name) == -1 ==> cat_lookup(
            merge_one_category(b, c),
            name,
        ) == Some(c),
        c.category != name ==> cat_lookup(merge_one_category(b, c), name) == cat_lookup(b, name),
{
    lemma_cat_index_of_props(b, c.category);
    lemma_cat_index_of_props(b, name);
    let i = cat_index_of(b, c.category);
    let i2 = cat_index_of(b, name);
    let s2 = merge_one_category(b, c);
    if c.category == name {
        if i == -1 {
            lemma_cat_index_of_first_match(s2, name, b.len() as int);
        } else {
            lemma_cat_index_of_first_match(s2, name, i);
        }
    } else {
        if i2 == -1 {
            assert(forall|k: int| 0 <= k < s2.len() ==> s2[k].category != name);
            lemma_cat_index_of_props(s2, name);
        } else {
            lemma_cat_index_of_first_match(s2, name, i2);
        }
    }
}

proof fn lemma_merge_catalog_lookup(b: Seq<CategoryModel>, o: Seq<CategoryModel>, name: Seq<char>)
    requires
        distinct_cat_names(o),
    ensures
        cat_index_of(o, name) >= 0 && cat_index_of(b, name) >= 0 ==> cat_lookup(
            spec_merge(b, o),
            name,
        ) == Some(merge_category_into(b[cat_index_of(b, name)], o[cat_index_of(o, name)])),
        cat_index_of(o, name) >= 0 && cat_index_of(b, name) == -1 ==> cat_lookup(
            spec_merge(b, o),
            name,
        ) == Some(o[cat_index_of(o, name)]),
        cat_index_of(o, name) == -1 ==> cat_lookup(spec_merge(b, o), name) == cat_lookup(b, name),
    decreases o.len(),
{
    lemma_cat_index_of_props(b, name);
    lemma_cat_index_of_props(o, name);
    if o.len() > 0 {
        let b1 = merge_one_category(b, o[0]);
        let rest = o.drop_first();
        assert(forall|j: int| 0 <= j < rest.len() ==> rest[j] == o[j + 1]);
        lemma_merge_one_category_lookup(b, o[0], name);
        lemma_merge_catalog_lookup(b1, rest, name);
        lemma_cat_index_of_props(rest, name);
        lemma_cat_index_of_props(b1, name);
        assert(spec_merge(b, o) == spec_merge(b1, rest));
        if o[0].category == name {
            assert(forall|j: int| 0 <= j < rest.len() ==> rest[j].category != name);
            assert(cat_index_of(rest, name) == -1);
        } else {
            assert(cat_lookup(b1, name) == cat_lookup(b, name));
            if cat_index_of(b, name) >= 0 {
                assert(cat_index_of(b1, name) >= 0);
                assert(b1[cat_index_of(b1, name)] == b[cat_index_of(b, name)]);
            } else {
                assert(cat_index_of(b1, name) == -1);
            }
            let r = cat_index_of(rest, name);
            if r >= 0 {
                assert(o[r + 1] == rest[r]);
            }
        }
    }
}

/// Merge override: a command present under the same category name in both
/// base and overlay is replaced wholesale; the merged catalog carries the
/// overlay's command exactly, never a field-wise blend.
pub proof fn lemma_merge_command_override(
    base: Seq<CategoryModel>,
    overlay: Seq<CategoryModel>,
    cat_name: Seq<char>,
    cmd_name: Seq<char>,
)
    requires
        distinct_cat_names(overlay),
        cat_index_of(base, cat_name) >= 0,
        cat_index_of(overlay, cat_name) >= 0,
        distinct_cmd_names(overlay[cat_index_of(overlay, cat_name)].commands),
        cmd_index_of(overlay[cat_index_of(overlay, cat_name)].commands, cmd_name) >= 0,
    ensures
        cat_lookup(spec_merge(base, overlay), cat_name) == Some(
            merge_category_into(
                base[cat_index_of(base, cat_name)],
                overlay[cat_index_of(overlay, cat_name)],
            ),
        ),
        cmd_lookup(
            merge_category_into(
                base[cat_index_of(base, cat_name)],
                overlay[cat_index_of(overlay, cat_name)],
            ).commands,
            cmd_name,
        ) == Some(
            overlay[cat_index_of(overlay, cat_name)].commands[cmd_index_of(
                overlay[cat_index_of(overlay, cat_name)].commands,
                cmd_name,
            )],
        ),
{
    lemma_merge_catalog_lookup(base, overlay, cat_name);
    let bc = base[cat_index_of(base, cat_name)];
    let oc = overlay[cat_index_of(overlay, cat_name)];
    lemma_merge_commands_lookup(bc.commands, oc.commands, cmd_name);
}

/// New-entry preservation, category level: a category present only in the
/// overlay appears unchanged in the merged catalog.
pub proof fn lemma_merge_preserves_new_category(
    base: Seq<CategoryModel>,
    overlay: Seq<CategoryModel>,
    cat_name: Seq<char>,
)
    requires
        distinct_cat_names(overlay),
        cat_index_of(base, cat_name) == -1,
        cat_index_of(overlay, cat_name) >= 0,
    ensures
        cat_lookup(spec_merge(base, overlay), cat_name) == Some(
            overlay[cat_index_of(overlay, cat_name)],
        ),
{
    lemma_merge_catalog_lookup(base, overlay, cat_name);
}

/// New-entry preservation, command level: a command present only in the
/// overlay's version of a category appears unchanged in the merged
/// category's command list.
pub proof fn lemma_merge_preserves_new_command(
    base: Seq<CategoryModel>,
    overlay: Seq<CategoryModel>,
    cat_name: Seq<char>,
    cmd_name: Seq<char>,
)
    requires
        distinct_cat_names(overlay),
        cat_index_of(base, cat_name) >= 0,
        cat_index_of(overlay, cat_name) >= 0,
        distinct_cmd_names(overlay[cat_index_of(overlay, cat_name)].commands),
        cmd_index_of(base[cat_index_of(base, cat_name)].commands, cmd_name) == -1,
        cmd_index_of(overlay[cat_index_of(overlay, cat_name)].commands, cmd_name) >= 0,
    ensures
        cat_lookup(spec_merge(base, overlay), cat_name) == Some(
            merge_category_into(
                base[cat_index_of(base, cat_name)],
                overlay[cat_index_of(overlay, cat_name)],
            ),
        ),
        cmd_lookup(
            merge_category_into(
                base[cat_index_of(base, cat_name)],
                overlay[cat_index_of(overlay, cat_name)],
            ).commands,
            cmd_name,
        ) == Some(
            overlay[cat_index_of(overlay, cat_name)].commands[cmd_index_of(
                overlay[cat_index_of(overlay, cat_name)].commands,
                cmd_name,
            )],
        ),
{
    lemma_merge_command_override(base, overlay, cat_name, cmd_name);
}

/// New-entry preservation, subcategory level: a subcategory present only in
/// the overlay's version of a category appears unchanged in the merged
/// category.
pub proof fn lemma_merge_preserves_new_subcategory(
    base: Seq<CategoryModel>,
    overlay: Seq<CategoryModel>,
    cat_name: Seq<char>,
    sub_name: Seq<char>,
)
    requires
        distinct_cat_names(overlay),
        cat_index_of(base, cat_name) >= 0,
        cat_index_of(overlay, cat_name) >= 0,
        distinct_subcat_names(overlay[cat_index_of(overlay, cat_name)].subcategories),
        subcat_index_of(base[cat_index_of(base, cat_name)].subcategories, sub_name) == -1,
        subcat_index_of(overlay[cat_index_of(overlay, cat_name)].subcategories, sub_name) >= 0,
    ensures
        cat_lookup(spec_merge(base, overlay), cat_name) == Some(
            merge_category_into(
                base[cat_index_of(base, cat_name)],
                overlay[cat_index_of(overlay, cat_name)],
            ),
        ),
        subcat_lookup(
            merge_category_into(
                base[cat_index_of(base, cat_name)],
                overlay[cat_index_of(overlay, cat_name)],
            ).subcategories,
            sub_name,
        ) == Some(
            overlay[cat_index_of(overlay, cat_name)].subcategories[subcat_index_of(
                overlay[cat_index_of(overlay, cat_name)].subcategories,
                sub_name,
            )],
        ),
{
    lemma_merge_catalog_lookup(base, overlay, cat_name);
    let bc = base[cat_index_of(base, cat_name)];
    let oc = overlay[cat_index_of(overlay, cat_name)];
    lemma_merge_subcategories_lookup(bc.subcategories, oc.subcategories, sub_name);
}

/// Index of the first command named `name` in `cmds`, if any.
fn find_cmd_index(cmds: &Vec<CommandDef>, name: &str) -> (r: Option<usize>)
    ensures
        match r {
            Some(i) => i < cmds@.len() && cmd_index_of(cmds.deep_view(), name@) == i,
            None => cmd_index_of(cmds.deep_view(), name@) == -1,
        },
{
    let n = cmds.len();
    let mut i: usize = 0;
    while i < n
        invariant
            n == cmds@.len(),
            i <= n,
            forall|k: int| 0 <= k < i ==> cmds.deep_view()[k].name != name@,
        decreases n - i,
    {
        if str_eq(cmds[i].name.as_str(), name) {
            proof {
                lemma_cmd_index_of_first_match(cmds.deep_view(), name@, i as int);
            }
            return Some(i);
        }
        i = i + 1;
    }
    proof {
        lemma_cmd_index_of_props(cmds.deep_view(), name@);
    }
    None
}

/// Index of the first subcategory named `name` in `subs`, if any.
fn find_subcat_index(subs: &Vec<SubCategory>, name: &str) -> (r: Option<usize>)
    ensures
        match r {
            Some(i) => i < subs@.len() && subcat_index_of(subs.deep_view(), name@) == i,
            None => subcat_index_of(subs.deep_view(), name@) == -1,
        },
{
    let n = subs.len();
    let mut i: usize = 0;
    while i < n
        invariant
            n == subs@.len(),
            i <= n,
            forall|k: int| 0 <= k < i ==> subs.deep_view()[k].name != name@,
        decreases n - i,
    {
        if str_eq(subs[i].name.as_str(), name) {
            proof {
                lemma_subcat_index_of_first_match(subs.deep_view(), name@, i as int);
            }
            return Some(i);
        }
        i = i + 1;
    }
    proof {
        lemma_subcat_index_of_props(subs.deep_view(), name@);
    }
    None
}

/// Index of the first category named `name` in `cats`, if any.
fn find_cat_index(cats: &Vec<Category>, name: &str) -> (r: Option<usize>)
    ensures
        match r {
            Some(i) => i < cats@.len() && cat_index_of(cats.deep_view(), name@) == i,
            None => cat_index_of(cats.deep_view(), name@) == -1,
        },
{
    let n = cats.len();
    let mut i: usize = 0;
    while i < n
        invariant
            n == cats@.len(),
            i <= n,
            forall|k: int| 0 <= k < i ==> cats.deep_view()[k].category != name@,
        decreases n - i,
    {
        if str_eq(cats[i].category.as_str(), name) {
            proof {
                lemma_cat_index_of_first_match(cats.deep_view(), name@, i as int);
            }
            return Some(i);
        }
        i = i + 1;
    }
    proof {
        lemma_cat_index_of_props(cats.deep_view(), name@);
    }
    None
}

/// Merge the overlay command list into the base command list: a name match
/// replaces the base command wholesale, anything else is appended.
pub fn merge_commands(base: &Vec<CommandDef>, overlay: &Vec<CommandDef>) -> (r: Vec<CommandDef>)
    ensures
        r.deep_view() == spec_merge_commands(base.deep_view(), overlay.deep_view()),
{
    let mut result: Vec<CommandDef> = Vec::new();
    let mut i: usize = 0;
    while i < base.len()
        invariant
            i <= base@.len(),
            result@.len() == i,
            forall|k: int| 0 <= k < i ==> result@[k]@ == base@[k]@,
        decreases base@.len() - i,
    {
        result.push(base[i].clone());
        i = i + 1;
    }
    proof {
        assert(result.deep_view() =~= base.deep_view());
    }
    let mut k: usize = 0;
    while k < overlay.len()
        invariant
            k <= overlay@.len(),
            result.deep_view() == spec_merge_commands(
                base.deep_view(),
                overlay.deep_view().subrange(0, k as int),
            ),
        decreases overlay@.len() - k,
    {
        let ghost pre = result.deep_view();
        let oc = overlay[k].clone();
        proof {
            assert(oc@ == overlay.deep_view()[k as int]);
        }
        match find_cmd_index(&result, oc.name.as_str()) {
            Some(i) => {
                result.set(i, oc);
                proof {
                    assert(result.deep_view() =~= merge_one_command(
                        pre,
                        overlay.deep_view()[k as int],
                    ));
                }
            },
            None => {
                result.push(oc);
                proof {
                    assert(result.deep_view() =~= merge_one_command(
                        pre,
                        overlay.deep_view()[k as int],
                    ));
                }
            },
        }
        proof {
            assert(overlay.deep_view().subrange(0, k + 1 as int) =~= overlay.deep_view().subrange(
                0,
                k as int,
            ).push(overlay.deep_view()[k as int]));
            lemma_merge_commands_snoc(
                base.deep_view(),
                overlay.deep_view().subrange(0, k as int),
                overlay.deep_view()[k as int],
            );
        }
        k = k + 1;
    }
    proof {
        assert(overlay.deep_view().subrange(0, overlay.deep_view().len() as int)
            =~= overlay.deep_view());
    }
    result
}

/// Merge the overlay subcategory list into the base subcategory list.
pub fn merge_subcategories(base: &Vec<SubCategory>, overlay: &Vec<SubCategory>) -> (r: Vec<
    SubCategory,
>)
    ensures
        r.deep_view() == spec_merge_subcategories(base.deep_view(), overlay.deep_view()),
{
    let mut result: Vec<SubCategory> = Vec::new();
    let mut i: usize = 0;
    while i < base.len()
        invariant
            i <= base@.len(),
            result@.len() == i,
            forall|k: int| 0 <= k < i ==> result@[k]@ == base@[k]@,
        decreases base@.len() - i,
    {
        result.push(base[i].clone());
        i = i + 1;
    }
    proof {
        assert(result.deep_view() =~= base.deep_view());
    }
    let mut k: usize = 0;
    while k < overlay.len()
        invariant
            k <= overlay@.len(),
            result.deep_view() == spec_merge_subcategories(
                base.deep_view(),
                overlay.deep_view().subrange(0, k as int),
            ),
        decreases overlay@.len() - k,
    {
        let ghost pre = result.deep_view();
        let osc = &overlay[k];
        match find_subcat_index(&result, osc.name.as_str()) {
            Some(i) => {
                let merged = SubCategory {
                    name: result[i].name.clone(),
                    description: if osc.description.as_str().is_empty() {
                        result[i].description.clone()
                    } else {
                        osc.description.clone()
                    },
                    commands: merge_commands(&result[i].commands, &osc.commands),
                };
                proof {
                    assert(merged@ == merge_subcategory_into(
                        pre[i as int],
                        overlay.deep_view()[k as int],
                    ));
                }
                result.set(i, merged);
                proof {
                    assert(result.deep_view() =~= merge_one_subcategory(
                        pre,
                        overlay.deep_view()[k as int],
                    ));
                }
            },
            None => {
                result.push(osc.clone());
                proof {
                    assert(result.deep_view() =~= merge_one_subcategory(
                        pre,
                        overlay.deep_view()[k as int],
                    ));
                }
            },
        }
        proof {
            assert(overlay.deep_view().subrange(0, k + 1 as int) =~= overlay.deep_view().subrange(
                0,
                k as int,
            ).push(overlay.deep_view()[k as int]));
            lemma_merge_subcategories_snoc(
                base.deep_view(),
                overlay.deep_view().subrange(0, k as int),
                overlay.deep_view()[k as int],
            );
        }
        k = k + 1;
    }
    proof {
        assert(overlay.deep_view().subrange(0, overlay.deep_view().len() as int)
            =~= overlay.deep_view());
    }
    result
}

/// Merge an overlay catalog into a base catalog, producing the effective
/// catalog. The base is not mutated; unmatched overlay categories are
/// appended verbatim.
pub fn merge(base: &Vec<Category>, overlay: &Vec<Category>) -> (r: Vec<Category>)
    ensures
        r.deep_view() == spec_merge(base.deep_view(), overlay.deep_view()),
{
    let mut result: Vec<Category> = Vec::new();
    let mut i: usize = 0;
    while i < base.len()
        invariant
            i <= base@.len(),
            result@.len() == i,
            forall|k: int| 0 <= k < i ==> result@[k]@ == base@[k]@,
        decreases base@.len() - i,
    {
        result.push(base[i].clone());
        i = i + 1;
    }
    proof {
        assert(result.deep_view() =~= base.deep_view());
    }
    let mut k: usize = 0;
    while k < overlay.len()
        invariant
            k <= overlay@.len(),
            result.deep_view() == spec_merge(
                base.deep_view(),
                overlay.deep_view().subrange(0, k as int),
            ),
        decreases overlay@.len() - k,
    {
        let ghost pre = result.deep_view();
        let oc = &overlay[k];
        match find_cat_index(&result, oc.category.as_str()) {
            Some(i) => {
                let merged = Category {
                    category: result[i].category.clone(),
                    description: if oc.description.as_str().is_empty() {
                        result[i].description.clone()
                    } else {
                        oc.description.clone()
                    },
                    commands: merge_commands(&result[i].commands, &oc.commands),
                    subcategories: merge_subcategories(&result[i].subcategories, &oc.subcategories),
                };
                proof {
                    assert(merged@ == merge_category_into(
                        pre[i as int],
                        overlay.deep_view()[k as int],
                    ));
                }
                result.set(i, merged);
                proof {
                    assert(result.deep_view() =~= merge_one_category(
                        pre,
                        overlay.deep_view()[k as int],
                    ));
                }
            },
            None => {
                result.push(oc.clone());
                proof {
                    assert(result.deep_view() =~= merge_one_category(
                        pre,
                        overlay.deep_view()[k as int],
                    ));
                }
            },
        }
        proof {
            assert(overlay.deep_view().subrange(0, k + 1 as int) =~= overlay.deep_view().subrange(
                0,
                k as int,
            ).push(overlay.deep_view()[k as int]));
            lemma_merge_snoc(
                base.deep_view(),
                overlay.deep_view().subrange(0, k as int),
                overlay.deep_view()[k as int],
            );
        }
        k = k + 1;
    }
    proof {
        assert(overlay.deep_view().subrange(0, overlay.deep_view().len() as int)
            =~= overlay.deep_view());
    }
    result
}

} // verus!
