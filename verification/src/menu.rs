//! The interactive menu as data: navigation levels, menu items and the
//! action a selection decides, plus the menu builders for each level. The
//! outer layer presents the labels and performs the decided action; every
//! decision and every label is computed here.

use vstd::prelude::*;
use crate::cli_utils::{
    args_column, command_lines, desc_args_widths, name_width, spec_args_column,
    spec_block_height, spec_cmd_lines, spec_desc_args_widths, spec_name_width, spec_table_line,
    table_line,
};
use crate::models::{CategoryModel, CommandDef, CommandDefModel, Config};
use crate::text::{
    chars_to_string, clip_chars, copy_chars, repeat_char, spec_clip, spec_repeat, spec_wrap_text,
    str_to_chars, wrap_text,
};

verus! {

/// Where the operator stands in the hierarchical menu.
#[derive(Clone, Copy, Debug, PartialEq, Eq)]
pub enum MenuLevel {
    Root,
    Category(usize),
    SubCategory(usize, usize),
}

/// One selectable entry of a menu, or a non-interactive header row.
#[derive(Clone, Copy, Debug, PartialEq, Eq)]
pub enum MenuItem {
    NavigateCategory(usize),
    NavigateSubCategory(usize, usize),
    ExecuteCommand(usize, Option<usize>, usize),
    GoBack,
    Exit,
    Header,
}

/// What a selection decides: navigate, run a command, stay, or leave.
#[derive(Clone, Copy, Debug, PartialEq, Eq)]
pub enum MenuAction {
    Navigate(MenuLevel),
    Execute(usize, Option<usize>, usize),
    Stay,
    Exit,
}

/// A menu: display labels and the items they stand for, index by index.
pub struct Menu {
    pub labels: Vec<String>,
    pub items: Vec<MenuItem>,
}

impl Menu {
    /// An empty menu.
    pub fn new() -> (r: Menu)
        ensures
            r.labels@.len() == 0,
            r.items@.len() == 0,
    {
        Menu { labels: Vec::new(), items: Vec::new() }
    }

    /// Append one entry.
    pub fn add(&mut self, label: String, item: MenuItem)
        ensures
            final(self).labels@ == old(self).labels@.push(label),
            final(self).items@ == old(self).items@.push(item),
    {
        self.labels.push(label);
        self.items.push(item);
    }

    /// Append one non-interactive header row.
    pub fn add_header(&mut self, label: String)
        ensures
            final(self).labels@ == old(self).labels@.push(label),
            final(self).items@ == old(self).items@.push(MenuItem::Header),
    {
        self.add(label, MenuItem::Header);
    }

    /// Append the navigation actions: a go-back entry everywhere but at
    /// the root, then the exit entry.
    pub fn add_navigation_actions(&mut self, at_root: bool)
        ensures
            final(self).labels.deep_view() == old(self).labels.deep_view() + (if at_root {
                seq!["\u{25c0} Exit"@]
            } else {
                seq!["\u{25c0} Go Back"@, "\u{25c0} Exit"@]
            }),
            final(self).items@ == old(self).items@ + (if at_root {
                seq![MenuItem::Exit]
            } else {
                seq![MenuItem::GoBack, MenuItem::Exit]
            }),
    {
        let ghost pre_labels = self.labels.deep_view();
        let ghost pre_items = self.items@;
        if !at_root {
            self.add("\u{25c0} Go Back".to_owned(), MenuItem::GoBack);
        }
        self.add("\u{25c0} Exit".to_owned(), MenuItem::Exit);
        proof {
            if at_root {
                assert(self.labels.deep_view() =~= pre_labels + seq!["\u{25c0} Exit"@]);
                assert(self.items@ =~= pre_items + seq![MenuItem::Exit]);
            } else {
                assert(self.labels.deep_view() =~= pre_labels + seq![
                    "\u{25c0} Go Back"@,
                    "\u{25c0} Exit"@,
                ]);
                assert(self.items@ =~= pre_items + seq![MenuItem::GoBack, MenuItem::Exit]);
            }
        }
    }
}

/// The level one step up from the current one.
pub open spec fn spec_navigate_back(level: MenuLevel) -> MenuLevel {
    match level {
        MenuLevel::Root => MenuLevel::Root,
        MenuLevel::Category(_) => MenuLevel::Root,
        MenuLevel::SubCategory(ci, _) => MenuLevel::Category(ci),
    }
}

/// Step one level up: a subcategory returns to its category, anything
/// else to the root.
pub fn navigate_back(current_level: &MenuLevel) -> (r: MenuLevel)
    ensures
        r == spec_navigate_back(*current_level),
{
    match current_level {
        MenuLevel::Root => MenuLevel::Root,
        MenuLevel::Category(_) => MenuLevel::Root,
        MenuLevel::SubCategory(ci, _) => MenuLevel::Category(*ci),
    }
}

/// The action a selected item decides at the current level.
pub open spec fn spec_menu_action(item: MenuItem, level: MenuLevel) -> MenuAction {
    match item {
        MenuItem::Header => MenuAction::Stay,
        MenuItem::Exit => MenuAction::Exit,
        MenuItem::GoBack => MenuAction::Navigate(spec_navigate_back(level)),
        MenuItem::NavigateCategory(ci) => MenuAction::Navigate(MenuLevel::Category(ci)),
        MenuItem::NavigateSubCategory(ci, si) => (MenuAction::Navigate(
            MenuLevel::SubCategory(ci, si),
        )),
        MenuItem::ExecuteCommand(ci, si, ki) => MenuAction::Execute(ci, si, ki),
    }
}

/// Decide what a menu selection does: headers keep the menu up, commands
/// are handed out for execution, navigation moves between levels.
pub fn menu_action_for(item: &MenuItem, current_level: &MenuLevel) -> (r: MenuAction)
    ensures
        r == spec_menu_action(*item, *current_level),
{
    match item {
        MenuItem::Header => MenuAction::Stay,
        MenuItem::Exit => MenuAction::Exit,
        MenuItem::GoBack => MenuAction::Navigate(navigate_back(current_level)),
        MenuItem::NavigateCategory(ci) => MenuAction::Navigate(MenuLevel::Category(*ci)),
        MenuItem::NavigateSubCategory(ci, si) => (MenuAction::Navigate(
            MenuLevel::SubCategory(*ci, *si),
        )),
        MenuItem::ExecuteCommand(ci, si, ki) => MenuAction::Execute(*ci, *si, *ki),
    }
}

/// Lines joined with newlines.
pub open spec fn spec_join_nl(lines: Seq<Seq<char>>) -> Seq<char>
    decreases lines.len(),
{
    if lines.len() == 0 {
        Seq::empty()
    } else if lines.len() == 1 {
        lines[0]
    } else {
        lines[0] + seq!['\n'] + spec_join_nl(lines.drop_first())
    }
}

/// Join lines with newlines.
fn join_nl(lines: &Vec<Vec<char>>) -> (r: Vec<char>)
    ensures
        r@ == spec_join_nl(lines.deep_view()),
{
    let n = lines.len();
    let ghost all = lines.deep_view();
    let mut out: Vec<char> = Vec::new();
    if n == 0 {
        return out;
    }
    let mut k: usize = 0;
    proof {
        assert(all.skip(0) =~= all);
        assert(out@ + spec_join_nl(all) =~= spec_join_nl(all));
    }
    while k < n
        invariant
            n == all.len(),
            all == lines.deep_view(),
            n >= 1,
            k <= n,
            k < n ==> spec_join_nl(all) == out@ + spec_join_nl(all.skip(k as int)),
            k == n ==> spec_join_nl(all) == out@,
        decreases n - k,
    {
        proof {
            assert(all.skip(k as int)[0] == all[k as int]);
            assert(all.skip(k as int).drop_first() =~= all.skip(k + 1 as int));
            assert(lines.deep_view()[k as int] =~= lines@[k as int]@);
        }
        let ghost pre = out@;
        let mut piece = copy_chars(&lines[k]);
        out.append(&mut piece);
        if k + 1 < n {
            out.push('\n');
            proof {
                assert(all.skip(k as int).len() >= 2);
                assert(spec_join_nl(all.skip(k as int)) == all[k as int] + seq!['\n']
                    + spec_join_nl(all.skip(k + 1 as int)));
                assert(out@ =~= pre + all[k as int] + seq!['\n']);
                assert(pre + (all[k as int] + seq!['\n'] + spec_join_nl(all.skip(k + 1 as int)))
                    =~= out@ + spec_join_nl(all.skip(k + 1 as int)));
            }
        } else {
            proof {
                assert(all.skip(k as int).len() == 1);
                assert(spec_join_nl(all.skip(k as int)) == all[k as int]);
                assert(pre + all[k as int] =~= out@);
            }
        }
        k = k + 1;
    }
    out
}

/// The table block one command shows in a menu: its lines joined with
/// newlines, the clipped name on the first line only.
pub open spec fn spec_command_block(
    c: CommandDefModel,
    name_w: int,
    desc_w: int,
    args_w: int,
) -> Seq<char> {
    let dl = spec_wrap_text(c.description, desc_w);
    let al = spec_wrap_text(spec_args_column(c.params), args_w);
    spec_join_nl(
        spec_cmd_lines(
            spec_clip(c.name, name_w),
            dl,
            al,
            name_w,
            desc_w,
            0,
            spec_block_height(dl, al),
        ),
    )
}

/// Format the NAME / DESCRIPTION / ARGS table for a command list: one
/// block per command (its lines joined with newlines), plus the NAME and
/// DESCRIPTION column widths used.
pub fn format_commands_table(commands: &Vec<CommandDef>, term_cols: usize) -> (r: (
    Vec<String>,
    usize,
    usize,
))
    ensures
        ({
            let name_w = spec_name_width(commands.deep_view(), 0);
            let widths = spec_desc_args_widths(term_cols as int, name_w, 80);
            &&& r.1 as int == name_w
            &&& r.2 as int == widths.0
            &&& r.0@.len() == commands@.len()
            &&& forall|i: int|
                0 <= i < commands@.len() ==> r.0@[i]@ == spec_command_block(
                    #[trigger] commands.deep_view()[i],
                    name_w,
                    widths.0,
                    widths.1,
                )
        }),
{
    let name_w = name_width(commands, 0);
    let widths = desc_args_widths(term_cols, name_w, 80);
    let desc_w = widths.0;
    let args_w = widths.1;
    let mut rows: Vec<String> = Vec::new();
    let mut k: usize = 0;
    while k < commands.len()
        invariant
            k <= commands@.len(),
            name_w as int == spec_name_width(commands.deep_view(), 0),
            desc_w as int == spec_desc_args_widths(term_cols as int, name_w as int, 80).0,
            args_w as int == spec_desc_args_widths(term_cols as int, name_w as int, 80).1,
            rows@.len() == k,
            forall|i: int|
                0 <= i < k ==> rows@[i]@ == spec_command_block(
                    #[trigger] commands.deep_view()[i],
                    name_w as int,
                    desc_w as int,
                    args_w as int,
                ),
        decreases commands@.len() - k,
    {
        let c = &commands[k];
        let name_chars = str_to_chars(c.name.as_str());
        let name_disp = clip_chars(&name_chars, name_w);
        let desc_chars = str_to_chars(c.description.as_str());
        let dl = wrap_text(&desc_chars, desc_w);
        let args_str = args_column(c);
        let args_chars = str_to_chars(args_str.as_str());
        let al = wrap_text(&args_chars, args_w);
        let mut m: usize = if dl.len() > al.len() {
            dl.len()
        } else {
            al.len()
        };
        if m < 1 {
            m = 1;
        }
        proof {
            assert(m as int == spec_block_height(dl.deep_view(), al.deep_view()));
        }
        let lines = command_lines(&name_disp, &dl, &al, name_w, desc_w, m);
        let block = join_nl(&lines);
        rows.push(chars_to_string(&block));
        k = k + 1;
    }
    (rows, name_w, desc_w)
}

/// The same ARGS column used by the tables: argument names in order,
/// optional ones bracketed, a dash for none.
pub fn format_command_args(cmd: &CommandDef) -> (r: String)
    ensures
        r@ == spec_args_column(cmd@.params),
{
    args_column(cmd)
}

/// The labels the command entries of a menu table carry: the header row,
/// the separator row, then one block per command.
pub open spec fn spec_table_labels(
    cmds: Seq<CommandDefModel>,
    term_cols: int,
) -> Seq<Seq<char>> {
    let name_w = spec_name_width(cmds, 0);
    let widths = spec_desc_args_widths(term_cols, name_w, 80);
    seq![
        spec_table_line("NAME"@, "DESCRIPTION"@, "ARGS"@, name_w, widths.0),
        spec_table_line(
            spec_repeat('-', name_w),
            spec_repeat('-', widths.0),
            spec_repeat('-', 4),
            name_w,
            widths.0,
        ),
    ] + Seq::new(cmds.len(), |i: int| spec_command_block(cmds[i], name_w, widths.0, widths.1))
}

/// The items beside those labels: two header rows, then one command entry
/// per block.
pub open spec fn spec_table_items(n: int, ci: usize, si: Option<usize>) -> Seq<MenuItem> {
    seq![MenuItem::Header, MenuItem::Header] + Seq::new(
        n as nat,
        |i: int| MenuItem::ExecuteCommand(ci, si, i as usize),
    )
}

/// Append a command table to a menu: a header row, a separator row, then
/// one selectable entry per command.
pub fn add_commands_to_menu(
    menu: &mut Menu,
    commands: &Vec<CommandDef>,
    category_idx: usize,
    subcategory_idx: Option<usize>,
    term_cols: usize,
)
    ensures
        final(menu).labels.deep_view() == old(menu).labels.deep_view() + spec_table_labels(
            commands.deep_view(),
            term_cols as int,
        ),
        final(menu).items@ == old(menu).items@ + spec_table_items(
            commands@.len() as int,
            category_idx,
            subcategory_idx,
        ),
{
    let ghost pre_labels = menu.labels.deep_view();
    let ghost pre_items = menu.items@;
    let table = format_commands_table(commands, term_cols);
    let rows = table.0;
    let name_w = table.1;
    let desc_w = table.2;
    let header = table_line(
        &str_to_chars("NAME"),
        &str_to_chars("DESCRIPTION"),
        &str_to_chars("ARGS"),
        name_w,
        desc_w,
    );
    menu.add_header(chars_to_string(&header));
    let under = table_line(
        &repeat_char('-', name_w),
        &repeat_char('-', desc_w),
        &repeat_char('-', 4),
        name_w,
        desc_w,
    );
    menu.add_header(chars_to_string(&under));
    let mut idx: usize = 0;
    while idx < rows.len()
        invariant
            rows@.len() == commands@.len(),
            idx <= rows@.len(),
            menu.labels.deep_view() =~= pre_labels + seq![header@, under@] + rows.deep_view().take(
                idx as int,
            ),
            menu.items@ =~= pre_items + seq![MenuItem::Header, MenuItem::Header] + Seq::new(
                idx as nat,
                |i: int| MenuItem::ExecuteCommand(category_idx, subcategory_idx, i as usize),
            ),
        decreases rows@.len() - idx,
    {
        let ghost pre_l = menu.labels.deep_view();
        menu.add(
            rows[idx].clone(),
            MenuItem::ExecuteCommand(category_idx, subcategory_idx, idx),
        );
        proof {
            assert(rows.deep_view()[idx as int] == rows@[idx as int]@);
            assert(menu.labels.deep_view() =~= pre_l.push(rows.deep_view()[idx as int]));
            assert(rows.deep_view().take(idx + 1 as int) =~= rows.deep_view().take(
                idx as int,
            ).push(rows.deep_view()[idx as int]));
            assert(menu.labels.deep_view() =~= pre_labels + seq![header@, under@]
                + rows.deep_view().take(idx + 1 as int));
            assert(menu.items@ =~= pre_items + seq![MenuItem::Header, MenuItem::Header] + Seq::new(
                (idx + 1) as nat,
                |i: int| MenuItem::ExecuteCommand(category_idx, subcategory_idx, i as usize),
            ));
        }
        idx = idx + 1;
    }
    proof {
        assert(rows.deep_view().take(rows@.len() as int) =~= rows.deep_view());
        assert(menu.labels.deep_view() =~= pre_labels + spec_table_labels(
            commands.deep_view(),
            term_cols as int,
        ));
        assert(menu.items@ =~= pre_items + spec_table_items(
            commands@.len() as int,
            category_idx,
            subcategory_idx,
        ));
    }
}

/// The labels of the root menu: each category's name, then the exit
/// entry.
pub open spec fn spec_root_labels(cats: Seq<CategoryModel>) -> Seq<Seq<char>> {
    Seq::new(cats.len(), |i: int| cats[i].category).push("\u{25c0} Exit"@)
}

/// The items of the root menu.
pub open spec fn spec_root_items(n: int) -> Seq<MenuItem> {
    Seq::new(n as nat, |i: int| MenuItem::NavigateCategory(i as usize)).push(MenuItem::Exit)
}

/// Build the root menu: one entry per category, then the exit entry.
pub fn build_root_menu(cfg: &Config) -> (r: Menu)
    ensures
        r.labels.deep_view() == spec_root_labels(cfg@.categories),
        r.items@ == spec_root_items(cfg@.categories.len() as int),
{
    let mut menu = Menu::new();
    let mut idx: usize = 0;
    while idx < cfg.categories.len()
        invariant
            idx <= cfg.categories@.len(),
            menu.labels.deep_view() =~= Seq::new(
                idx as nat,
                |i: int| cfg@.categories[i].category,
            ),
            menu.items@ =~= Seq::new(idx as nat, |i: int| MenuItem::NavigateCategory(i as usize)),
        decreases cfg.categories@.len() - idx,
    {
        let ghost pre_l = menu.labels.deep_view();
        menu.add(cfg.categories[idx].category.clone(), MenuItem::NavigateCategory(idx));
        proof {
            assert(menu.labels.deep_view() =~= pre_l.push(cfg@.categories[idx as int].category));
            assert(menu.labels.deep_view() =~= Seq::new(
                (idx + 1) as nat,
                |i: int| cfg@.categories[i].category,
            ));
            assert(menu.items@ =~= Seq::new(
                (idx + 1) as nat,
                |i: int| MenuItem::NavigateCategory(i as usize),
            ));
        }
        idx = idx + 1;
    }
    menu.add_navigation_actions(true);
    proof {
        assert(menu.labels.deep_view() =~= spec_root_labels(cfg@.categories));
        assert(menu.items@ =~= spec_root_items(cfg@.categories.len() as int));
    }
    menu
}

/// The labels of a category's menu: its subcategories, its own command
/// table when it has commands, then go-back and exit.
pub open spec fn spec_category_labels(
    cats: Seq<CategoryModel>,
    ci: int,
    term_cols: int,
) -> Seq<Seq<char>> {
    let cat = cats[ci];
    Seq::new(cat.subcategories.len(), |i: int| cat.subcategories[i].name) + (if cat.commands.len()
        > 0 {
        spec_table_labels(cat.commands, term_cols)
    } else {
        Seq::empty()
    }) + seq!["\u{25c0} Go Back"@, "\u{25c0} Exit"@]
}

/// The items of a category's menu.
pub open spec fn spec_category_items(cat: CategoryModel, ci: usize) -> Seq<MenuItem> {
    Seq::new(cat.subcategories.len(), |i: int| MenuItem::NavigateSubCategory(ci, i as usize)) + (
    if cat.commands.len() > 0 {
        spec_table_items(cat.commands.len() as int, ci, None)
    } else {
        Seq::empty()
    }) + seq![MenuItem::GoBack, MenuItem::Exit]
}

/// Build a category's menu: its subcategories, its own commands as a
/// table, then the navigation actions.
pub fn build_category_menu(category_idx: usize, cfg: &Config, term_cols: usize) -> (r: Menu)
    requires
        category_idx < cfg.categories@.len(),
    ensures
        r.labels.deep_view() == spec_category_labels(
            cfg@.categories,
            category_idx as int,
            term_cols as int,
        ),
        r.items@ == spec_category_items(cfg@.categories[category_idx as int], category_idx),
{
    let mut menu = Menu::new();
    let category = &cfg.categories[category_idx];
    let mut idx: usize = 0;
    while idx < category.subcategories.len()
        invariant
            category_idx < cfg.categories@.len(),
            category == &cfg.categories[category_idx as int],
            idx <= category.subcategories@.len(),
            menu.labels.deep_view() =~= Seq::new(
                idx as nat,
                |i: int| cfg@.categories[category_idx as int].subcategories[i].name,
            ),
            menu.items@ =~= Seq::new(
                idx as nat,
                |i: int| MenuItem::NavigateSubCategory(category_idx, i as usize),
            ),
        decreases category.subcategories@.len() - idx,
    {
        let ghost pre_l = menu.labels.deep_view();
        menu.add(
            category.subcategories[idx].name.clone(),
            MenuItem::NavigateSubCategory(category_idx, idx),
        );
        proof {
            assert(menu.labels.deep_view() =~= pre_l.push(
                cfg@.categories[category_idx as int].subcategories[idx as int].name,
            ));
            assert(menu.labels.deep_view() =~= Seq::new(
                (idx + 1) as nat,
                |i: int| cfg@.categories[category_idx as int].subcategories[i].name,
            ));
            assert(menu.items@ =~= Seq::new(
                (idx + 1) as nat,
                |i: int| MenuItem::NavigateSubCategory(category_idx, i as usize),
            ));
        }
        idx = idx + 1;
    }
    if category.commands.len() > 0 {
        add_commands_to_menu(&mut menu, &category.commands, category_idx, None, term_cols);
    }
    menu.add_navigation_actions(false);
    proof {
        assert(menu.labels.deep_view() =~= spec_category_labels(
            cfg@.categories,
            category_idx as int,
            term_cols as int,
        ));
        assert(menu.items@ =~= spec_category_items(
            cfg@.categories[category_idx as int],
            category_idx,
        ));
    }
    menu
}

/// The labels of a subcategory's menu: its command table when it has
/// commands, then go-back and exit.
pub open spec fn spec_subcategory_labels(
    cats: Seq<CategoryModel>,
    ci: int,
    si: int,
    term_cols: int,
) -> Seq<Seq<char>> {
    let sub = cats[ci].subcategories[si];
    (if sub.commands.len() > 0 {
        spec_table_labels(sub.commands, term_cols)
    } else {
        Seq::empty()
    }) + seq!["\u{25c0} Go Back"@, "\u{25c0} Exit"@]
}

/// The items of a subcategory's menu.
pub open spec fn spec_subcategory_items(
    cats: Seq<CategoryModel>,
    ci: usize,
    si: usize,
) -> Seq<MenuItem> {
    let sub = cats[ci as int].subcategories[si as int];
    (if sub.commands.len() > 0 {
        spec_table_items(sub.commands.len() as int, ci, Some(si))
    } else {
        Seq::empty()
    }) + seq![MenuItem::GoBack, MenuItem::Exit]
}

/// Build a subcategory's menu: its commands as a table, then the
/// navigation actions.
pub fn build_subcategory_menu(
    category_idx: usize,
    subcategory_idx: usize,
    cfg: &Config,
    term_cols: usize,
) -> (r: Menu)
    requires
        category_idx < cfg.categories@.len(),
        subcategory_idx < cfg.categories@[category_idx as int].subcategories@.len(),
    ensures
        r.labels.deep_view() == spec_subcategory_labels(
            cfg@.categories,
            category_idx as int,
            subcategory_idx as int,
            term_cols as int,
        ),
        r.items@ == spec_subcategory_items(cfg@.categories, category_idx, subcategory_idx),
{
    let mut menu = Menu::new();
    let subcategory = &cfg.categories[category_idx].subcategories[subcategory_idx];
    if subcategory.commands.len() > 0 {
        add_commands_to_menu(
            &mut menu,
            &subcategory.commands,
            category_idx,
            Some(subcategory_idx),
            term_cols,
        );
    }
    menu.add_navigation_actions(false);
    proof {
        assert(menu.labels.deep_view() =~= spec_subcategory_labels(
            cfg@.categories,
            category_idx as int,
            subcategory_idx as int,
            term_cols as int,
        ));
        assert(menu.items@ =~= spec_subcategory_items(
            cfg@.categories,
            category_idx,
            subcategory_idx,
        ));
    }
    menu
}

/// Whether a navigation level points inside the catalog.
pub open spec fn spec_level_in_range(level: MenuLevel, cats: Seq<CategoryModel>) -> bool {
    match level {
        MenuLevel::Root => true,
        MenuLevel::Category(ci) => ci < cats.len(),
        MenuLevel::SubCategory(ci, si) => ci < cats.len() && si
            < cats[ci as int].subcategories.len(),
    }
}

/// Build the menu for the current navigation level.
pub fn build_menu_for_level(level: &MenuLevel, cfg: &Config, term_cols: usize) -> (r: Menu)
    requires
        spec_level_in_range(*level, cfg@.categories),
    ensures
        match *level {
            MenuLevel::Root => r.labels.deep_view() == spec_root_labels(cfg@.categories)
                && r.items@ == spec_root_items(cfg@.categories.len() as int),
            MenuLevel::Category(ci) => r.labels.deep_view() == spec_category_labels(
                cfg@.categories,
                ci as int,
                term_cols as int,
            ) && r.items@ == spec_category_items(cfg@.categories[ci as int], ci),
            MenuLevel::SubCategory(ci, si) => r.labels.deep_view() == spec_subcategory_labels(
                cfg@.categories,
                ci as int,
                si as int,
                term_cols as int,
            ) && r.items@ == spec_subcategory_items(cfg@.categories, ci, si),
        },
{
    match level {
        MenuLevel::Root => build_root_menu(cfg),
        MenuLevel::Category(ci) => build_category_menu(*ci, cfg, term_cols),
        MenuLevel::SubCategory(ci, si) => build_subcategory_menu(*ci, *si, cfg, term_cols),
    }
}

/// The prompt shown above the menu of a level.
pub open spec fn spec_prompt_for_level(level: MenuLevel, cats: Seq<CategoryModel>) -> Seq<char> {
    match level {
        MenuLevel::Root => "Select a category or action"@,
        MenuLevel::Category(ci) => "Category: "@ + cats[ci as int].category
            + " \u{2014} choose subcategory or command"@,
        MenuLevel::SubCategory(ci, si) => "Subcategory: "@ + cats[ci as int].category + " / "@
            + cats[ci as int].subcategories[si as int].name + " \u{2014} choose a command"@,
    }
}

/// The prompt shown above the menu of the current level.
pub fn create_prompt_for_level(level: &MenuLevel, cfg: &Config) -> (r: String)
    requires
        spec_level_in_range(*level, cfg@.categories),
    ensures
        r@ == spec_prompt_for_level(*level, cfg@.categories),
{
    match level {
        MenuLevel::Root => "Select a category or action".to_owned(),
        MenuLevel::Category(ci) => {
            let mut out = str_to_chars("Category: ");
            let mut name = str_to_chars(cfg.categories[*ci].category.as_str());
            out.append(&mut name);
            let mut tail = str_to_chars(" \u{2014} choose subcategory or command");
            out.append(&mut tail);
            chars_to_string(&out)
        },
        MenuLevel::SubCategory(ci, si) => {
            let mut out = str_to_chars("Subcategory: ");
            let mut name = str_to_chars(cfg.categories[*ci].category.as_str());
            out.append(&mut name);
            let mut sep = str_to_chars(" / ");
            out.append(&mut sep);
            let mut sub = str_to_chars(cfg.categories[*ci].subcategories[*si].name.as_str());
            out.append(&mut sub);
            let mut tail = str_to_chars(" \u{2014} choose a command");
            out.append(&mut tail);
            chars_to_string(&out)
        },
    }
}

/// The header rows of a menu, in order: the labels whose items are
/// non-interactive.
pub open spec fn spec_header_labels(labels: Seq<Seq<char>>, items: Seq<MenuItem>) -> Seq<Seq<char>>
    decreases items.len(),
{
    if items.len() == 0 {
        Seq::empty()
    } else {
        let rest = spec_header_labels(labels.drop_last(), items.drop_last());
        if items.last() is Header {
            rest.push(labels[items.len() - 1])
        } else {
            rest
        }
    }
}

/// The selectable labels of a menu, in order.
pub open spec fn spec_display_labels(labels: Seq<Seq<char>>, items: Seq<MenuItem>) -> Seq<
    Seq<char>,
>
    decreases items.len(),
{
    if items.len() == 0 {
        Seq::empty()
    } else {
        let rest = spec_display_labels(labels.drop_last(), items.drop_last());
        if items.last() is Header {
            rest
        } else {
            rest.push(labels[items.len() - 1])
        }
    }
}

/// The selectable items of a menu, in order, aligned with
/// [`spec_display_labels`].
pub open spec fn spec_display_items(items: Seq<MenuItem>) -> Seq<MenuItem>
    decreases items.len(),
{
    if items.len() == 0 {
        Seq::empty()
    } else {
        let rest = spec_display_items(items.drop_last());
        if items.last() is Header {
            rest
        } else {
            rest.push(items.last())
        }
    }
}

/// Split a menu for presentation: the non-interactive header rows, and
/// the selectable labels aligned with their items.
pub fn prepare_menu_display(menu: &Menu) -> (r: (Vec<String>, Vec<String>, Vec<MenuItem>))
    requires
        menu.labels@.len() == menu.items@.len(),
    ensures
        r.0.deep_view() == spec_header_labels(menu.labels.deep_view(), menu.items@),
        r.1.deep_view() == spec_display_labels(menu.labels.deep_view(), menu.items@),
        r.2@ == spec_display_items(menu.items@),
{
    let n = menu.items.len();
    let mut headers: Vec<String> = Vec::new();
    let mut labels: Vec<String> = Vec::new();
    let mut items: Vec<MenuItem> = Vec::new();
    let mut i: usize = 0;
    while i < n
        invariant
            n == menu.items@.len(),
            n == menu.labels@.len(),
            i <= n,
            headers.deep_view() == spec_header_labels(
                menu.labels.deep_view().take(i as int),
                menu.items@.take(i as int),
            ),
            labels.deep_view() == spec_display_labels(
                menu.labels.deep_view().take(i as int),
                menu.items@.take(i as int),
            ),
            items@ == spec_display_items(menu.items@.take(i as int)),
        decreases n - i,
    {
        proof {
            assert(menu.labels.deep_view().take(i + 1 as int).drop_last()
                =~= menu.labels.deep_view().take(i as int));
            assert(menu.items@.take(i + 1 as int).drop_last() =~= menu.items@.take(i as int));
            assert(menu.items@.take(i + 1 as int).last() == menu.items@[i as int]);
            assert(menu.labels.deep_view().take(i + 1 as int)[i as int]
                == menu.labels.deep_view()[i as int]);
            assert(menu.labels.deep_view()[i as int] == menu.labels@[i as int]@);
        }
        let label = menu.labels[i].clone();
        let item = menu.items[i];
        match item {
            MenuItem::Header => {
                let ghost pre = headers.deep_view();
                headers.push(label);
                proof {
                    assert(headers.deep_view() =~= pre.push(menu.labels.deep_view()[i as int]));
                }
            },
            _ => {
                let ghost pre = labels.deep_view();
                labels.push(label);
                items.push(item);
                proof {
                    assert(labels.deep_view() =~= pre.push(menu.labels.deep_view()[i as int]));
                }
            },
        }
        i = i + 1;
    }
    proof {
        assert(menu.labels.deep_view().take(n as int) =~= menu.labels.deep_view());
        assert(menu.items@.take(n as int) =~= menu.items@);
    }
    (headers, labels, items)
}

} // verus!
