//! The catalog model: categories, subcategories, commands and parameter
//! declarations, the per-invocation argument map, and the configuration
//! container with its global defaults and runtime context.

use vstd::prelude::*;
use crate::text::str_eq;

verus! {

/// Mathematical value of a [`ParamDef`].
pub ghost struct ParamDefModel {
    pub name: Seq<char>,
    pub prompt: Seq<char>,
    pub optional: bool,
    pub default: Option<Seq<char>>,
}

/// Argument declaration for a command.
pub struct ParamDef {
    pub name: String,
    pub prompt: String,
    pub optional: bool,
    pub default: Option<String>,
}

impl View for ParamDef {
    type V = ParamDefModel;

    open spec fn view(&self) -> ParamDefModel {
        ParamDefModel {
            name: self.name@,
            prompt: self.prompt@,
            optional: self.optional,
            default: self.default.deep_view(),
        }
    }
}

impl DeepView for ParamDef {
    type V = ParamDefModel;

    open spec fn deep_view(&self) -> ParamDefModel {
        self.view()
    }
}

/// Mathematical value of a [`CommandDef`].
pub ghost struct CommandDefModel {
    pub name: Seq<char>,
    pub description: Seq<char>,
    pub exec_template: Seq<char>,
    pub params: Seq<ParamDefModel>,
    pub pre_command: Option<Seq<char>>,
}

/// Command definition: a named executable template with its parameter
/// declarations and an optional reference to a command to run first.
pub struct CommandDef {
    pub name: String,
    pub description: String,
    pub exec_template: String,
    pub params: Vec<ParamDef>,
    pub pre_command: Option<String>,
}

impl View for CommandDef {
    type V = CommandDefModel;

    open spec fn view(&self) -> CommandDefModel {
        CommandDefModel {
            name: self.name@,
            description: self.description@,
            exec_template: self.exec_template@,
            params: self.params.deep_view(),
            pre_command: self.pre_command.deep_view(),
        }
    }
}

impl DeepView for CommandDef {
    type V = CommandDefModel;

    open spec fn deep_view(&self) -> CommandDefModel {
        self.view()
    }
}

impl Clone for ParamDef {
    /// An equal declaration, field for field.
    fn clone(&self) -> (r: Self)
        ensures
            r@ == self@,
    {
        ParamDef {
            name: self.name.clone(),
            prompt: self.prompt.clone(),
            optional: self.optional,
            default: match &self.default {
                Some(d) => Some(d.clone()),
                None => None,
            },
        }
    }
}

impl Clone for CommandDef {
    /// An equal command definition, field for field.
    fn clone(&self) -> (r: Self)
        ensures
            r@ == self@,
    {
        let mut params: Vec<ParamDef> = Vec::new();
        let mut i: usize = 0;
        while i < self.params.len()
            invariant
                i <= self.params@.len(),
                params@.len() == i,
                forall|k: int| 0 <= k < i ==> params@[k]@ == self.params@[k]@,
            decreases self.params@.len() - i,
        {
            params.push(self.params[i].clone());
            i = i + 1;
        }
        proof {
            assert(params.deep_view() =~= self.params.deep_view());
        }
        CommandDef {
            name: self.name.clone(),
            description: self.description.clone(),
            exec_template: self.exec_template.clone(),
            params,
            pre_command: match &self.pre_command {
                Some(p) => Some(p.clone()),
                None => None,
            },
        }
    }
}

/// Mathematical value of a [`SubCategory`].
pub ghost struct SubCategoryModel {
    pub name: Seq<char>,
    pub description: Seq<char>,
    pub commands: Seq<CommandDefModel>,
}

/// Nested subcategory grouping commands.
pub struct SubCategory {
    pub name: String,
    pub description: String,
    pub commands: Vec<CommandDef>,
}

impl View for SubCategory {
    type V = SubCategoryModel;

    open spec fn view(&self) -> SubCategoryModel {
        SubCategoryModel {
            name: self.name@,
            description: self.description@,
            commands: self.commands.deep_view(),
        }
    }
}

impl DeepView for SubCategory {
    type V = SubCategoryModel;

    open spec fn deep_view(&self) -> SubCategoryModel {
        self.view()
    }
}

impl Clone for SubCategory {
    /// An equal subcategory, commands cloned one by one.
    fn clone(&self) -> (r: Self)
        ensures
            r@ == self@,
    {
        let mut commands: Vec<CommandDef> = Vec::new();
        let mut i: usize = 0;
        while i < self.commands.len()
            invariant
                i <= self.commands@.len(),
                commands@.len() == i,
                forall|k: int| 0 <= k < i ==> commands@[k]@ == self.commands@[k]@,
            decreases self.commands@.len() - i,
        {
            commands.push(self.commands[i].clone());
            i = i + 1;
        }
        proof {
            assert(commands.deep_view() =~= self.commands.deep_view());
        }
        SubCategory {
            name: self.name.clone(),
            description: self.description.clone(),
            commands,
        }
    }
}

/// Mathematical value of a [`Category`].
pub ghost struct CategoryModel {
    pub category: Seq<char>,
    pub description: Seq<char>,
    pub commands: Seq<CommandDefModel>,
    pub subcategories: Seq<SubCategoryModel>,
}

/// Top-level category grouping commands and subcategories.
pub struct Category {
    pub category: String,
    pub description: String,
    pub commands: Vec<CommandDef>,
    pub subcategories: Vec<SubCategory>,
}

impl View for Category {
    type V = CategoryModel;

    open spec fn view(&self) -> CategoryModel {
        CategoryModel {
            category: self.category@,
            description: self.description@,
            commands: self.commands.deep_view(),
            subcategories: self.subcategories.deep_view(),
        }
    }
}

impl DeepView for Category {
    type V = CategoryModel;

    open spec fn deep_view(&self) -> CategoryModel {
        self.view()
    }
}

impl Clone for Category {
    /// An equal category, commands and subcategories cloned one by one.
    fn clone(&self) -> (r: Self)
        ensures
            r@ == self@,
    {
        let mut commands: Vec<CommandDef> = Vec::new();
        let mut i: usize = 0;
        while i < self.commands.len()
            invariant
                i <= self.commands@.len(),
                commands@.len() == i,
                forall|k: int| 0 <= k < i ==> commands@[k]@ == self.commands@[k]@,
            decreases self.commands@.len() - i,
        {
            commands.push(self.commands[i].clone());
            i = i + 1;
        }
        let mut subcategories: Vec<SubCategory> = Vec::new();
        let mut j: usize = 0;
        while j < self.subcategories.len()
            invariant
                j <= self.subcategories@.len(),
                subcategories@.len() == j,
                forall|k: int| 0 <= k < j ==> subcategories@[k]@ == self.subcategories@[k]@,
            decreases self.subcategories@.len() - j,
        {
            subcategories.push(self.subcategories[j].clone());
            j = j + 1;
        }
        proof {
            assert(commands.deep_view() =~= self.commands.deep_view());
            assert(subcategories.deep_view() =~= self.subcategories.deep_view());
        }
        Category {
            category: self.category.clone(),
            description: self.description.clone(),
            commands,
            subcategories,
        }
    }
}

/// Mapping from parameter name to resolved string value, built fresh per
/// command invocation. A later insertion for the same name supersedes an
/// earlier one, so the abstract value is a finite map.
pub struct ArgumentMap {
    entries: Vec<(String, String)>,
}

/// The map denoted by an entry list: each entry inserted in order, so the
/// last entry for a name wins.
pub closed spec fn map_of_entries(entries: Seq<(String, String)>) -> Map<Seq<char>, Seq<char>>
    decreases entries.len(),
{
    if entries.len() == 0 {
        Map::empty()
    } else {
        map_of_entries(entries.drop_last()).insert(entries.last().0@, entries.last().1@)
    }
}

impl View for ArgumentMap {
    type V = Map<Seq<char>, Seq<char>>;

    closed spec fn view(&self) -> Map<Seq<char>, Seq<char>> {
        map_of_entries(self.entries@)
    }
}

proof fn lemma_map_of_entries_domain(entries: Seq<(String, String)>, k: Seq<char>)
    ensures
        map_of_entries(entries).dom().contains(k) <==> exists|j: int|
            0 <= j < entries.len() && entries[j].0@ == k,
    decreases entries.len(),
{
    if entries.len() > 0 {
        lemma_map_of_entries_domain(entries.drop_last(), k);
        if map_of_entries(entries).dom().contains(k) && entries.last().0@ != k {
            let j = choose|j: int|
                0 <= j < entries.drop_last().len() && entries.drop_last()[j].0@ == k;
            assert(entries[j].0@ == k);
        }
        if exists|j: int| 0 <= j < entries.len() && entries[j].0@ == k {
            let j = choose|j: int| 0 <= j < entries.len() && entries[j].0@ == k;
            if entries.last().0@ != k {
                assert(entries.drop_last()[j].0@ == k);
            }
        }
    }
}

impl ArgumentMap {
    /// An empty argument map.
    pub fn new() -> (r: ArgumentMap)
        ensures
            r@ == Map::<Seq<char>, Seq<char>>::empty(),
    {
        ArgumentMap { entries: Vec::new() }
    }

    /// Bind `name` to `value`, superseding any earlier binding.
    pub fn insert(&mut self, name: String, value: String)
        ensures
            final(self)@ == old(self)@.insert(name@, value@),
    {
        let ghost pre = self.entries@;
        self.entries.push((name, value));
        proof {
            assert(self.entries@.drop_last() =~= pre);
        }
    }

    /// Whether `name` is bound.
    pub fn contains_key(&self, name: &str) -> (r: bool)
        ensures
            r == self@.dom().contains(name@),
    {
        let n = self.entries.len();
        let mut i: usize = 0;
        while i < n
            invariant
                n == self.entries@.len(),
                i <= n,
                forall|j: int| 0 <= j < i ==> self.entries@[j].0@ != name@,
            decreases n - i,
        {
            if str_eq(self.entries[i].0.as_str(), name) {
                proof {
                    lemma_map_of_entries_domain(self.entries@, name@);
                }
                return true;
            }
            i = i + 1;
        }
        proof {
            lemma_map_of_entries_domain(self.entries@, name@);
        }
        false
    }

    /// The value bound to `name`, if any.
    pub fn get(&self, name: &str) -> (r: Option<&String>)
        ensures
            match r {
                Some(v) => self@.dom().contains(name@) && v@ == self@[name@],
                None => !self@.dom().contains(name@),
            },
    {
        let n = self.entries.len();
        let ghost whole = self.entries@;
        let mut i: usize = n;
        proof {
            assert(whole.subrange(0, n as int) =~= whole);
        }
        while i > 0
            invariant
                n == whole.len(),
                whole == self.entries@,
                i <= n,
                map_of_entries(whole).dom().contains(name@) <==> map_of_entries(
                    whole.subrange(0, i as int),
                ).dom().contains(name@),
                map_of_entries(whole).dom().contains(name@) ==> map_of_entries(whole)[name@]
                    == map_of_entries(whole.subrange(0, i as int))[name@],
            decreases i,
        {
            i = i - 1;
            proof {
                assert(whole.subrange(0, i + 1 as int).drop_last() =~= whole.subrange(0, i as int));
                assert(whole.subrange(0, i + 1 as int).last() == whole[i as int]);
            }
            if str_eq(self.entries[i].0.as_str(), name) {
                return Some(&self.entries[i].1);
            }
        }
        proof {
            assert(whole.subrange(0, 0) =~= Seq::<(String, String)>::empty());
        }
        None
    }
}

impl ArgumentMap {
    /// The entries in insertion order; the map they denote is this map.
    pub closed spec fn spec_entries(&self) -> Seq<(String, String)> {
        self.entries@
    }

    /// The entries in insertion order, for display.
    pub fn entries(&self) -> (r: &Vec<(String, String)>)
        ensures
            r@ == self.spec_entries(),
            map_of_entries(r@) == self@,
    {
        &self.entries
    }
}

impl Clone for ArgumentMap {
    /// An equal map: same bindings.
    fn clone(&self) -> (r: Self)
        ensures
            r@ == self@,
    {
        let n = self.entries.len();
        let mut out: Vec<(String, String)> = Vec::new();
        let mut i: usize = 0;
        while i < n
            invariant
                n == self.entries@.len(),
                i <= n,
                out@ =~= self.entries@.subrange(0, i as int),
            decreases n - i,
        {
            out.push((self.entries[i].0.clone(), self.entries[i].1.clone()));
            i = i + 1;
        }
        proof {
            assert(out@ =~= self.entries@);
        }
        ArgumentMap { entries: out }
    }
}

/// Named bundle of scalar context values exposed read-only to templates.
pub struct UserParams {
    pub fields: ArgumentMap,
}

impl View for UserParams {
    type V = Map<Seq<char>, Seq<char>>;

    open spec fn view(&self) -> Map<Seq<char>, Seq<char>> {
        self.fields@
    }
}

impl DeepView for UserParams {
    type V = Map<Seq<char>, Seq<char>>;

    open spec fn deep_view(&self) -> Map<Seq<char>, Seq<char>> {
        self.view()
    }
}

/// Mathematical value of a [`ConfigFile`].
pub ghost struct ConfigFileModel {
    pub filename: Seq<char>,
    pub path: Seq<char>,
}

/// A definition file the configuration is read from: its expected file name
/// and, once located, its path.
pub struct ConfigFile {
    pub filename: String,
    pub path: String,
}

impl View for ConfigFile {
    type V = ConfigFileModel;

    open spec fn view(&self) -> ConfigFileModel {
        ConfigFileModel { filename: self.filename@, path: self.path@ }
    }
}

impl DeepView for ConfigFile {
    type V = ConfigFileModel;

    open spec fn deep_view(&self) -> ConfigFileModel {
        self.view()
    }
}

/// Default values applied across commands.
pub struct GlobalDefaults {
    pub group: Option<String>,
}

impl View for GlobalDefaults {
    type V = Option<Seq<char>>;

    open spec fn view(&self) -> Option<Seq<char>> {
        self.group.deep_view()
    }
}

impl DeepView for GlobalDefaults {
    type V = Option<Seq<char>>;

    open spec fn deep_view(&self) -> Option<Seq<char>> {
        self.view()
    }
}

/// Runtime context: the active parameter group and last-used selections,
/// threaded as a plain value through the resolver and renderer.
pub struct GlobalContext {
    pub current_group: Option<String>,
    pub current_namespace: Option<String>,
    pub current_user: Option<String>,
}

impl Default for GlobalContext {
    /// A context with nothing selected.
    fn default() -> (r: Self)
        ensures
            r.current_group is None,
            r.current_namespace is None,
            r.current_user is None,
    {
        GlobalContext { current_group: None, current_namespace: None, current_user: None }
    }
}

/// Mathematical value of a [`Config`].
pub ghost struct ConfigModel {
    pub defaults: Option<Option<Seq<char>>>,
    pub params: Seq<(Seq<char>, Map<Seq<char>, Seq<char>>)>,
    pub categories: Seq<CategoryModel>,
    pub files: Seq<(Seq<char>, ConfigFileModel)>,
}

/// Global configuration: the effective catalog plus group bindings and the
/// definition files it was assembled from.
pub struct Config {
    pub defaults: Option<GlobalDefaults>,
    pub params: Vec<(String, UserParams)>,
    pub categories: Vec<Category>,
    pub files: Vec<(String, ConfigFile)>,
}

impl Default for Config {
    /// The configuration before any file is read: no defaults, no groups,
    /// no categories, and the two definition files it expects to locate.
    fn default() -> (r: Self)
        ensures
            r.defaults is None,
            r.params@.len() == 0,
            r.categories@.len() == 0,
            r.files@.len() == 2,
            r.files@[0].0@ == "paramsFile"@,
            r.files@[0].1.filename@ == "scli.params.yaml"@,
            r.files@[0].1.path@ == Seq::<char>::empty(),
            r.files@[1].0@ == "commandsFile"@,
            r.files@[1].1.filename@ == "scli.commands.yaml"@,
            r.files@[1].1.path@ == Seq::<char>::empty(),
    {
        let mut files: Vec<(String, ConfigFile)> = Vec::new();
        files.push(
            (
                "paramsFile".to_owned(),
                ConfigFile { filename: "scli.params.yaml".to_owned(), path: String::new() },
            ),
        );
        files.push(
            (
                "commandsFile".to_owned(),
                ConfigFile { filename: "scli.commands.yaml".to_owned(), path: String::new() },
            ),
        );
        Config { defaults: None, params: Vec::new(), categories: Vec::new(), files }
    }
}

impl View for Config {
    type V = ConfigModel;

    open spec fn view(&self) -> ConfigModel {
        ConfigModel {
            defaults: self.defaults.deep_view(),
            params: self.params.deep_view(),
            categories: self.categories.deep_view(),
            files: self.files.deep_view(),
        }
    }
}

} // verus!
