//! Parameter resolution: the final value of every placeholder referenced by
//! a command's executable template, applying the precedence explicit
//! override > declared default > optional-empty > unresolved. Interactive
//! prompting stays outside the core; this module plans the prompts and
//! records their responses.

use vstd::prelude::*;
use crate::models::{ArgumentMap, CommandDef, CommandDefModel, ParamDef, ParamDefModel};
use crate::template::{extract_placeholders, spec_placeholders, spec_trim, trim_range};
use crate::text::{chars_to_string, str_eq, str_to_chars};

verus! {

/// Index of the first declaration named `name`, or `-1` if there is none.
pub open spec fn param_index_of(params: Seq<ParamDefModel>, name: Seq<char>) -> int
    decreases params.len(),
{
    if params.len() == 0 {
        -1
    } else if params[0].name == name {
        0
    } else {
        let r = param_index_of(params.drop_first(), name);
        if r == -1 {
            -1
        } else {
            r + 1
        }
    }
}

/// The first declaration named `name`, if any.
pub open spec fn spec_find_param(params: Seq<ParamDefModel>, name: Seq<char>) -> Option<
    ParamDefModel,
> {
    if param_index_of(params, name) == -1 {
        None
    } else {
        Some(params[param_index_of(params, name)])
    }
}

proof fn lemma_param_index_of_props(params: Seq<ParamDefModel>, name: Seq<char>)
    ensures
        -1 <= param_index_of(params, name) < params.len(),
        param_index_of(params, name) >= 0 ==> params[param_index_of(params, name)].name == name,
        param_index_of(params, name) >= 0 ==> forall|j: int|
            0 <= j < param_index_of(params, name) ==> params[j].name != name,
        param_index_of(params, name) == -1 ==> forall|j: int|
            0 <= j < params.len() ==> params[j].name != name,
    decreases params.len(),
{
    if params.len() > 0 && params[0].name != name {
        lemma_param_index_of_props(params.drop_first(), name);
        assert(forall|j: int| 1 <= j < params.len() ==> params[j] == params.drop_first()[j - 1]);
    }
}

/// The value a placeholder resolves to without an override and without a
/// prompt: the declared default when it is non-empty, the default or the
/// empty string when the declaration is optional, nothing otherwise.
pub open spec fn spec_resolved_value(params: Seq<ParamDefModel>, name: Seq<char>) -> Option<
    Seq<char>,
> {
    let value = match spec_find_param(params, name) {
        Some(d) => match d.default {
            Some(v) => v,
            None => Seq::empty(),
        },
        None => Seq::empty(),
    };
    let optional = match spec_find_param(params, name) {
        Some(d) => d.optional,
        None => false,
    };
    if value.len() > 0 || optional {
        Some(value)
    } else {
        None
    }
}

/// The argument map after resolving each placeholder of `names` in order:
/// a name already bound is left alone, otherwise it is bound to its
/// resolved value if it has one.
pub open spec fn spec_resolve_list(
    params: Seq<ParamDefModel>,
    names: Seq<Seq<char>>,
    acc: Map<Seq<char>, Seq<char>>,
) -> Map<Seq<char>, Seq<char>>
    decreases names.len(),
{
    if names.len() == 0 {
        acc
    } else {
        let name = names[0];
        let acc2 = if acc.dom().contains(name) {
            acc
        } else {
            match spec_resolved_value(params, name) {
                Some(v) => acc.insert(name, v),
                None => acc,
            }
        };
        spec_resolve_list(params, names.drop_first(), acc2)
    }
}

/// The resolved argument map of a command under the given overrides,
/// without prompting.
pub open spec fn spec_substitute(cmd: CommandDefModel, overrides: Map<Seq<char>, Seq<char>>) -> Map<
    Seq<char>,
    Seq<char>,
> {
    spec_resolve_list(cmd.params, spec_placeholders(cmd.exec_template), overrides)
}

/// The first declaration in `params` named `name`, if any.
pub fn find_param<'a>(params: &'a Vec<ParamDef>, name: &str) -> (r: Option<&'a ParamDef>)
    ensures
        match r {
            Some(p) => spec_find_param(params.deep_view(), name@) == Some(p@),
            None => spec_find_param(params.deep_view(), name@) is None,
        },
{
    let n = params.len();
    let mut i: usize = 0;
    while i < n
        invariant
            n == params@.len(),
            i <= n,
            forall|j: int| 0 <= j < i ==> params.deep_view()[j].name != name@,
        decreases n - i,
    {
        if str_eq(params[i].name.as_str(), name) {
            proof {
                assert(params.deep_view()[i as int].name == name@);
                lemma_param_index_of_props(params.deep_view(), name@);
                assert(param_index_of(params.deep_view(), name@) == i);
            }
            return Some(&params[i]);
        }
        i = i + 1;
    }
    proof {
        lemma_param_index_of_props(params.deep_view(), name@);
    }
    None
}

/// Collect the arguments of a command without prompting: each placeholder
/// of the executable template resolves to the explicit override, else the
/// declared default, else the empty string when optional, else it stays
/// unresolved.
pub fn substitute_parameters(cmd: &CommandDef, overrides: Option<&ArgumentMap>) -> (r: ArgumentMap)
    ensures
        r@ == spec_substitute(
            cmd@,
            match overrides {
                Some(o) => o@,
                None => Map::<Seq<char>, Seq<char>>::empty(),
            },
        ),
{
    let mut collected = match overrides {
        Some(o) => o.clone(),
        None => ArgumentMap::new(),
    };
    let names = extract_placeholders(cmd.exec_template.as_str());
    let ghost all = names.deep_view();
    let ghost params = cmd.params.deep_view();
    let mut k: usize = 0;
    proof {
        assert(all.skip(0) =~= all);
    }
    while k < names.len()
        invariant
            all == names.deep_view(),
            params == cmd.params.deep_view(),
            k <= all.len(),
            spec_resolve_list(params, all, overrides_view(overrides)) == spec_resolve_list(
                params,
                all.skip(k as int),
                collected@,
            ),
        decreases all.len() - k,
    {
        proof {
            assert(all.skip(k as int)[0] == all[k as int]);
            assert(all.skip(k as int).drop_first() =~= all.skip(k + 1 as int));
        }
        let name = &names[k];
        proof {
            assert(name@ == all[k as int]);
        }
        if !collected.contains_key(name.as_str()) {
            match find_param(&cmd.params, name.as_str()) {
                Some(p) => {
                    match &p.default {
                        Some(d) => {
                            if !d.as_str().is_empty() || p.optional {
                                collected.insert(name.clone(), d.clone());
                            }
                        },
                        None => {
                            if p.optional {
                                collected.insert(name.clone(), String::new());
                            }
                        },
                    }
                },
                None => {},
            }
        }
        k = k + 1;
    }
    proof {
        assert(all.skip(all.len() as int) =~= Seq::<Seq<char>>::empty());
    }
    collected
}

/// The override map handed in, or the empty map.
pub open spec fn overrides_view(overrides: Option<&ArgumentMap>) -> Map<Seq<char>, Seq<char>> {
    match overrides {
        Some(o) => o@,
        None => Map::empty(),
    }
}

/// Mathematical value of a [`PromptRequest`].
pub ghost struct PromptRequestModel {
    pub name: Seq<char>,
    pub prompt: Seq<char>,
    pub default: Option<Seq<char>>,
    pub optional: bool,
}

/// One interactive prompt the outer layer must show: the placeholder
/// name, the prompt text to display, the default to offer, and whether an
/// empty response is acceptable.
pub struct PromptRequest {
    pub name: String,
    pub prompt: String,
    pub default: Option<String>,
    pub optional: bool,
}

impl View for PromptRequest {
    type V = PromptRequestModel;

    open spec fn view(&self) -> PromptRequestModel {
        PromptRequestModel {
            name: self.name@,
            prompt: self.prompt@,
            default: self.default.deep_view(),
            optional: self.optional,
        }
    }
}

impl DeepView for PromptRequest {
    type V = PromptRequestModel;

    open spec fn deep_view(&self) -> PromptRequestModel {
        self.view()
    }
}

/// The declaration governing a placeholder: the first declaration of its
/// name, or the implicit required declaration with an empty prompt and no
/// default.
pub open spec fn spec_decl_for(params: Seq<ParamDefModel>, name: Seq<char>) -> ParamDefModel {
    match spec_find_param(params, name) {
        Some(d) => d,
        None => (ParamDefModel { name: name, prompt: Seq::empty(), optional: false, default: None }),
    }
}

/// The prompt text shown for a declaration: its own prompt when one is
/// given, else a generic request naming the placeholder; a default or the
/// optional mark is appended.
pub open spec fn spec_prompt_text(d: ParamDefModel) -> Seq<char> {
    let base = if spec_trim(d.prompt).len() == 0 {
        "Enter value for '"@ + d.name + "'"@
    } else {
        d.prompt
    };
    match d.default {
        Some(v) => base + " [default: "@ + v + "]"@,
        None => if d.optional {
            base + " [optional]"@
        } else {
            base
        },
    }
}

/// The prompt a placeholder requires.
pub open spec fn spec_request_for(params: Seq<ParamDefModel>, name: Seq<char>) -> PromptRequestModel {
    let d = spec_decl_for(params, name);
    PromptRequestModel {
        name: d.name,
        prompt: spec_prompt_text(d),
        default: d.default,
        optional: d.optional,
    }
}

/// The prompts owed for the placeholders of `names`, in template order:
/// one for each name the map does not already bind.
pub open spec fn spec_prompt_plan(
    params: Seq<ParamDefModel>,
    names: Seq<Seq<char>>,
    have: Map<Seq<char>, Seq<char>>,
) -> Seq<PromptRequestModel>
    decreases names.len(),
{
    if names.len() == 0 {
        Seq::empty()
    } else {
        let rest = spec_prompt_plan(params, names.drop_first(), have);
        if have.dom().contains(names[0]) {
            rest
        } else {
            seq![spec_request_for(params, names[0])] + rest
        }
    }
}

/// Build the prompt text for a declaration.
fn prompt_text(d: &ParamDef) -> (r: String)
    ensures
        r@ == spec_prompt_text(d@),
{
    let prompt_chars = str_to_chars(d.prompt.as_str());
    let trimmed = trim_range(&prompt_chars, 0, prompt_chars.len());
    proof {
        assert(prompt_chars@.subrange(0, prompt_chars@.len() as int) =~= prompt_chars@);
    }
    let mut base: Vec<char>;
    if trimmed.len() == 0 {
        base = str_to_chars("Enter value for '");
        let mut name = str_to_chars(d.name.as_str());
        base.append(&mut name);
        let mut quote = str_to_chars("'");
        base.append(&mut quote);
    } else {
        base = prompt_chars;
    }
    match &d.default {
        Some(v) => {
            let mut open_mark = str_to_chars(" [default: ");
            base.append(&mut open_mark);
            let mut value = str_to_chars(v.as_str());
            base.append(&mut value);
            let mut close_mark = str_to_chars("]");
            base.append(&mut close_mark);
        },
        None => {
            if d.optional {
                let mut mark = str_to_chars(" [optional]");
                base.append(&mut mark);
            }
        },
    }
    chars_to_string(&base)
}

/// Plan the interactive prompts for a command: one request per placeholder
/// of the executable template that `have` does not already bind, in
/// template order.
pub fn plan_prompts(cmd: &CommandDef, have: &ArgumentMap) -> (r: Vec<PromptRequest>)
    ensures
        r.deep_view() == spec_prompt_plan(
            cmd@.params,
            spec_placeholders(cmd@.exec_template),
            have@,
        ),
{
    let names = extract_placeholders(cmd.exec_template.as_str());
    let ghost all = names.deep_view();
    let ghost params = cmd.params.deep_view();
    let ghost havem = have@;
    let mut out: Vec<PromptRequest> = Vec::new();
    let mut k: usize = 0;
    proof {
        assert(all.skip(0) =~= all);
        assert(out.deep_view() + spec_prompt_plan(params, all, havem) =~= spec_prompt_plan(
            params,
            all,
            havem,
        ));
    }
    while k < names.len()
        invariant
            all == names.deep_view(),
            params == cmd.params.deep_view(),
            havem == have@,
            k <= all.len(),
            spec_prompt_plan(params, all, havem) == out.deep_view() + spec_prompt_plan(
                params,
                all.skip(k as int),
                havem,
            ),
        decreases all.len() - k,
    {
        proof {
            assert(all.skip(k as int)[0] == all[k as int]);
            assert(all.skip(k as int).drop_first() =~= all.skip(k + 1 as int));
        }
        let name = &names[k];
        proof {
            assert(name@ == all[k as int]);
        }
        if !have.contains_key(name.as_str()) {
            let request = match find_param(&cmd.params, name.as_str()) {
                Some(p) => {
                    let prompt = prompt_text(p);
                    PromptRequest {
                        name: p.name.clone(),
                        prompt,
                        default: match &p.default {
                            Some(v) => Some(v.clone()),
                            None => None,
                        },
                        optional: p.optional,
                    }
                },
                None => {
                    let fallback = ParamDef {
                        name: name.clone(),
                        prompt: String::new(),
                        optional: false,
                        default: None,
                    };
                    let prompt = prompt_text(&fallback);
                    PromptRequest { name: fallback.name, prompt, default: None, optional: false }
                },
            };
            proof {
                assert(request@ == spec_request_for(params, all[k as int]));
            }
            let ghost pre = out.deep_view();
            out.push(request);
            proof {
                assert(out.deep_view() =~= pre.push(spec_request_for(params, all[k as int])));
                assert(pre + (seq![spec_request_for(params, all[k as int])] + spec_prompt_plan(
                    params,
                    all.skip(k + 1 as int),
                    havem,
                )) =~= out.deep_view() + spec_prompt_plan(params, all.skip(k + 1 as int), havem));
            }
        }
        k = k + 1;
    }
    proof {
        assert(all.skip(all.len() as int) =~= Seq::<Seq<char>>::empty());
        assert(out.deep_view() + Seq::<PromptRequestModel>::empty() =~= out.deep_view());
    }
    out
}

/// Record one prompt response: a non-empty value is always recorded, an
/// empty one only for an optional placeholder — a required placeholder
/// declined stays unresolved.
pub fn record_prompt_response(map: &mut ArgumentMap, name: String, optional: bool, value: String)
    ensures
        final(map)@ == (if value@.len() > 0 || optional {
            old(map)@.insert(name@, value@)
        } else {
            old(map)@
        }),
{
    if !value.as_str().is_empty() || optional {
        map.insert(name, value);
    }
}

proof fn lemma_resolve_list_preserves(
    params: Seq<ParamDefModel>,
    names: Seq<Seq<char>>,
    acc: Map<Seq<char>, Seq<char>>,
    name: Seq<char>,
)
    requires
        acc.dom().contains(name),
    ensures
        spec_resolve_list(params, names, acc).dom().contains(name),
        spec_resolve_list(params, names, acc)[name] == acc[name],
    decreases names.len(),
{
    if names.len() > 0 {
        let n0 = names[0];
        let acc2 = if acc.dom().contains(n0) {
            acc
        } else {
            match spec_resolved_value(params, n0) {
                Some(v) => acc.insert(n0, v),
                None => acc,
            }
        };
        lemma_resolve_list_preserves(params, names.drop_first(), acc2, name);
    }
}

proof fn lemma_resolve_list_resolves(
    params: Seq<ParamDefModel>,
    names: Seq<Seq<char>>,
    acc: Map<Seq<char>, Seq<char>>,
    name: Seq<char>,
    v: Seq<char>,
)
    requires
        names.contains(name),
        !acc.dom().contains(name),
        spec_resolved_value(params, name) == Some(v),
    ensures
        spec_resolve_list(params, names, acc).dom().contains(name),
        spec_resolve_list(params, names, acc)[name] == v,
    decreases names.len(),
{
    let n0 = names[0];
    if n0 == name {
        let acc2 = acc.insert(name, v);
        lemma_resolve_list_preserves(params, names.drop_first(), acc2, name);
    } else {
        let acc2 = if acc.dom().contains(n0) {
            acc
        } else {
            match spec_resolved_value(params, n0) {
                Some(w) => acc.insert(n0, w),
                None => acc,
            }
        };
        assert(names.drop_first().contains(name)) by {
            let i = choose|i: int| 0 <= i < names.len() && names[i] == name;
            assert(names.drop_first()[i - 1] == name);
        }
        lemma_resolve_list_resolves(params, names.drop_first(), acc2, name, v);
    }
}

proof fn lemma_resolve_list_absent(
    params: Seq<ParamDefModel>,
    names: Seq<Seq<char>>,
    acc: Map<Seq<char>, Seq<char>>,
    name: Seq<char>,
)
    requires
        !acc.dom().contains(name),
        spec_resolved_value(params, name) is None,
    ensures
        !spec_resolve_list(params, names, acc).dom().contains(name),
    decreases names.len(),
{
    if names.len() > 0 {
        let n0 = names[0];
        let acc2 = if acc.dom().contains(n0) {
            acc
        } else {
            match spec_resolved_value(params, n0) {
                Some(w) => acc.insert(n0, w),
                None => acc,
            }
        };
        lemma_resolve_list_absent(params, names.drop_first(), acc2, name);
    }
}

/// Override precedence: a binding handed in as an explicit override keeps
/// exactly its value in the resolved map, whatever the declarations say.
pub proof fn lemma_override_precedence(
    cmd: CommandDefModel,
    overrides: Map<Seq<char>, Seq<char>>,
    name: Seq<char>,
)
    requires
        overrides.dom().contains(name),
    ensures
        spec_substitute(cmd, overrides).dom().contains(name),
        spec_substitute(cmd, overrides)[name] == overrides[name],
{
    lemma_resolve_list_preserves(cmd.params, spec_placeholders(cmd.exec_template), overrides, name);
}

/// Default without override: a placeholder declared with a non-empty
/// default and not overridden resolves to that default.
pub proof fn lemma_default_applies(
    cmd: CommandDefModel,
    overrides: Map<Seq<char>, Seq<char>>,
    name: Seq<char>,
    d: Seq<char>,
)
    requires
        spec_placeholders(cmd.exec_template).contains(name),
        !overrides.dom().contains(name),
        match spec_find_param(cmd.params, name) {
            Some(p) => p.default == Some(d),
            None => false,
        },
        d.len() > 0,
    ensures
        spec_substitute(cmd, overrides).dom().contains(name),
        spec_substitute(cmd, overrides)[name] == d,
{
    lemma_resolve_list_resolves(
        cmd.params,
        spec_placeholders(cmd.exec_template),
        overrides,
        name,
        d,
    );
}

/// Optional missing resolves empty, not absent: a placeholder declared
/// optional, with no default and no override, resolves to the empty string
/// and is present in the map.
pub proof fn lemma_optional_resolves_empty(
    cmd: CommandDefModel,
    overrides: Map<Seq<char>, Seq<char>>,
    name: Seq<char>,
)
    requires
        spec_placeholders(cmd.exec_template).contains(name),
        !overrides.dom().contains(name),
        match spec_find_param(cmd.params, name) {
            Some(p) => p.optional && p.default is None,
            None => false,
        },
    ensures
        spec_substitute(cmd, overrides).dom().contains(name),
        spec_substitute(cmd, overrides)[name] == Seq::<char>::empty(),
{
    lemma_resolve_list_resolves(
        cmd.params,
        spec_placeholders(cmd.exec_template),
        overrides,
        name,
        Seq::empty(),
    );
}

/// Required missing stays unresolved: a placeholder that is required (not
/// optional, or undeclared) with no usable default and no override is
/// absent from the resolved map.
pub proof fn lemma_required_missing_unresolved(
    cmd: CommandDefModel,
    overrides: Map<Seq<char>, Seq<char>>,
    name: Seq<char>,
)
    requires
        !overrides.dom().contains(name),
        match spec_find_param(cmd.params, name) {
            Some(p) => !p.optional && (p.default is None || p.default == Some(
                Seq::<char>::empty(),
            )),
            None => true,
        },
    ensures
        !spec_substitute(cmd, overrides).dom().contains(name),
{
    lemma_resolve_list_absent(cmd.params, spec_placeholders(cmd.exec_template), overrides, name);
}

} // verus!
