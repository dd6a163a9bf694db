//! Template rendering: substitutes resolved argument values and read-only
//! context fields into a command's executable template, with one custom
//! operation that resolves a dynamic parameter by logical name. Literal
//! text outside placeholders passes through unchanged; the first offending
//! placeholder, read left to right, decides the error.

use vstd::prelude::*;
use crate::arguments::{overrides_view, spec_substitute, substitute_parameters};
use crate::models::{ArgumentMap, CommandDef, UserParams};
use crate::template::{chars_eq, spec_find_close, spec_raw_placeholders, spec_trim, trim_range};
use crate::text::{chars_to_string, str_eq, str_to_chars, tail_range};

verus! {

/// Mathematical value of a [`RenderError`].
pub ghost enum RenderErrorModel {
    MissingVariable(Seq<char>),
    UnknownDynamicKind(Seq<char>),
    DynamicLookupFailed { name: Seq<char>, cause: Seq<char> },
    TemplateSyntax(Seq<char>),
}

/// Why rendering a command failed: a placeholder with no binding, a
/// dynamic placeholder of no known kind, a dynamic lookup that produced no
/// value, or malformed placeholder syntax. Terminal for one invocation,
/// never fatal to the process.
#[derive(Debug)]
pub enum RenderError {
    /// No binding for this placeholder identifier.
    MissingVariable(String),
    /// A placeholder tagged dynamic matches no known provider kind.
    UnknownDynamicKind(String),
    /// The dynamic provider produced no value for this name.
    DynamicLookupFailed { name: String, cause: String },
    /// Malformed placeholder syntax in the executable template.
    TemplateSyntax(String),
}

impl View for RenderError {
    type V = RenderErrorModel;

    open spec fn view(&self) -> RenderErrorModel {
        match self {
            RenderError::MissingVariable(n) => RenderErrorModel::MissingVariable(n@),
            RenderError::UnknownDynamicKind(n) => RenderErrorModel::UnknownDynamicKind(n@),
            RenderError::DynamicLookupFailed { name, cause } => (
            RenderErrorModel::DynamicLookupFailed { name: name@, cause: cause@ }),
            RenderError::TemplateSyntax(d) => RenderErrorModel::TemplateSyntax(d@),
        }
    }
}

/// The closed set of dynamic-parameter kinds the renderer knows: today the
/// Kubernetes namespace lookup alone.
#[derive(Clone, Copy, Debug, PartialEq, Eq)]
pub enum DynamicKind {
    Namespace,
}

/// The kind a dynamic placeholder's logical name denotes, if any.
pub open spec fn spec_dynamic_kind(name: Seq<char>) -> Option<DynamicKind> {
    if name == "namespace"@ {
        Some(DynamicKind::Namespace)
    } else {
        None
    }
}

/// Classify a dynamic placeholder's logical name into a known provider
/// kind.
pub fn classify_dynamic_param(name: &str) -> (r: Option<DynamicKind>)
    ensures
        r == spec_dynamic_kind(name@),
{
    if str_eq(name, "namespace") {
        Some(DynamicKind::Namespace)
    } else {
        None
    }
}

/// Index of the first `|` in `s`, or `-1` if there is none.
pub open spec fn pipe_index_of(s: Seq<char>) -> int
    decreases s.len(),
{
    if s.len() == 0 {
        -1
    } else if s[0] == '|' {
        0
    } else {
        let r = pipe_index_of(s.drop_first());
        if r == -1 {
            -1
        } else {
            r + 1
        }
    }
}

proof fn lemma_pipe_index_of_props(s: Seq<char>)
    ensures
        -1 <= pipe_index_of(s) < s.len(),
        pipe_index_of(s) >= 0 ==> s[pipe_index_of(s)] == '|',
        pipe_index_of(s) >= 0 ==> forall|j: int| 0 <= j < pipe_index_of(s) ==> s[j] != '|',
        pipe_index_of(s) == -1 ==> forall|j: int| 0 <= j < s.len() ==> s[j] != '|',
    decreases s.len(),
{
    if s.len() > 0 && s[0] != '|' {
        lemma_pipe_index_of_props(s.drop_first());
        assert(forall|j: int| 1 <= j < s.len() ==> s[j] == s.drop_first()[j - 1]);
    }
}

/// `s` without one pair of surrounding double quotes, if it has one.
pub open spec fn spec_strip_quotes(s: Seq<char>) -> Seq<char> {
    if s.len() >= 2 && s[0] == '"' && s.last() == '"' {
        s.subrange(1, s.len() - 1)
    } else {
        s
    }
}

/// What one placeholder renders to. `content` is the trimmed text between
/// the braces; `args` the resolved argument map, `ctx` the active group's
/// context fields, `dyn_vals` the values the dynamic provider supplied.
pub open spec fn spec_eval_placeholder(
    content: Seq<char>,
    args: Map<Seq<char>, Seq<char>>,
    ctx: Map<Seq<char>, Seq<char>>,
    dyn_vals: Map<Seq<char>, Seq<char>>,
) -> Result<Seq<char>, RenderErrorModel> {
    let p = pipe_index_of(content);
    if p >= 0 {
        let name = spec_strip_quotes(spec_trim(content.take(p)));
        let filter = spec_trim(content.skip(p + 1));
        if filter != "i_param"@ {
            Err(RenderErrorModel::TemplateSyntax(filter))
        } else if args.dom().contains(name) {
            Ok(args[name])
        } else if spec_dynamic_kind(name) is Some {
            if dyn_vals.dom().contains(name) {
                Ok(dyn_vals[name])
            } else {
                Err(
                    RenderErrorModel::DynamicLookupFailed {
                        name: name,
                        cause: "no value obtained from the dynamic provider"@,
                    },
                )
            }
        } else {
            Err(RenderErrorModel::UnknownDynamicKind(name))
        }
    } else if content.len() >= 7 && content.take(7) == "params."@ {
        let field = content.skip(7);
        if ctx.dom().contains(field) {
            Ok(ctx[field])
        } else {
            Err(RenderErrorModel::MissingVariable(content))
        }
    } else {
        if args.dom().contains(content) {
            Ok(args[content])
        } else {
            Err(RenderErrorModel::MissingVariable(content))
        }
    }
}

/// What a template renders to: literal text passes through, each
/// `{{ ... }}` placeholder is replaced by what it evaluates to, and the
/// first failure, read left to right, is the result. An unclosed `{{` is a
/// syntax error.
pub open spec fn spec_render(
    s: Seq<char>,
    args: Map<Seq<char>, Seq<char>>,
    ctx: Map<Seq<char>, Seq<char>>,
    dyn_vals: Map<Seq<char>, Seq<char>>,
) -> Result<Seq<char>, RenderErrorModel>
    decreases s.len(),
{
    if s.len() < 2 {
        Ok(s)
    } else if s[0] == '{' && s[1] == '{' {
        let c = spec_find_close(s, 2);
        if c < 2 || c + 2 > s.len() {
            Err(RenderErrorModel::TemplateSyntax("unclosed placeholder"@))
        } else {
            match spec_eval_placeholder(spec_trim(s.subrange(2, c)), args, ctx, dyn_vals) {
                Err(e) => Err(e),
                Ok(v) => match spec_render(s.skip(c + 2), args, ctx, dyn_vals) {
                    Err(e) => Err(e),
                    Ok(r) => Ok(v + r),
                },
            }
        }
    } else {
        match spec_render(s.drop_first(), args, ctx, dyn_vals) {
            Err(e) => Err(e),
            Ok(r) => Ok(seq![s[0]] + r),
        }
    }
}

/// Index of the first `|` in `v`, if any.
fn find_pipe(v: &Vec<char>) -> (r: Option<usize>)
    ensures
        match r {
            Some(i) => pipe_index_of(v@) == i && i < v@.len(),
            None => pipe_index_of(v@) == -1,
        },
{
    let mut i: usize = 0;
    while i < v.len()
        invariant
            i <= v@.len(),
            forall|j: int| 0 <= j < i ==> v@[j] != '|',
        decreases v@.len() - i,
    {
        if v[i] == '|' {
            proof {
                lemma_pipe_index_of_props(v@);
            }
            return Some(i);
        }
        i = i + 1;
    }
    proof {
        lemma_pipe_index_of_props(v@);
    }
    None
}

/// `v` without one pair of surrounding double quotes, if it has one.
fn strip_quotes(v: Vec<char>) -> (r: Vec<char>)
    ensures
        r@ == spec_strip_quotes(v@),
{
    let n = v.len();
    if n >= 2 && v[0] == '"' && v[n - 1] == '"' {
        let mut out: Vec<char> = Vec::new();
        let mut i: usize = 1;
        while i < n - 1
            invariant
                n == v@.len(),
                n >= 2,
                1 <= i <= n - 1,
                out@ =~= v@.subrange(1, i as int),
            decreases n - i,
        {
            out.push(v[i]);
            proof {
                assert(out@ =~= v@.subrange(1, i + 1 as int));
            }
            i = i + 1;
        }
        out
    } else {
        v
    }
}

/// Whether `v` starts with the characters of `prefix`.
fn starts_with_chars(v: &Vec<char>, prefix: &Vec<char>) -> (r: bool)
    ensures
        r == (v@.len() >= prefix@.len() && v@.take(prefix@.len() as int) == prefix@),
{
    let m = prefix.len();
    if v.len() < m {
        return false;
    }
    let mut i: usize = 0;
    while i < m
        invariant
            m == prefix@.len(),
            m <= v@.len(),
            i <= m,
            forall|j: int| 0 <= j < i ==> v@[j] == prefix@[j],
        decreases m - i,
    {
        if v[i] != prefix[i] {
            proof {
                assert(v@.take(m as int)[i as int] != prefix@[i as int]);
            }
            return false;
        }
        i = i + 1;
    }
    proof {
        assert(v@.take(m as int) =~= prefix@);
    }
    true
}

/// Evaluate one placeholder against the argument map, the context fields
/// and the dynamic values.
fn eval_placeholder(
    content: &Vec<char>,
    params: &UserParams,
    args: &ArgumentMap,
    dyn_vals: &ArgumentMap,
) -> (r: Result<Vec<char>, RenderError>)
    ensures
        match (r, spec_eval_placeholder(content@, args@, params@, dyn_vals@)) {
            (Ok(v), Ok(w)) => v@ == w,
            (Err(e), Err(me)) => e@ == me,
            _ => false,
        },
{
    match find_pipe(content) {
        Some(p) => {
            let cl = content.len();
            let raw_name = trim_range(content, 0, p);
            proof {
                assert(content@.subrange(0, p as int) =~= content@.take(p as int));
            }
            let name = strip_quotes(raw_name);
            let filter = trim_range(content, p + 1, cl);
            proof {
                assert(content@.subrange(p + 1 as int, content@.len() as int) =~= content@.skip(
                    p + 1 as int,
                ));
            }
            let filter_s = chars_to_string(&filter);
            if !str_eq(filter_s.as_str(), "i_param") {
                Err(RenderError::TemplateSyntax(filter_s))
            } else {
                let name_s = chars_to_string(&name);
                match args.get(name_s.as_str()) {
                    Some(v) => Ok(str_to_chars(v.as_str())),
                    None => {
                        match classify_dynamic_param(name_s.as_str()) {
                            Some(_) => match dyn_vals.get(name_s.as_str()) {
                                Some(v) => Ok(str_to_chars(v.as_str())),
                                None => Err(
                                    RenderError::DynamicLookupFailed {
                                        name: name_s,
                                        cause: "no value obtained from the dynamic provider".to_owned(),
                                    },
                                ),
                            },
                            None => Err(RenderError::UnknownDynamicKind(name_s)),
                        }
                    },
                }
            }
        },
        None => {
            let prefix = str_to_chars("params.");
            proof {
                reveal_strlit("params.");
                assert(prefix@.len() == 7);
            }
            if starts_with_chars(content, &prefix) {
                let field = tail_range(content, 7);
                let field_s = chars_to_string(&field);
                match params.fields.get(field_s.as_str()) {
                    Some(v) => Ok(str_to_chars(v.as_str())),
                    None => Err(RenderError::MissingVariable(chars_to_string(content))),
                }
            } else {
                let content_s = chars_to_string(content);
                match args.get(content_s.as_str()) {
                    Some(v) => Ok(str_to_chars(v.as_str())),
                    None => Err(RenderError::MissingVariable(content_s)),
                }
            }
        },
    }
}

proof fn lemma_render_step_literal(
    s: Seq<char>,
    i: int,
    args: Map<Seq<char>, Seq<char>>,
    ctx: Map<Seq<char>, Seq<char>>,
    dyn_vals: Map<Seq<char>, Seq<char>>,
)
    requires
        0 <= i < s.len(),
        !(i + 1 < s.len() && s[i] == '{' && s[i + 1] == '{'),
    ensures
        match spec_render(s.skip(i + 1), args, ctx, dyn_vals) {
            Ok(v) => spec_render(s.skip(i), args, ctx, dyn_vals) == Ok::<Seq<char>, RenderErrorModel>(seq![s[i]] + v),
            Err(e) => spec_render(s.skip(i), args, ctx, dyn_vals) == Err::<Seq<char>, RenderErrorModel>(e),
        },
{
    let t = s.skip(i);
    assert(t[0] == s[i]);
    if t.len() < 2 {
        assert(i + 1 == s.len());
        assert(s.skip(i + 1) =~= Seq::<char>::empty());
        assert(spec_render(s.skip(i + 1), args, ctx, dyn_vals) == Ok::<Seq<char>, RenderErrorModel>(Seq::<char>::empty()));
        assert(t =~= seq![s[i]] + Seq::<char>::empty());
    } else {
        assert(t[1] == s[i + 1]);
        assert(!(t[0] == '{' && t[1] == '{'));
        assert(t.drop_first() =~= s.skip(i + 1));
    }
}

proof fn lemma_render_step_noclose(
    s: Seq<char>,
    i: int,
    args: Map<Seq<char>, Seq<char>>,
    ctx: Map<Seq<char>, Seq<char>>,
    dyn_vals: Map<Seq<char>, Seq<char>>,
)
    requires
        0 <= i,
        i + 1 < s.len(),
        s[i] == '{',
        s[i + 1] == '{',
        spec_find_close(s, i + 2) == -1,
    ensures
        spec_render(s.skip(i), args, ctx, dyn_vals) == Result::<
            Seq<char>,
            RenderErrorModel,
        >::Err(RenderErrorModel::TemplateSyntax("unclosed placeholder"@)),
{
    let t = s.skip(i);
    assert(t[0] == s[i]);
    assert(t[1] == s[i + 1]);
    crate::template::lemma_find_close_shift(s, i, i + 2);
    assert(spec_find_close(t, 2) == -1);
}

proof fn lemma_render_step_open(
    s: Seq<char>,
    i: int,
    j: int,
    args: Map<Seq<char>, Seq<char>>,
    ctx: Map<Seq<char>, Seq<char>>,
    dyn_vals: Map<Seq<char>, Seq<char>>,
)
    requires
        0 <= i,
        i + 1 < s.len(),
        s[i] == '{',
        s[i + 1] == '{',
        spec_find_close(s, i + 2) == j,
        i + 2 <= j,
        j + 2 <= s.len(),
    ensures
        spec_render(s.skip(i), args, ctx, dyn_vals) == (match spec_eval_placeholder(
            spec_trim(s.subrange(i + 2, j)),
            args,
            ctx,
            dyn_vals,
        ) {
            Err(e) => Err(e),
            Ok(v) => match spec_render(s.skip(j + 2), args, ctx, dyn_vals) {
                Err(e) => Err(e),
                Ok(r) => Ok(v + r),
            },
        }),
{
    let t = s.skip(i);
    assert(t[0] == s[i]);
    assert(t[1] == s[i + 1]);
    crate::template::lemma_find_close_shift(s, i, i + 2);
    assert(spec_find_close(t, 2) == j - i);
    assert(t.subrange(2, j - i) =~= s.subrange(i + 2, j));
    assert(t.skip(j - i + 2) =~= s.skip(j + 2));
}

/// Render a command's executable template against the resolved argument
/// map, the active group's context fields and the values the dynamic
/// provider supplied. Literal text passes through unchanged; the first
/// offending placeholder decides the error.
pub fn render_cmd(
    cmd: &CommandDef,
    params: &UserParams,
    args: &ArgumentMap,
    dynamic_values: &ArgumentMap,
) -> (r: Result<String, RenderError>)
    ensures
        match (r, spec_render(cmd@.exec_template, args@, params@, dynamic_values@)) {
            (Ok(s), Ok(v)) => s@ == v,
            (Err(e), Err(me)) => e@ == me,
            _ => false,
        },
{
    let chars = str_to_chars(cmd.exec_template.as_str());
    let ghost whole = chars@;
    let ghost argsm = args@;
    let ghost ctxm = params@;
    let ghost dynsm = dynamic_values@;
    let n = chars.len();
    let mut out: Vec<char> = Vec::new();
    let mut i: usize = 0;
    proof {
        assert(whole.skip(0) =~= whole);
        if spec_render(whole, argsm, ctxm, dynsm) is Ok {
            assert(Seq::<char>::empty() + spec_render(whole, argsm, ctxm, dynsm)->Ok_0
                =~= spec_render(whole, argsm, ctxm, dynsm)->Ok_0);
        }
    }
    while i < n
        invariant
            n == whole.len(),
            whole == chars@,
            whole == cmd@.exec_template,
            argsm == args@,
            ctxm == params@,
            dynsm == dynamic_values@,
            i <= n,
            match spec_render(whole.skip(i as int), argsm, ctxm, dynsm) {
                Ok(v) => spec_render(whole, argsm, ctxm, dynsm) == Ok::<Seq<char>, RenderErrorModel>(out@ + v),
                Err(e) => spec_render(whole, argsm, ctxm, dynsm) == Err::<Seq<char>, RenderErrorModel>(e),
            },
        decreases n - i,
    {
        if i + 1 < n && chars[i] == '{' && chars[i + 1] == '{' {
            match crate::template::find_close(&chars, i + 2) {
                Some(j) => {
                    proof {
                        lemma_render_step_open(whole, i as int, j as int, argsm, ctxm, dynsm);
                    }
                    let content = trim_range(&chars, i + 2, j);
                    match eval_placeholder(&content, params, args, dynamic_values) {
                        Ok(mut v) => {
                            let ghost pre = out@;
                            let ghost vv = v@;
                            out.append(&mut v);
                            proof {
                                if spec_render(whole.skip(j + 2 as int), argsm, ctxm, dynsm)
                                    is Ok {
                                    let rest = spec_render(
                                        whole.skip(j + 2 as int),
                                        argsm,
                                        ctxm,
                                        dynsm,
                                    )->Ok_0;
                                    assert(pre + (vv + rest) =~= (pre + vv) + rest);
                                }
                            }
                            i = j + 2;
                        },
                        Err(e) => {
                            return Err(e);
                        },
                    }
                },
                None => {
                    proof {
                        lemma_render_step_noclose(whole, i as int, argsm, ctxm, dynsm);
                    }
                    return Err(
                        RenderError::TemplateSyntax(
                            "unclosed placeholder".to_owned(),
                        ),
                    );
                },
            }
        } else {
            proof {
                lemma_render_step_literal(whole, i as int, argsm, ctxm, dynsm);
            }
            let ghost pre = out@;
            out.push(chars[i]);
            proof {
                if spec_render(whole.skip(i + 1 as int), argsm, ctxm, dynsm) is Ok {
                    let rest = spec_render(whole.skip(i + 1 as int), argsm, ctxm, dynsm)->Ok_0;
                    assert(pre + (seq![whole[i as int]] + rest) =~= out@ + rest);
                }
            }
            i = i + 1;
        }
    }
    proof {
        assert(whole.skip(n as int) =~= Seq::<char>::empty());
        assert(out@ + Seq::<char>::empty() =~= out@);
    }
    Ok(chars_to_string(&out))
}

/// Resolve a command's parameters and render its executable template in
/// one step: the single entry point that turns a catalog command into the
/// literal string to execute.
pub fn resolve_and_render(
    cmd: &CommandDef,
    params: &UserParams,
    overrides: Option<&ArgumentMap>,
    dynamic_values: &ArgumentMap,
) -> (r: Result<String, RenderError>)
    ensures
        match (r, spec_render(
            cmd@.exec_template,
            spec_substitute(cmd@, overrides_view(overrides)),
            params@,
            dynamic_values@,
        )) {
            (Ok(s), Ok(v)) => s@ == v,
            (Err(e), Err(me)) => e@ == me,
            _ => false,
        },
{
    let args = substitute_parameters(cmd, overrides);
    render_cmd(cmd, params, &args, dynamic_values)
}

/// The dynamic logical names the provider must be asked for before
/// rendering: each well-formed dynamic placeholder of a known kind whose
/// name the argument map does not already bind, first occurrences only.
pub open spec fn spec_dynamic_needed(
    raw: Seq<Seq<char>>,
    args: Map<Seq<char>, Seq<char>>,
) -> Seq<Seq<char>>
    decreases raw.len(),
{
    if raw.len() == 0 {
        Seq::empty()
    } else {
        let rest = spec_dynamic_needed(raw.drop_last(), args);
        let content = raw.last();
        let p = pipe_index_of(content);
        if p >= 0 && spec_trim(content.skip(p + 1)) == "i_param"@ {
            let name = spec_strip_quotes(spec_trim(content.take(p)));
            if !args.dom().contains(name) && spec_dynamic_kind(name) is Some && !rest.contains(
                name,
            ) {
                rest.push(name)
            } else {
                rest
            }
        } else {
            rest
        }
    }
}

/// The dynamic lookups a template requires under the given argument map.
pub open spec fn spec_dynamic_requests(s: Seq<char>, args: Map<Seq<char>, Seq<char>>) -> Seq<
    Seq<char>,
> {
    spec_dynamic_needed(spec_raw_placeholders(s), args)
}

/// List the dynamic logical names that must be resolved by the provider
/// before this command renders: dynamic placeholders of a known kind not
/// already bound in `args`. A placeholder of unknown kind is not listed —
/// rendering it fails without consulting any provider.
pub fn dynamic_requests(cmd: &CommandDef, args: &ArgumentMap) -> (r: Vec<String>)
    ensures
        r.deep_view() == spec_dynamic_requests(cmd@.exec_template, args@),
{
    let chars = str_to_chars(cmd.exec_template.as_str());
    let ghost whole = chars@;
    let ghost argsm = args@;
    let n = chars.len();
    let ipl = str_to_chars("i_param");
    let mut found: Vec<Vec<char>> = Vec::new();
    let ghost mut raws: Seq<Seq<char>> = Seq::empty();
    proof {
        assert(raws + spec_raw_placeholders(whole.skip(0)) =~= spec_raw_placeholders(
            whole.skip(0),
        ));
        assert(whole.skip(0) =~= whole);
    }
    let mut i: usize = 0;
    while i < n
        invariant
            n == whole.len(),
            whole == chars@,
            argsm == args@,
            ipl@ == "i_param"@,
            i <= n,
            spec_raw_placeholders(whole) == raws + spec_raw_placeholders(whole.skip(i as int)),
            found.deep_view() == spec_dynamic_needed(raws, argsm),
        decreases n - i,
    {
        if i + 1 < n && chars[i] == '{' && chars[i + 1] == '{' {
            match crate::template::find_close(&chars, i + 2) {
                Some(j) => {
                    let content = trim_range(&chars, i + 2, j);
                    let ghost prev = raws;
                    let ghost t = spec_trim(whole.subrange(i + 2 as int, j as int));
                    proof {
                        crate::template::lemma_raw_placeholders_step_open(
                            whole,
                            i as int,
                            j as int,
                        );
                        assert(prev + (seq![t] + spec_raw_placeholders(whole.skip(j + 2 as int)))
                            =~= prev.push(t) + spec_raw_placeholders(whole.skip(j + 2 as int)));
                        raws = prev.push(t);
                        assert(raws.drop_last() =~= prev);
                    }
                    match find_pipe(&content) {
                        Some(p) => {
                            let cl = content.len();
                            let filter = trim_range(&content, p + 1, cl);
                            proof {
                                assert(content@.subrange(p + 1 as int, content@.len() as int)
                                    =~= content@.skip(p + 1 as int));
                            }
                            if chars_eq(&filter, &ipl) {
                                let raw_name = trim_range(&content, 0, p);
                                proof {
                                    assert(content@.subrange(0, p as int) =~= content@.take(
                                        p as int,
                                    ));
                                }
                                let name = strip_quotes(raw_name);
                                let name_s = chars_to_string(&name);
                                if !args.contains_key(name_s.as_str())
                                    && classify_dynamic_param(name_s.as_str()).is_some() {
                                    if !crate::template::list_contains(&found, &name) {
                                        found.push(name);
                                        proof {
                                            assert(found@[found@.len() - 1].deep_view() =~= name_s@);
                                            assert(found.deep_view() =~= spec_dynamic_needed(
                                                prev,
                                                argsm,
                                            ).push(name_s@));
                                        }
                                    }
                                }
                            }
                        },
                        None => {},
                    }
                    i = j + 2;
                },
                None => {
                    proof {
                        crate::template::lemma_raw_placeholders_step_noclose(whole, i as int);
                        assert(raws + spec_raw_placeholders(whole.skip(i as int)) =~= raws
                            + spec_raw_placeholders(whole.skip(n as int)));
                    }
                    i = n;
                },
            }
        } else {
            proof {
                crate::template::lemma_raw_placeholders_step_literal(whole, i as int);
            }
            i = i + 1;
        }
    }
    proof {
        assert(whole.skip(n as int) =~= Seq::<char>::empty());
        assert(raws + spec_raw_placeholders(whole.skip(n as int)) =~= raws);
        assert(raws == spec_raw_placeholders(whole));
    }
    let mut r: Vec<String> = Vec::new();
    let mut k: usize = 0;
    while k < found.len()
        invariant
            k <= found@.len(),
            r@.len() == k,
            forall|j: int| 0 <= j < k ==> r@[j]@ == found.deep_view()[j],
        decreases found@.len() - k,
    {
        proof {
            assert(found.deep_view()[k as int] =~= found@[k as int]@);
        }
        r.push(chars_to_string(&found[k]));
        k = k + 1;
    }
    proof {
        assert(r.deep_view() =~= found.deep_view());
    }
    r
}

proof fn lemma_unbound_raw_placeholder_fails(
    s: Seq<char>,
    args: Map<Seq<char>, Seq<char>>,
    ctx: Map<Seq<char>, Seq<char>>,
    dyn_vals: Map<Seq<char>, Seq<char>>,
    name: Seq<char>,
)
    requires
        spec_raw_placeholders(s).contains(name),
        !name.contains('|'),
        !(name.len() >= 7 && name.take(7) == "params."@),
        !args.dom().contains(name),
    ensures
        spec_render(s, args, ctx, dyn_vals) is Err,
    decreases s.len(),
{
    if s.len() < 2 {
        assert(false);
    } else if s[0] == '{' && s[1] == '{' {
        let c = spec_find_close(s, 2);
        if c < 2 || c + 2 > s.len() {
            assert(false);
        } else {
            let t = spec_trim(s.subrange(2, c));
            let raw = spec_raw_placeholders(s);
            if t == name {
                lemma_pipe_index_of_props(name);
                assert(pipe_index_of(name) == -1);
                assert(spec_eval_placeholder(name, args, ctx, dyn_vals) == Err::<
                    Seq<char>,
                    RenderErrorModel,
                >(RenderErrorModel::MissingVariable(name)));
            } else {
                let i = choose|i: int| 0 <= i < raw.len() && raw[i] == name;
                assert(i > 0);
                assert(spec_raw_placeholders(s.skip(c + 2))[i - 1] == name);
                lemma_unbound_raw_placeholder_fails(s.skip(c + 2), args, ctx, dyn_vals, name);
            }
        }
    } else {
        lemma_unbound_raw_placeholder_fails(s.drop_first(), args, ctx, dyn_vals, name);
    }
}

/// Required missing fails rendering: a simple placeholder of the template
/// that is not a context lookup and that the argument map does not bind
/// makes rendering fail — the resolver may return an incomplete map, and
/// the renderer is where that surfaces.
pub proof fn lemma_unbound_placeholder_fails_render(
    s: Seq<char>,
    args: Map<Seq<char>, Seq<char>>,
    ctx: Map<Seq<char>, Seq<char>>,
    dyn_vals: Map<Seq<char>, Seq<char>>,
    name: Seq<char>,
)
    requires
        crate::template::spec_placeholders(s).contains(name),
        !(name.len() >= 7 && name.take(7) == "params."@),
        !args.dom().contains(name),
    ensures
        spec_render(s, args, ctx, dyn_vals) is Err,
{
    crate::template::lemma_dedup_contains(
        crate::template::spec_simple_only(spec_raw_placeholders(s)),
        name,
    );
    crate::template::lemma_simple_only_contains(spec_raw_placeholders(s), name);
    lemma_unbound_raw_placeholder_fails(s, args, ctx, dyn_vals, name);
}

/// Unknown dynamic placeholder kinds consult no provider: every name the
/// dynamic request list carries is of a known kind, so a placeholder of
/// unknown kind can only fail rendering with its typed error, never reach
/// an external process.
pub proof fn lemma_dynamic_requests_only_known_kinds(
    raw: Seq<Seq<char>>,
    args: Map<Seq<char>, Seq<char>>,
)
    ensures
        forall|i: int|
            0 <= i < spec_dynamic_needed(raw, args).len() ==> spec_dynamic_kind(
                #[trigger] spec_dynamic_needed(raw, args)[i],
            ) is Some,
    decreases raw.len(),
{
    if raw.len() > 0 {
        lemma_dynamic_requests_only_known_kinds(raw.drop_last(), args);
    }
}

/// What the dynamic-parameter operation decides for a logical name before
/// any provider is consulted.
#[derive(Debug)]
pub enum FilterOutcome {
    /// The argument map already binds the name: use this value.
    Resolved(String),
    /// The name denotes this known kind: ask its provider.
    NeedsProvider(DynamicKind),
}

/// The dynamic-parameter operation as the template engine sees it: closed
/// over the resolved argument overrides, it answers from them first and
/// only then turns to the provider kinds.
pub struct ParamFilter {
    arg_overrides: ArgumentMap,
}

impl View for ParamFilter {
    type V = Map<Seq<char>, Seq<char>>;

    closed spec fn view(&self) -> Map<Seq<char>, Seq<char>> {
        self.arg_overrides@
    }
}

impl ParamFilter {
    /// A filter closed over the given argument overrides.
    pub fn new(args: &ArgumentMap) -> (r: ParamFilter)
        ensures
            r@ == args@,
    {
        ParamFilter { arg_overrides: args.clone() }
    }

    /// Decide a dynamic placeholder's logical name: an override wins, a
    /// known kind is referred to its provider, an unknown kind is a typed
    /// error and consults nothing.
    pub fn filter(&self, value: &str) -> (r: Result<FilterOutcome, RenderError>)
        ensures
            match r {
                Ok(FilterOutcome::Resolved(v)) => self@.dom().contains(value@) && v@
                    == self@[value@],
                Ok(FilterOutcome::NeedsProvider(k)) => !self@.dom().contains(value@)
                    && spec_dynamic_kind(value@) == Some(k),
                Err(e) => !self@.dom().contains(value@) && spec_dynamic_kind(value@) is None && e@
                    == RenderErrorModel::UnknownDynamicKind(value@),
            },
    {
        match self.arg_overrides.get(value) {
            Some(v) => Ok(FilterOutcome::Resolved(v.clone())),
            None => match classify_dynamic_param(value) {
                Some(k) => Ok(FilterOutcome::NeedsProvider(k)),
                None => Err(RenderError::UnknownDynamicKind(value.to_owned())),
            },
        }
    }
}

/// The human-readable text of a render error.
pub open spec fn spec_error_message(e: RenderErrorModel) -> Seq<char> {
    match e {
        RenderErrorModel::MissingVariable(n) => "missing variable: "@ + n,
        RenderErrorModel::UnknownDynamicKind(n) => "unknown dynamic parameter: "@ + n,
        RenderErrorModel::DynamicLookupFailed { name, cause } => "dynamic lookup failed for "@
            + name + ": "@ + cause,
        RenderErrorModel::TemplateSyntax(d) => "template syntax error: "@ + d,
    }
}

impl RenderError {
    /// The error as one line of text, naming the offending placeholder.
    pub fn message(&self) -> (r: String)
        ensures
            r@ == spec_error_message(self@),
    {
        let mut out: Vec<char>;
        match self {
            RenderError::MissingVariable(n) => {
                out = str_to_chars("missing variable: ");
                let mut tail = str_to_chars(n.as_str());
                out.append(&mut tail);
            },
            RenderError::UnknownDynamicKind(n) => {
                out = str_to_chars("unknown dynamic parameter: ");
                let mut tail = str_to_chars(n.as_str());
                out.append(&mut tail);
            },
            RenderError::DynamicLookupFailed { name, cause } => {
                out = str_to_chars("dynamic lookup failed for ");
                let mut mid = str_to_chars(name.as_str());
                out.append(&mut mid);
                let mut sep = str_to_chars(": ");
                out.append(&mut sep);
                let mut tail = str_to_chars(cause.as_str());
                out.append(&mut tail);
            },
            RenderError::TemplateSyntax(d) => {
                out = str_to_chars("template syntax error: ");
                let mut tail = str_to_chars(d.as_str());
                out.append(&mut tail);
            },
        }
        chars_to_string(&out)
    }
}

} // verus!
