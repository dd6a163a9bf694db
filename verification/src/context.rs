//! The runtime context: built once at startup from the configuration's
//! defaults and the last-used values the caller loaded, then threaded as a
//! plain value. Persisting last-used values to disk is the caller's side
//! effect, not the core's.

use vstd::prelude::*;
use crate::models::{Config, ConfigModel, GlobalContext};

verus! {

/// The group a fresh context starts with when no last-used value exists:
/// the configured default, if any.
pub open spec fn spec_default_group(c: ConfigModel) -> Option<Seq<char>> {
    match c.defaults {
        Some(d) => d,
        None => None,
    }
}

/// Create the global context from the configuration's defaults and the
/// last-used values the caller loaded: a last-used value wins over the
/// configured default.
pub fn create_context(
    cfg: &Config,
    last_group: Option<String>,
    last_namespace: Option<String>,
    last_user: Option<String>,
) -> (r: GlobalContext)
    ensures
        r.current_group.deep_view() == (match last_group {
            Some(g) => Some(g@),
            None => spec_default_group(cfg@),
        }),
        r.current_namespace.deep_view() == last_namespace.deep_view(),
        r.current_user.deep_view() == last_user.deep_view(),
{
    let current_group = match last_group {
        Some(g) => Some(g),
        None => match &cfg.defaults {
            Some(d) => match &d.group {
                Some(g) => Some(g.clone()),
                None => None,
            },
            None => None,
        },
    };
    GlobalContext { current_group, current_namespace: last_namespace, current_user: last_user }
}

/// Switch the current group. Persisting the choice is the caller's side
/// effect.
pub fn switch_subscription(ctx: &mut GlobalContext, name: &str)
    ensures
        final(ctx).current_group.deep_view() == Some(name@),
        final(ctx).current_namespace == old(ctx).current_namespace,
        final(ctx).current_user == old(ctx).current_user,
{
    ctx.current_group = Some(name.to_owned());
}

} // verus!
