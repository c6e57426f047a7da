//! Server settings received from the client via `initializationOptions`.

use vstd::prelude::*;

verus! {

/// Server settings received from the client via initializationOptions.
#[derive(Clone, Copy, Debug, PartialEq, Eq, Structural)]
pub struct Settings {
    /// Allow the upstream-ontologist to make network requests when guessing
    /// upstream metadata values. Defaults to `false`.
    pub upstream_ontologist_net_access: bool,
    /// Surface lintian-brush issues that are suppressed by a lintian
    /// override as faded, informational diagnostics. Defaults to `true`.
    pub show_overridden_issues: bool,
}

impl Default for Settings {
    fn default() -> (r: Self)
        ensures
            !r.upstream_ontologist_net_access,
            r.show_overridden_issues,
    {
        Settings { upstream_ontologist_net_access: false, show_overridden_issues: true }
    }
}

} // verus!
