//! The tool's own configuration: the default cluster name, kept once
//! globally and once per project, the local file overriding the global
//! one.  The values are passed in explicitly; reading and writing the
//! files is the caller's concern.

use vstd::prelude::*;

verus! {

/// The persisted tool configuration: at most a default cluster name.
#[derive(Clone, Debug)]
pub struct SbatchmanConfig {
    pub cluster_name: Option<String>,
}

impl Default for SbatchmanConfig {
    /// A fresh configuration names no cluster.
    fn default() -> (r: SbatchmanConfig)
        ensures
            r.cluster_name is None,
    {
        SbatchmanConfig { cluster_name: None }
    }
}

/// The cluster name two configuration layers agree on: the local
/// layer's name when it has one, else the global layer's.
pub open spec fn layered_cluster_name(
    global: SbatchmanConfig,
    local: SbatchmanConfig,
) -> Option<String> {
    match local.cluster_name {
        Some(n) => Some(n),
        None => global.cluster_name,
    }
}

/// Resolves the effective cluster name, the local configuration
/// overriding the global one; `None` when neither layer names one.
pub fn get_cluster_name(global: &SbatchmanConfig, local: &SbatchmanConfig) -> (r: Option<String>)
    ensures
        match layered_cluster_name(*global, *local) {
            Some(n) => r matches Some(x) && x@ == n@,
            None => r is None,
        },
{
    match &local.cluster_name {
        Some(n) => Some(n.clone()),
        None => match &global.cluster_name {
            Some(n) => Some(n.clone()),
            None => None,
        },
    }
}

impl SbatchmanConfig {
    /// Records `name` as this layer's cluster name.
    pub fn set_cluster_name(&mut self, name: &str)
        ensures
            final(self).cluster_name matches Some(n) && n@ == name@,
    {
        self.cluster_name = Some(String::from_str(name));
    }
}

} // verus!
