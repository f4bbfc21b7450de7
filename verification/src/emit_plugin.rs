//! A build-pipeline plugin that observes the compilation's assets after they
//! have been emitted into the virtual filesystem. Hooking it into the
//! pipeline host is the host's (unverified) concern; this module holds the
//! plugin's identity and options.

use vstd::prelude::*;

verus! {

/// Configuration for the emit plugin. It exposes no knobs; the empty struct
/// records that explicitly.
#[derive(Debug, PartialEq, Eq, Structural)]
pub struct EmitPluginOptions {}

/// The after-emit plugin itself.
#[derive(Debug)]
pub struct EmitPlugin {
    options: EmitPluginOptions,
}

impl EmitPlugin {
    /// The options this plugin was built with.
    pub closed spec fn options_view(&self) -> EmitPluginOptions {
        self.options
    }

    /// Builds the plugin around its options.
    pub fn new(options: EmitPluginOptions) -> (r: Self)
        ensures
            r.options_view() == options,
    {
        EmitPlugin { options }
    }

    /// The plugin's name, as the pipeline host reports it.
    pub fn name(&self) -> (r: &'static str)
        ensures
            r@ == "EmitPlugin"@,
    {
        "EmitPlugin"
    }
}

} // verus!
