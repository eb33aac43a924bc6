//! What the rule looks for and what it recommends instead.

use vstd::prelude::*;
use vstd::slice::slice_to_vec;
use vstd::string::StringSliceAdditionalSpecFns;

verus! {

/// How a diagnostic tells the user what to do.
#[derive(Clone, Copy, Debug, PartialEq, Eq, Structural)]
pub enum Strategy {
    /// An explanatory note at the invocation, and no edit.
    NoteOnly,
    /// A suggested edit that swaps the construct's name.
    AutoFix,
}

/// The rule's configuration: the strategy and the pair of names to swap.
#[derive(Clone, Debug, PartialEq, Eq)]
pub struct RuleConfig {
    pub strategy: Strategy,
    /// Canonical name of the construct to flag.
    pub target: Vec<u8>,
    /// Name of the construct to recommend.
    pub replacement: Vec<u8>,
}

/// A configuration as plain values.
pub struct ConfigView {
    pub strategy: Strategy,
    pub target: Seq<u8>,
    pub replacement: Seq<u8>,
}

impl View for RuleConfig {
    type V = ConfigView;

    open spec fn view(&self) -> ConfigView {
        ConfigView {
            strategy: self.strategy,
            target: self.target@,
            replacement: self.replacement@,
        }
    }
}

impl ConfigView {
    /// Flag `assert`, recommend `require`, and attach a note only.
    pub open spec fn standard() -> ConfigView {
        ConfigView {
            strategy: Strategy::NoteOnly,
            target: "assert".spec_bytes(),
            replacement: "require".spec_bytes(),
        }
    }
}

impl RuleConfig {
    pub fn new(strategy: Strategy, target: &str, replacement: &str) -> (config: RuleConfig)
        ensures
            config@ == (ConfigView {
                strategy,
                target: target.spec_bytes(),
                replacement: replacement.spec_bytes(),
            }),
    {
        RuleConfig {
            strategy,
            target: slice_to_vec(target.as_bytes()),
            replacement: slice_to_vec(replacement.as_bytes()),
        }
    }

    /// The standard configuration with another strategy.
    pub fn with_strategy(strategy: Strategy) -> (config: RuleConfig)
        ensures
            config@ == (ConfigView { strategy, ..ConfigView::standard() }),
    {
        RuleConfig::new(strategy, "assert", "require")
    }
}

impl Default for RuleConfig {
    fn default() -> (config: RuleConfig)
        ensures
            config@ == ConfigView::standard(),
    {
        RuleConfig::new(Strategy::NoteOnly, "assert", "require")
    }
}

} // verus!
