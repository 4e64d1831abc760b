//! Names of the methods.

use vstd::prelude::*;

verus! {

pub const VERSION: &'static str = "protocol.version";

pub const LIST: &'static str = "monitors.list";

pub const GET: &'static str = "monitor.get";

pub const SET: &'static str = "monitor.set";

pub const CAPS: &'static str = "monitor.caps";

pub const PROFILE_LIST: &'static str = "profiles.list";

pub const PROFILE_APPLY: &'static str = "profiles.apply";

pub const PROFILE_SAVE: &'static str = "profiles.save";

pub const PROFILE_DELETE: &'static str = "profiles.delete";

pub const PROFILE_SHOW: &'static str = "profiles.show";

pub const RULES_LIST: &'static str = "rules.list";

pub const RULES_RELOAD: &'static str = "rules.reload";

pub const RULES_TICK: &'static str = "rules.tick";

} // verus!
