//! Shared string constants: account statuses, provider names, defaults.

use vstd::prelude::*;

verus! {

pub const ACCOUNT_STATUS_NORMAL: &'static str = "正常";

pub const ACCOUNT_STATUS_BANNED: &'static str = "已封禁";

pub const PROVIDER_GOOGLE: &'static str = "Google";

pub const PROVIDER_GITHUB: &'static str = "Github";

pub const PROVIDER_BUILDER_ID: &'static str = "BuilderId";

pub const PROVIDER_ENTERPRISE: &'static str = "Enterprise";

pub const DEFAULT_AWS_REGION: &'static str = "us-east-1";

} // verus!
