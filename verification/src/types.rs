//! Plain data carried by the serving API.

use vstd::prelude::*;

verus! {

/// Static metadata of one reviewed developer tool.
pub struct DevTool {
    pub id: i64,
    pub account_login: String,
    pub name: String,
    pub avatar_url: String,
    pub website_url: String,
    pub brand_color: String,
    pub brand_color_dark: Option<String>,
}

} // verus!
