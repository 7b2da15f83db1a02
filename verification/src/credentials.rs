//! What the operator configures: the Azure AD application and the channels to
//! watch.
use vstd::prelude::*;

verus! {

#[derive(Debug, Clone)]
pub struct Credentials {
    pub tenant_id: String,
    pub client_id: String,
    pub client_secret: String,
    pub bot_app_id: String,
    pub bot_display_name: String,
    pub teams: Vec<TeamChannelConfig>,
}

#[derive(Debug, Clone)]
pub struct TeamChannelConfig {
    pub team_id: String,
    pub channel_id: String,
    pub alias: Option<String>,
}

} // verus!
