//! The accounts that are running.

use vstd::prelude::*;

use crate::config::SlackAccountConfig;
use crate::otp::OtpState;
use crate::table::Table;

verus! {

/// A running account. `L` is the host's message log, `S` its event sink and `C`
/// what stops the account.
pub struct AccountState<L, S, C> {
    pub account_id: String,
    pub config: SlackAccountConfig,
    pub bot_user_id: Option<String>,
    pub cancel: C,
    pub message_log: Option<L>,
    pub event_sink: Option<S>,
    pub otp: OtpState,
}

/// The running accounts, by account.
pub type AccountStateMap<L, S, C> = Table<AccountState<L, S, C>>;

} // verus!
