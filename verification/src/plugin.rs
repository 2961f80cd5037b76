//! The channel as its host sees it: accounts that are started, stopped,
//! configured and probed.

use vstd::prelude::*;

use crate::channel::{ChannelHealthSnapshot, HealthModel};
use crate::clock;
use crate::clock::Clock;
use crate::config::SlackAccountConfig;
use crate::error;
use crate::error::{ApiCall, SlackError};
use crate::otp;
use crate::otp::{OtpChallengeInfo, OtpModel, OtpState};
use crate::outbound;
use crate::outbound::SlackOutbound;
use crate::state::{AccountState, AccountStateMap};
use crate::table::Table;
use crate::text;

verus! {

/// How many nanoseconds the result of a probe is kept: half a minute.
pub const PROBE_CACHE_TTL: u128 = 30_000_000_000;

/// Slack's answer to the question who a token belongs to.
#[derive(Debug)]
pub struct AuthTestResponse {
    pub ok: bool,
    pub error: Option<String>,
    pub user_id: Option<String>,
    pub user: Option<String>,
    pub team: Option<String>,
}

/// What Slack's answer comes to.
pub fn auth_result(response: AuthTestResponse) -> (r: Result<AuthTestResponse, SlackError>)
    ensures
        match r {
            Ok(auth) => {
                &&& response.ok && auth.ok
                &&& auth.user_id == response.user_id
                &&& auth.user == response.user
                &&& auth.team == response.team
                &&& auth.error is None
            },
            Err(e) => !response.ok && outbound::is_api_error(
                e,
                ApiCall::AuthTest,
                response.error,
            ),
        },
{
    match error::check_response(ApiCall::AuthTest, response.ok, response.error) {
        Ok(_) => Ok(
            AuthTestResponse {
                ok: true,
                error: None,
                user_id: response.user_id,
                user: response.user,
                team: response.team,
            },
        ),
        Err(e) => Err(e),
    }
}

/// What became of a probe.
pub enum ProbeOutcome {
    /// The account is not running.
    NotStarted,
    /// Slack knows the token.
    Authorized { user: Option<String>, team: Option<String> },
    /// The question failed, for this reason.
    Failed(String),
}

/// What a probe comes to, in words.
pub open spec fn probe_details(outcome: ProbeOutcome) -> Seq<char> {
    match outcome {
        ProbeOutcome::NotStarted => "account not started"@,
        ProbeOutcome::Authorized { user, team } => "Bot: "@ + (match user {
            Some(u) => u@,
            None => "unknown"@,
        }) + " ("@ + (match team {
            Some(t) => t@,
            None => "unknown team"@,
        }) + ")"@,
        ProbeOutcome::Failed(e) => "API error: "@ + e@,
    }
}

/// The health of an account after a probe.
pub open spec fn health_after(account_id: Seq<char>, outcome: ProbeOutcome) -> HealthModel {
    HealthModel {
        connected: outcome is Authorized,
        account_id,
        details: Some(probe_details(outcome)),
    }
}

/// The health of an account after a probe.
pub fn health_snapshot(account_id: &str, outcome: ProbeOutcome) -> (r: ChannelHealthSnapshot)
    ensures
        r@ == health_after(account_id@, outcome),
{
    let mut connected = false;
    let details = match outcome {
        ProbeOutcome::NotStarted => "account not started".to_owned(),
        ProbeOutcome::Authorized { user, team } => {
            connected = true;
            let user = match user {
                Some(u) => u,
                None => "unknown".to_owned(),
            };
            let team = match team {
                Some(t) => t,
                None => "unknown team".to_owned(),
            };
            let bot = text::joined("Bot: ", user.as_str());
            let open = text::joined(bot.as_str(), " (");
            let inner = text::joined(open.as_str(), team.as_str());
            text::joined(inner.as_str(), ")")
        },
        ProbeOutcome::Failed(e) => text::joined("API error: ", e.as_str()),
    };
    ChannelHealthSnapshot { connected, account_id: account_id.to_owned(), details: Some(details) }
}

/// The result of a probe, and when it was made.
struct Probe {
    snapshot: ChannelHealthSnapshot,
    at: u128,
}

/// The result of a probe, and when it was made.
pub struct ProbeModel {
    pub snapshot: HealthModel,
    pub at: nat,
}

/// How a probe goes on.
pub enum ProbeStep {
    /// The result of an earlier one still counts.
    Cached(ChannelHealthSnapshot),
    /// Slack has to be asked, with this token.
    AskSlack { token: String },
    /// There is nothing to ask: the account is not running.
    NotStarted,
}

/// The results of earlier probes, by account.
pub struct ProbeCache {
    rows: Table<Probe>,
    clock: Clock,
}

impl View for ProbeCache {
    type V = Map<Seq<char>, ProbeModel>;

    closed spec fn view(&self) -> Map<Seq<char>, ProbeModel> {
        self.rows@.map_values(|p: Probe| ProbeModel { snapshot: p.snapshot@, at: p.at as nat })
    }
}

impl ProbeCache {
    /// The clock by which results are dated. It is never set.
    pub closed spec fn clock(self) -> Clock {
        self.clock
    }

    /// A cache without results.
    pub fn new() -> (r: Self)
        ensures
            r@ == Map::<Seq<char>, ProbeModel>::empty(),
    {
        let rows: Table<Probe> = Table::new();
        let r = ProbeCache { rows, clock: Clock::new() };
        proof {
            assert(r@ =~= Map::<Seq<char>, ProbeModel>::empty());
        }
        r
    }

    /// The result of the last probe of an account, if it still counts at the
    /// moment `now`.
    pub fn fresh_at(&self, account_id: &str, now: u128) -> (r: Option<ChannelHealthSnapshot>)
        ensures
            match r {
                Some(snapshot) => counts(self@, account_id@, now as nat) && snapshot@
                    == self@[account_id@].snapshot,
                None => !counts(self@, account_id@, now as nat),
            },
    {
        match self.rows.get(account_id) {
            Some(probe) => {
                if now < PROBE_CACHE_TTL || now - PROBE_CACHE_TTL < probe.at {
                    Some(probe.snapshot.copy())
                } else {
                    None
                }
            },
            None => None,
        }
    }

    /// Keeps the result of a probe that was made at the moment `now`.
    pub fn keep_at(&mut self, account_id: &str, snapshot: ChannelHealthSnapshot, now: u128)
        ensures
            final(self)@ == old(self)@.insert(
                account_id@,
                (ProbeModel { snapshot: snapshot@, at: now as nat }),
            ),
            final(self).clock() == old(self).clock(),
    {
        let ghost was = self@;
        self.rows.insert(account_id, Probe { snapshot, at: now });
        proof {
            assert(self@ =~= was.insert(
                account_id@,
                ProbeModel { snapshot: snapshot@, at: now as nat },
            ));
        }
    }
}

/// Whether the last probe of an account still counts at the moment `now`.
pub open spec fn counts(
    probes: Map<Seq<char>, ProbeModel>,
    account_id: Seq<char>,
    now: nat,
) -> bool {
    probes.contains_key(account_id) && now < probes[account_id].at + PROBE_CACHE_TTL
}

/// The Slack channel with its running accounts. Accounts that are started get
/// a share of its message log and of its event sink.
pub struct SlackPlugin<L, S, C> {
    pub accounts: AccountStateMap<L, S, C>,
    pub probes: ProbeCache,
    pub message_log: Option<L>,
    pub event_sink: Option<S>,
}

/// Whether `shared` is a share of what `own` is, if it is there.
pub open spec fn is_share<T: Clone>(own: Option<T>, shared: Option<T>) -> bool {
    match own {
        Some(t) => shared is Some && cloned::<T>(t, shared->0),
        None => shared is None,
    }
}

fn share<T: Clone>(own: &Option<T>) -> (r: Option<T>)
    ensures
        is_share(*own, r),
{
    match own {
        Some(t) => Some(t.clone()),
        None => None,
    }
}

/// Whether `state` is a freshly started account of the channel.
pub open spec fn is_fresh_account<L: Clone, S: Clone, C>(
    plugin: SlackPlugin<L, S, C>,
    state: AccountState<L, S, C>,
    account_id: Seq<char>,
    config: SlackAccountConfig,
    bot_user_id: Option<String>,
    cancel: C,
) -> bool {
    &&& state.account_id@ == account_id
    &&& state.config == config
    &&& state.bot_user_id == bot_user_id
    &&& state.cancel == cancel
    &&& is_share(plugin.message_log, state.message_log)
    &&& is_share(plugin.event_sink, state.event_sink)
    &&& state.otp@ == (OtpModel {
        challenges: Map::empty(),
        lockouts: Map::empty(),
        cooldown: config.otp_cooldown_secs as nat * clock::NANOS_PER_SEC as nat,
    })
}

/// How a probe of an account goes on at the moment `now`.
pub open spec fn is_probe_step<L, S, C>(
    plugin: SlackPlugin<L, S, C>,
    account_id: Seq<char>,
    now: nat,
    step: ProbeStep,
) -> bool {
    if counts(plugin.probes@, account_id, now) {
        step matches ProbeStep::Cached(snapshot) && snapshot@
            == plugin.probes@[account_id].snapshot
    } else if plugin.accounts@.contains_key(account_id) {
        step matches ProbeStep::AskSlack { token } && token@
            == plugin.accounts@[account_id].config.bot_token@
    } else {
        step is NotStarted
    }
}

impl<L, S, C> SlackPlugin<L, S, C> {
    /// A channel without accounts.
    #[must_use]
    pub fn new() -> (r: Self)
        ensures
            r.accounts@ == Map::<Seq<char>, AccountState<L, S, C>>::empty(),
            r.probes@ == Map::<Seq<char>, ProbeModel>::empty(),
            r.message_log is None,
            r.event_sink is None,
    {
        SlackPlugin {
            accounts: Table::new(),
            probes: ProbeCache::new(),
            message_log: None,
            event_sink: None,
        }
    }

    /// Gives the channel a message log.
    #[must_use]
    pub fn with_message_log(self, log: L) -> (r: Self)
        ensures
            r == (SlackPlugin { message_log: Some(log), ..self }),
    {
        SlackPlugin {
            accounts: self.accounts,
            probes: self.probes,
            message_log: Some(log),
            event_sink: self.event_sink,
        }
    }

    /// Gives the channel an event sink.
    #[must_use]
    pub fn with_event_sink(self, sink: S) -> (r: Self)
        ensures
            r == (SlackPlugin { event_sink: Some(sink), ..self }),
    {
        SlackPlugin {
            accounts: self.accounts,
            probes: self.probes,
            message_log: self.message_log,
            event_sink: Some(sink),
        }
    }

    /// Sends from the running accounts.
    #[must_use]
    pub fn shared_outbound(&self) -> (r: SlackOutbound<'_, L, S, C>)
        ensures
            r.accounts_view() == self.accounts@,
    {
        SlackOutbound::new(&self.accounts)
    }

    /// What the channel is called in settings.
    pub fn id(&self) -> (r: &'static str)
        ensures
            r@ == "slack"@,
    {
        "slack"
    }

    /// What the channel is called for people.
    pub fn name(&self) -> (r: &'static str)
        ensures
            r@ == "Slack"@,
    {
        "Slack"
    }

    /// The running accounts, each once.
    #[must_use]
    pub fn account_ids(&self) -> (r: Vec<String>)
        ensures
            r@.map_values(|k: String| k@).no_duplicates(),
            forall|k: Seq<char>|
                r@.map_values(|s: String| s@).contains(k) <==> self.accounts@.contains_key(k),
    {
        self.accounts.keys()
    }

    /// The settings of a running account.
    pub fn account_config(&self, account_id: &str) -> (r: Option<&SlackAccountConfig>)
        ensures
            match r {
                Some(config) => self.accounts@.contains_key(account_id@) && *config
                    == self.accounts@[account_id@].config,
                None => !self.accounts@.contains_key(account_id@),
            },
    {
        match self.accounts.get(account_id) {
            Some(state) => Some(&state.config),
            None => None,
        }
    }

    /// Gives a running account new settings. Nothing else of it changes.
    pub fn update_account_config(&mut self, account_id: &str, config: SlackAccountConfig) -> (r:
        Result<(), SlackError>)
        ensures
            *final(self) == (SlackPlugin { accounts: final(self).accounts, ..*old(self) }),
            match r {
                Ok(_) => {
                    &&& old(self).accounts@.contains_key(account_id@)
                    &&& final(self).accounts@ == old(self).accounts@.insert(
                        account_id@,
                        (AccountState { config, ..old(self).accounts@[account_id@] }),
                    )
                },
                Err(e) => {
                    &&& !old(self).accounts@.contains_key(account_id@)
                    &&& e matches SlackError::AccountNotFound(id)
                    &&& id@ == account_id@
                    &&& final(self).accounts@ == old(self).accounts@
                },
            },
    {
        let ghost was = self.accounts@;
        match self.accounts.remove(account_id) {
            Some(mut state) => {
                state.config = config;
                self.accounts.insert(account_id, state);
                proof {
                    assert(self.accounts@ =~= was.insert(
                        account_id@,
                        AccountState { config, ..was[account_id@] },
                    ));
                }
                Ok(())
            },
            None => {
                proof {
                    assert(self.accounts@ =~= was);
                }
                Err(SlackError::AccountNotFound(account_id.to_owned()))
            },
        }
    }

    /// The challenges of a running account that have not expired.
    #[must_use]
    pub fn pending_otp_challenges(&self, account_id: &str) -> (r: Vec<OtpChallengeInfo>)
        ensures
            !self.accounts@.contains_key(account_id@) ==> r@.len() == 0,
            self.accounts@.contains_key(account_id@) ==> exists|now: nat, wall: int|
                now <= clock::LAST_TICK && -clock::LAST_TICK <= wall <= clock::LAST_TICK
                    && #[trigger] self.accounts@[account_id@].otp@.lists_pending(
                    otp::info_views(r@),
                    now,
                    wall,
                ),
    {
        match self.accounts.get(account_id) {
            Some(state) => state.otp.list_pending(),
            None => Vec::new(),
        }
    }

    /// Takes an account out of the running ones, for the host to stop it.
    pub fn stop_account(&mut self, account_id: &str) -> (r: Option<AccountState<L, S, C>>)
        ensures
            *final(self) == (SlackPlugin { accounts: final(self).accounts, ..*old(self) }),
            final(self).accounts@ == old(self).accounts@.remove(account_id@),
            match r {
                Some(state) => old(self).accounts@.contains_key(account_id@) && state == old(
                    self,
                ).accounts@[account_id@],
                None => !old(self).accounts@.contains_key(account_id@),
            },
    {
        self.accounts.remove(account_id)
    }

    /// Begins to start an account: its settings have to hold both tokens, and
    /// an account of the same name that is running is taken out, for the host
    /// to stop it.
    pub fn begin_start(&mut self, account_id: &str, config: &SlackAccountConfig) -> (r: Result<
        Option<AccountState<L, S, C>>,
        SlackError,
    >)
        ensures
            *final(self) == (SlackPlugin { accounts: final(self).accounts, ..*old(self) }),
            match r {
                Ok(running) => {
                    &&& config.app_token@.len() > 0
                    &&& config.bot_token@.len() > 0
                    &&& final(self).accounts@ == old(self).accounts@.remove(account_id@)
                    &&& match running {
                        Some(state) => old(self).accounts@.contains_key(account_id@) && state
                            == old(self).accounts@[account_id@],
                        None => !old(self).accounts@.contains_key(account_id@),
                    }
                },
                Err(e) => {
                    &&& final(self).accounts@ == old(self).accounts@
                    &&& if config.app_token@.len() == 0 {
                        e is AppTokenRequired
                    } else {
                        config.bot_token@.len() == 0 && e is BotTokenRequired
                    }
                },
            },
    {
        if config.app_token.expose().is_empty() {
            return Err(SlackError::AppTokenRequired);
        }
        if config.bot_token.expose().is_empty() {
            return Err(SlackError::BotTokenRequired);
        }
        Ok(self.stop_account(account_id))
    }

    /// Starts an account, given Slack's answer to the question who its bot
    /// token belongs to.
    pub fn finish_start(
        &mut self,
        account_id: &str,
        config: SlackAccountConfig,
        response: AuthTestResponse,
        cancel: C,
    ) -> (r: Result<(), SlackError>) where L: Clone, S: Clone
        ensures
            *final(self) == (SlackPlugin { accounts: final(self).accounts, ..*old(self) }),
            match r {
                Ok(_) => {
                    let state = final(self).accounts@[account_id@];
                    &&& response.ok
                    &&& final(self).accounts@ == old(self).accounts@.insert(account_id@, state)
                    &&& is_fresh_account(
                        *old(self),
                        state,
                        account_id@,
                        config,
                        response.user_id,
                        cancel,
                    )
                },
                Err(e) => {
                    &&& !response.ok
                    &&& outbound::is_api_error(e, ApiCall::AuthTest, response.error)
                    &&& final(self).accounts@ == old(self).accounts@
                },
            },
    {
        let auth = match auth_result(response) {
            Ok(auth) => auth,
            Err(e) => {
                return Err(e);
            },
        };
        let otp = OtpState::new(config.otp_cooldown_secs);
        let state = AccountState {
            account_id: account_id.to_owned(),
            config,
            bot_user_id: auth.user_id,
            cancel,
            message_log: share(&self.message_log),
            event_sink: share(&self.event_sink),
            otp,
        };
        self.accounts.insert(account_id, state);
        Ok(())
    }

    /// How a probe of an account goes on at the moment `now`.
    pub fn probe_at(&self, account_id: &str, now: u128) -> (r: ProbeStep)
        ensures
            is_probe_step(*self, account_id@, now as nat, r),
    {
        if let Some(snapshot) = self.probes.fresh_at(account_id, now) {
            return ProbeStep::Cached(snapshot);
        }
        match self.accounts.get(account_id) {
            Some(state) => ProbeStep::AskSlack {
                token: state.config.bot_token.expose().to_owned(),
            },
            None => ProbeStep::NotStarted,
        }
    }

    /// How a probe of an account goes on.
    pub fn probe(&self, account_id: &str) -> (r: ProbeStep)
        ensures
            exists|now: nat|
                now <= clock::LAST_TICK && #[trigger] is_probe_step(*self, account_id@, now, r),
    {
        let now = self.probes.clock.now();
        let r = self.probe_at(account_id, now);
        proof {
            assert(is_probe_step(*self, account_id@, now as nat, r));
        }
        r
    }

    /// Keeps the result of a probe that was made at the moment `now`.
    pub fn probe_done_at(&mut self, account_id: &str, outcome: ProbeOutcome, now: u128) -> (r:
        ChannelHealthSnapshot)
        ensures
            r@ == health_after(account_id@, outcome),
            *final(self) == (SlackPlugin { probes: final(self).probes, ..*old(self) }),
            final(self).probes.clock() == old(self).probes.clock(),
            final(self).probes@ == old(self).probes@.insert(
                account_id@,
                (ProbeModel { snapshot: r@, at: now as nat }),
            ),
    {
        let r = health_snapshot(account_id, outcome);
        self.probes.keep_at(account_id, r.copy(), now);
        r
    }

    /// Keeps the result of a probe.
    pub fn probe_done(&mut self, account_id: &str, outcome: ProbeOutcome) -> (r:
        ChannelHealthSnapshot)
        ensures
            r@ == health_after(account_id@, outcome),
            *final(self) == (SlackPlugin { probes: final(self).probes, ..*old(self) }),
            final(self).probes.clock() == old(self).probes.clock(),
            exists|now: nat|
                now <= clock::LAST_TICK && final(self).probes@ == #[trigger] old(self).probes@.insert(
                    account_id@,
                    (ProbeModel { snapshot: r@, at: now }),
                ),
    {
        let now = self.probes.clock.now();
        let r = self.probe_done_at(account_id, outcome, now);
        proof {
            assert(self.probes@ == old(self).probes@.insert(
                account_id@,
                ProbeModel { snapshot: r@, at: now as nat },
            ));
        }
        r
    }
}

impl<L, S, C> Default for SlackPlugin<L, S, C> {
    fn default() -> (r: Self)
        ensures
            r.accounts@ == Map::<Seq<char>, AccountState<L, S, C>>::empty(),
            r.probes@ == Map::<Seq<char>, ProbeModel>::empty(),
            r.message_log is None,
            r.event_sink is None,
    {
        SlackPlugin::new()
    }
}

// ---------------------------------------------------------------------------
// Laws
// ---------------------------------------------------------------------------

/// The result of a probe counts for half a minute, and for its account alone.
pub proof fn law_probe_is_remembered(
    probes: Map<Seq<char>, ProbeModel>,
    account_id: Seq<char>,
    other: Seq<char>,
    probe: ProbeModel,
    t: nat,
)
    ensures
        ({
            let kept = probes.insert(account_id, probe);
            &&& counts(kept, account_id, t) <==> t < probe.at + PROBE_CACHE_TTL
            &&& kept[account_id].snapshot == probe.snapshot
            &&& other != account_id ==> counts(kept, other, t) == counts(probes, other, t)
        }),
{
}

/// The health of an account says whether Slack knows its token, and whose it is,
/// or what went wrong.
pub proof fn law_health(account_id: Seq<char>, outcome: ProbeOutcome, snapshot: ChannelHealthSnapshot)
    requires
        snapshot@ == health_after(account_id, outcome),
    ensures
        snapshot.connected <==> outcome is Authorized,
        snapshot.account_id@ == account_id,
        snapshot.details is Some,
        outcome is NotStarted ==> snapshot.details->0@ == "account not started"@,
        outcome matches ProbeOutcome::Failed(e) ==> snapshot.details->0@ == "API error: "@ + e@,
        outcome matches ProbeOutcome::Authorized { user, team } ==> snapshot.details->0@ == "Bot: "@
            + (if user is Some {
            user->0@
        } else {
            "unknown"@
        }) + " ("@ + (if team is Some {
            team->0@
        } else {
            "unknown team"@
        }) + ")"@,
{
    assert(text::opt_view(snapshot.details) is Some);
}

/// A probe within half a minute of the last, and no later, gives what that one
/// gave. Otherwise Slack is asked with the account's bot token, or, where the
/// account is not running, nobody is.
pub proof fn law_probe<L, S, C>(
    plugin: SlackPlugin<L, S, C>,
    account_id: Seq<char>,
    now: nat,
    step: ProbeStep,
)
    requires
        is_probe_step(plugin, account_id, now, step),
    ensures
        ({
            let probes = plugin.probes@;
            let fresh = probes.contains_key(account_id) && now < probes[account_id].at
                + 30_000_000_000;
            &&& step is Cached <==> fresh
            &&& step matches ProbeStep::Cached(snapshot) ==> snapshot@ == probes[account_id].snapshot
            &&& step is AskSlack <==> !fresh && plugin.accounts@.contains_key(account_id)
            &&& step matches ProbeStep::AskSlack { token } ==> token@
                == plugin.accounts@[account_id].config.bot_token@
            &&& step is NotStarted <==> !fresh && !plugin.accounts@.contains_key(account_id)
        }),
{
}

/// An account that was started has the settings and the stopper that it was
/// given, the bot's user that Slack named, a share of the channel's log and sink,
/// no challenge and no lockout.
pub proof fn law_started_account<L: Clone, S: Clone, C>(
    plugin: SlackPlugin<L, S, C>,
    state: AccountState<L, S, C>,
    account_id: Seq<char>,
    config: SlackAccountConfig,
    bot_user_id: Option<String>,
    cancel: C,
)
    requires
        is_fresh_account(plugin, state, account_id, config, bot_user_id, cancel),
    ensures
        state.account_id@ == account_id,
        state.config == config,
        state.bot_user_id == bot_user_id,
        state.cancel == cancel,
        state.message_log is Some <==> plugin.message_log is Some,
        plugin.message_log is Some ==> cloned::<L>(plugin.message_log->0, state.message_log->0),
        state.event_sink is Some <==> plugin.event_sink is Some,
        plugin.event_sink is Some ==> cloned::<S>(plugin.event_sink->0, state.event_sink->0),
        forall|peer: Seq<char>, t: nat| !#[trigger] state.otp@.pending(peer, t),
        forall|peer: Seq<char>, t: nat| !#[trigger] state.otp@.locked(peer, t),
        state.otp@.cooldown == config.otp_cooldown_secs * 1_000_000_000,
{
}

} // verus!
