//! One-time codes by which a sender who is on no allowlist can approve
//! themselves.
//!
//! A sender gets a challenge with a six-digit code, which the owner of the bot
//! can see. A sender who answers with the code is approved. Too many wrong
//! answers lock the sender out for a while.

use vstd::prelude::*;

use crate::clock;
use crate::clock::Clock;
use crate::decimal;
use crate::table;
use crate::table::Table;
use crate::text;

verus! {

/// How many nanoseconds a code stays valid: five minutes.
pub const OTP_TTL: u128 = 300_000_000_000;

/// How many wrong answers lead to a lockout.
pub const MAX_ATTEMPTS: u32 = 3;

/// The smallest code.
pub const CODE_MIN: u32 = 100_000;

/// One more than the largest code.
pub const CODE_END: u32 = 1_000_000;

// ---------------------------------------------------------------------------
// The model
// ---------------------------------------------------------------------------

/// A pending challenge. Moments are nanoseconds of the state's clock.
pub struct ChallengeModel {
    pub code: Seq<char>,
    pub peer_id: Seq<char>,
    pub username: Option<Seq<char>>,
    pub sender_name: Option<Seq<char>>,
    pub expires_at: nat,
    pub attempts: nat,
}

/// What is listed of a pending challenge.
pub struct InfoModel {
    pub peer_id: Seq<char>,
    pub username: Option<Seq<char>>,
    pub sender_name: Option<Seq<char>>,
    pub code: Seq<char>,
    pub expires_at: i64,
}

/// What comes of asking for a challenge.
pub enum InitModel {
    Created(Seq<char>),
    AlreadyPending,
    LockedOut,
}

/// The challenges and lockouts of an account, by peer.
pub struct OtpModel {
    pub challenges: Map<Seq<char>, ChallengeModel>,
    pub lockouts: Map<Seq<char>, nat>,
    pub cooldown: nat,
}

/// Whether `s` is a code that can be handed out.
pub open spec fn is_otp_code(s: Seq<char>) -> bool {
    exists|n: nat| CODE_MIN <= n < CODE_END && s == #[trigger] decimal::decimal(n)
}

impl OtpModel {
    /// Whether `peer` is locked out at the moment `now`.
    pub open spec fn locked(self, peer: Seq<char>, now: nat) -> bool {
        self.lockouts.contains_key(peer) && now < self.lockouts[peer]
    }

    /// Whether `peer` has a challenge that has not expired at the moment `now`.
    pub open spec fn pending(self, peer: Seq<char>, now: nat) -> bool {
        self.challenges.contains_key(peer) && now < self.challenges[peer].expires_at
    }

    /// The state in which `peer` is not locked out.
    pub open spec fn without_lockout(self, peer: Seq<char>) -> OtpModel {
        OtpModel { lockouts: self.lockouts.remove(peer), ..self }
    }

    /// The state in which `peer` has no challenge.
    pub open spec fn without_challenge(self, peer: Seq<char>) -> OtpModel {
        OtpModel { challenges: self.challenges.remove(peer), ..self }
    }

    /// The state in which `peer` has the challenge `c`.
    pub open spec fn with_challenge(self, peer: Seq<char>, c: ChallengeModel) -> OtpModel {
        OtpModel { challenges: self.challenges.insert(peer, c), ..self }
    }

    /// The state in which `peer` is locked out until `until`.
    pub open spec fn with_lockout(self, peer: Seq<char>, until: nat) -> OtpModel {
        OtpModel { lockouts: self.lockouts.insert(peer, until), ..self }
    }

    /// Asks for a challenge for `peer` at the moment `now`; `code` is the code
    /// that a new one gets.
    pub open spec fn initiate(
        self,
        peer: Seq<char>,
        username: Option<Seq<char>>,
        sender_name: Option<Seq<char>>,
        now: nat,
        code: Seq<char>,
    ) -> (OtpModel, InitModel) {
        if self.locked(peer, now) {
            (self, InitModel::LockedOut)
        } else if self.pending(peer, now) {
            (self.without_lockout(peer), InitModel::AlreadyPending)
        } else {
            let challenge = ChallengeModel {
                code,
                peer_id: peer,
                username,
                sender_name,
                expires_at: now + OTP_TTL as nat,
                attempts: 0,
            };
            (
                self.without_lockout(peer).with_challenge(peer, challenge),
                InitModel::Created(code),
            )
        }
    }

    /// `peer` answers `code` at the moment `now`.
    pub open spec fn verify(self, peer: Seq<char>, code: Seq<char>, now: nat) -> (
        OtpModel,
        OtpVerifyResult,
    ) {
        let open = self.without_lockout(peer);
        let c = self.challenges[peer];
        if self.locked(peer, now) {
            (self, OtpVerifyResult::LockedOut)
        } else if !self.challenges.contains_key(peer) {
            (open, OtpVerifyResult::NoPending)
        } else if now >= c.expires_at {
            (open.without_challenge(peer), OtpVerifyResult::Expired)
        } else if code == c.code {
            (open.without_challenge(peer), OtpVerifyResult::Approved)
        } else if c.attempts + 1 >= MAX_ATTEMPTS {
            (
                open.without_challenge(peer).with_lockout(peer, now + self.cooldown),
                OtpVerifyResult::LockedOut,
            )
        } else {
            (
                open.with_challenge(peer, ChallengeModel { attempts: c.attempts + 1, ..c }),
                OtpVerifyResult::WrongCode {
                    attempts_left: (MAX_ATTEMPTS - (c.attempts + 1)) as u32,
                },
            )
        }
    }

    /// What is left once expired challenges and elapsed lockouts are gone.
    pub open spec fn evict(self, now: nat) -> OtpModel {
        OtpModel {
            challenges: self.challenges.restrict(
                Set::new(|p: Seq<char>| self.pending(p, now)),
            ),
            lockouts: self.lockouts.restrict(Set::new(|p: Seq<char>| self.locked(p, now))),
            cooldown: self.cooldown,
        }
    }

    /// What is listed of the challenge of `peer` at the moment `now`, which is
    /// `wall` on the wall clock.
    pub open spec fn info(self, peer: Seq<char>, now: nat, wall: int) -> InfoModel {
        let c = self.challenges[peer];
        InfoModel {
            peer_id: c.peer_id,
            username: c.username,
            sender_name: c.sender_name,
            code: c.code,
            expires_at: clock::epoch_deadline(wall, c.expires_at - now),
        }
    }

    /// Whether `infos` lists the pending challenges, each once, in any order.
    pub open spec fn lists_pending(self, infos: Seq<InfoModel>, now: nat, wall: int) -> bool {
        &&& forall|i: int, j: int|
            0 <= i < j < infos.len() ==> infos[i].peer_id != infos[j].peer_id
        &&& forall|i: int|
            0 <= i < infos.len() ==> {
                &&& self.pending((#[trigger] infos[i]).peer_id, now)
                &&& infos[i] == self.info(infos[i].peer_id, now, wall)
            }
        &&& forall|p: Seq<char>|
            self.pending(p, now) ==> exists|i: int|
                0 <= i < infos.len() && (#[trigger] infos[i]).peer_id == p
    }

    /// What holds of every state: a challenge is kept under its own peer, has
    /// fewer wrong answers than lead to a lockout, and no peer has both a
    /// challenge and a lockout.
    pub open spec fn wf(self) -> bool {
        forall|p: Seq<char>| #[trigger]
            self.challenges.contains_key(p) ==> {
                &&& self.challenges[p].peer_id == p
                &&& self.challenges[p].attempts < MAX_ATTEMPTS
                &&& !self.lockouts.contains_key(p)
            }
    }
}

// ---------------------------------------------------------------------------
// The state
// ---------------------------------------------------------------------------

/// The one-time codes of an account.
pub struct OtpState {
    challenges: Table<OtpChallenge>,
    lockouts: Table<Lockout>,
    cooldown_secs: u64,
    clock: Clock,
}

/// A pending challenge for a single peer.
pub struct OtpChallenge {
    pub code: String,
    pub peer_id: String,
    pub username: Option<String>,
    pub sender_name: Option<String>,
    /// When the challenge expires, in nanoseconds of the state's clock.
    pub expires_at: u128,
    pub attempts: u32,
}

/// A lockout after too many wrong answers.
struct Lockout {
    until: u128,
}

/// Result of asking for a challenge.
#[derive(Debug, PartialEq, Eq)]
pub enum OtpInitResult {
    /// Challenge created; holds the six-digit code.
    Created(String),
    /// A challenge already exists for this peer.
    AlreadyPending,
    /// Peer is locked out.
    LockedOut,
}

/// Result of verifying a code.
#[derive(Debug, PartialEq, Eq)]
pub enum OtpVerifyResult {
    /// Code matched: the peer should be approved.
    Approved,
    /// Wrong code; `attempts_left` remaining before lockout.
    WrongCode { attempts_left: u32 },
    /// Peer is locked out after too many failures.
    LockedOut,
    /// No pending challenge for this peer.
    NoPending,
    /// The challenge has expired.
    Expired,
}

/// Snapshot of a pending challenge for those who show it.
#[derive(Debug, Clone)]
pub struct OtpChallengeInfo {
    pub peer_id: String,
    pub username: Option<String>,
    pub sender_name: Option<String>,
    pub code: String,
    /// When the challenge expires, in seconds since 1970.
    pub expires_at: i64,
}

impl View for OtpChallenge {
    type V = ChallengeModel;

    open spec fn view(&self) -> ChallengeModel {
        ChallengeModel {
            code: self.code@,
            peer_id: self.peer_id@,
            username: text::opt_view(self.username),
            sender_name: text::opt_view(self.sender_name),
            expires_at: self.expires_at as nat,
            attempts: self.attempts as nat,
        }
    }
}

impl View for OtpChallengeInfo {
    type V = InfoModel;

    open spec fn view(&self) -> InfoModel {
        InfoModel {
            peer_id: self.peer_id@,
            username: text::opt_view(self.username),
            sender_name: text::opt_view(self.sender_name),
            code: self.code@,
            expires_at: self.expires_at,
        }
    }
}

impl View for OtpInitResult {
    type V = InitModel;

    open spec fn view(&self) -> InitModel {
        match self {
            OtpInitResult::Created(code) => InitModel::Created(code@),
            OtpInitResult::AlreadyPending => InitModel::AlreadyPending,
            OtpInitResult::LockedOut => InitModel::LockedOut,
        }
    }
}

impl View for OtpState {
    type V = OtpModel;

    closed spec fn view(&self) -> OtpModel {
        model(self.challenges@, self.lockouts@, self.cooldown_secs)
    }
}

/// What a list of snapshots lists.
pub open spec fn info_views(infos: Seq<OtpChallengeInfo>) -> Seq<InfoModel> {
    infos.map_values(|i: OtpChallengeInfo| i@)
}

spec fn model(
    challenges: Map<Seq<char>, OtpChallenge>,
    lockouts: Map<Seq<char>, Lockout>,
    cooldown_secs: u64,
) -> OtpModel {
    OtpModel {
        challenges: challenges.map_values(|c: OtpChallenge| c@),
        lockouts: lockouts.map_values(|l: Lockout| l.until as nat),
        cooldown: cooldown_secs as nat * clock::NANOS_PER_SEC as nat,
    }
}

spec fn in_time(challenges: Map<Seq<char>, OtpChallenge>) -> bool {
    forall|p: Seq<char>| #[trigger]
        challenges.contains_key(p) ==> challenges[p].expires_at <= clock::LAST_TICK + OTP_TTL
}

/// `rand::rng` and `rand::Rng::random_range`: a number from `low` up to, and
/// not including, `high`. Nothing is said of which one, nor of a system that has
/// no randomness to seed the generator from.
#[verifier::external_body]
fn random_in(low: u32, high: u32) -> (r: u32)
    requires
        low < high,
    ensures
        low <= r < high,
{
    rand::Rng::random_range(&mut rand::rng(), low..high)
}

/// A new code.
pub(crate) fn generate_otp_code() -> (r: String)
    ensures
        is_otp_code(r@),
{
    let code = random_in(CODE_MIN, CODE_END);
    decimal::decimal_text(code)
}

impl OtpState {
    #[verifier::type_invariant]
    spec fn well_kept(self) -> bool {
        self@.wf() && in_time(self.challenges@)
    }

    /// The clock by which challenges and lockouts end. It is never set.
    pub closed spec fn clock(self) -> Clock {
        self.clock
    }

    /// A state without challenges and lockouts.
    #[must_use]
    pub fn new(cooldown_secs: u64) -> (r: Self)
        ensures
            r@ == (OtpModel {
                challenges: Map::empty(),
                lockouts: Map::empty(),
                cooldown: cooldown_secs as nat * clock::NANOS_PER_SEC as nat,
            }),
            r@.wf(),
    {
        let challenges: Table<OtpChallenge> = Table::new();
        let lockouts: Table<Lockout> = Table::new();
        let r = OtpState { challenges, lockouts, cooldown_secs, clock: Clock::new() };
        proof {
            assert(r@.challenges =~= Map::empty());
            assert(r@.lockouts =~= Map::empty());
        }
        r
    }

    /// The moment that the state's clock shows.
    pub fn now(&self) -> (r: u128)
        ensures
            r <= clock::LAST_TICK,
    {
        self.clock.now()
    }

    /// The moment that the state's clock shows after it showed `earlier`.
    pub fn now_after(&self, earlier: u128) -> (r: u128)
        requires
            earlier <= clock::LAST_TICK,
        ensures
            earlier <= r <= clock::LAST_TICK,
    {
        self.clock.now_after(earlier)
    }

    /// Takes an elapsed lockout of the peer away. Tells whether the peer is
    /// still locked out; the state is then unchanged.
    fn lift_lockout(&mut self, peer_id: &str, now: u128) -> (r: bool)
        ensures
            r == old(self)@.locked(peer_id@, now as nat),
            r ==> *final(self) == *old(self),
            !r ==> final(self)@ == old(self)@.without_lockout(peer_id@),
            final(self).challenges == old(self).challenges,
            final(self).cooldown_secs == old(self).cooldown_secs,
            final(self).clock == old(self).clock,
    {
        proof {
            use_type_invariant(&*self);
        }
        if let Some(lockout) = self.lockouts.get(peer_id) {
            if now < lockout.until {
                return true;
            }
        }
        let ghost before = self@;
        let mut lockouts: Table<Lockout> = Table::new();
        std::mem::swap(&mut lockouts, &mut self.lockouts);
        lockouts.remove(peer_id);
        self.lockouts = lockouts;
        proof {
            assert(self@.lockouts =~= before.lockouts.remove(peer_id@));
        }
        false
    }

    /// Asks for a challenge at the moment `now`; `code` is the code that a new
    /// one gets.
    pub fn initiate_at(
        &mut self,
        peer_id: &str,
        username: Option<String>,
        sender_name: Option<String>,
        now: u128,
        code: String,
    ) -> (r: OtpInitResult)
        requires
            now <= clock::LAST_TICK,
        ensures
            (final(self)@, r@) == old(self)@.initiate(
                peer_id@,
                text::opt_view(username),
                text::opt_view(sender_name),
                now as nat,
                code@,
            ),
            final(self).clock() == old(self).clock(),
            old(self)@.wf() && final(self)@.wf(),
    {
        proof {
            use_type_invariant(&*self);
        }
        // Check lockout first.
        if self.lift_lockout(peer_id, now) {
            return OtpInitResult::LockedOut;
        }
        // Check for existing unexpired challenge.
        if let Some(existing) = self.challenges.get(peer_id) {
            if now < existing.expires_at {
                return OtpInitResult::AlreadyPending;
            }
        }
        let ghost before = self@;
        let challenge = OtpChallenge {
            code: code.clone(),
            peer_id: peer_id.to_owned(),
            username,
            sender_name,
            expires_at: now + OTP_TTL,
            attempts: 0,
        };
        proof {
            use_type_invariant(&*self);
        }
        let ghost c = challenge@;
        let mut challenges: Table<OtpChallenge> = Table::new();
        std::mem::swap(&mut challenges, &mut self.challenges);
        let ghost old_challenges = challenges@;
        challenges.insert(peer_id, challenge);
        proof {
            let m = model(challenges@, self.lockouts@, self.cooldown_secs);
            assert(m.challenges =~= before.challenges.insert(peer_id@, c));
            assert(m.wf());
        }
        self.challenges = challenges;
        proof {
            assert(self@.challenges =~= before.challenges.insert(peer_id@, c));
        }
        OtpInitResult::Created(code)
    }

    /// Asks for a challenge for `peer_id`.
    pub fn initiate(
        &mut self,
        peer_id: &str,
        username: Option<String>,
        sender_name: Option<String>,
    ) -> (r: OtpInitResult)
        ensures
            exists|now: nat, code: Seq<char>|
                now <= clock::LAST_TICK && is_otp_code(code) && (final(self)@, r@)
                    == #[trigger] old(self)@.initiate(
                    peer_id@,
                    text::opt_view(username),
                    text::opt_view(sender_name),
                    now,
                    code,
                ),
            final(self).clock() == old(self).clock(),
            old(self)@.wf() && final(self)@.wf(),
    {
        let now = self.clock.now();
        let code = generate_otp_code();
        let ghost given = code@;
        let ghost names = (text::opt_view(username), text::opt_view(sender_name));
        let r = self.initiate_at(peer_id, username, sender_name, now, code);
        proof {
            assert((self@, r@) == old(self)@.initiate(
                peer_id@,
                names.0,
                names.1,
                now as nat,
                given,
            ));
        }
        r
    }

    /// Verifies a code that `peer_id` submits at the moment `now`.
    pub fn verify_at(&mut self, peer_id: &str, code: &str, now: u128) -> (r: OtpVerifyResult)
        requires
            now <= clock::LAST_TICK,
        ensures
            (final(self)@, r) == old(self)@.verify(peer_id@, code@, now as nat),
            final(self).clock() == old(self).clock(),
            old(self)@.wf() && final(self)@.wf(),
    {
        proof {
            use_type_invariant(&*self);
        }
        if self.lift_lockout(peer_id, now) {
            return OtpVerifyResult::LockedOut;
        }
        proof {
            use_type_invariant(&*self);
        }
        let ghost before = self@;
        let mut challenges: Table<OtpChallenge> = Table::new();
        std::mem::swap(&mut challenges, &mut self.challenges);
        let ghost was = challenges@;
        let mut challenge = match challenges.remove(peer_id) {
            Some(c) => c,
            None => {
                proof {
                    assert(challenges@ =~= was);
                }
                self.challenges = challenges;
                return OtpVerifyResult::NoPending;
            },
        };
        proof {
            let m = model(challenges@, self.lockouts@, self.cooldown_secs);
            assert(m.challenges =~= before.challenges.remove(peer_id@));
        }
        if now >= challenge.expires_at {
            self.challenges = challenges;
            return OtpVerifyResult::Expired;
        }
        if text::same_text(challenge.code.as_str(), code) {
            self.challenges = challenges;
            return OtpVerifyResult::Approved;
        }
        let ghost c = challenge@;
        assert(before.challenges.contains_key(peer_id@));
        challenge.attempts = challenge.attempts + 1;
        if challenge.attempts >= MAX_ATTEMPTS {
            let mut lockouts: Table<Lockout> = Table::new();
            std::mem::swap(&mut lockouts, &mut self.lockouts);
            let until: u128 = now + self.cooldown_secs as u128 * clock::NANOS_PER_SEC;
            lockouts.insert(peer_id, Lockout { until });
            self.lockouts = lockouts;
            proof {
                let m = model(challenges@, self.lockouts@, self.cooldown_secs);
                assert(m.lockouts =~= before.lockouts.insert(peer_id@, until as nat));
                assert(m.wf());
            }
            self.challenges = challenges;
            proof {
                assert(self@ == before.without_challenge(peer_id@).with_lockout(
                    peer_id@,
                    until as nat,
                ));
            }
            return OtpVerifyResult::LockedOut;
        }
        let attempts_left: u32 = MAX_ATTEMPTS - challenge.attempts;
        let ghost more = challenge@;
        challenges.insert(peer_id, challenge);
        proof {
            let m = model(challenges@, self.lockouts@, self.cooldown_secs);
            assert(m.challenges =~= before.challenges.insert(peer_id@, more));
            assert(m.wf());
        }
        self.challenges = challenges;
        proof {
            assert(self@ == before.with_challenge(
                peer_id@,
                ChallengeModel { attempts: c.attempts + 1, ..c },
            ));
        }
        OtpVerifyResult::WrongCode { attempts_left }
    }

    /// Verifies a code that `peer_id` submits.
    pub fn verify(&mut self, peer_id: &str, code: &str) -> (r: OtpVerifyResult)
        ensures
            exists|now: nat|
                now <= clock::LAST_TICK && (final(self)@, r) == #[trigger] old(self)@.verify(
                    peer_id@,
                    code@,
                    now,
                ),
            final(self).clock() == old(self).clock(),
            old(self)@.wf() && final(self)@.wf(),
    {
        let now = self.clock.now();
        let r = self.verify_at(peer_id, code, now);
        proof {
            assert((self@, r) == old(self)@.verify(peer_id@, code@, now as nat));
        }
        r
    }

    /// Whether the peer has a challenge that has not expired at the moment
    /// `now`.
    #[must_use]
    pub fn has_pending_at(&self, peer_id: &str, now: u128) -> (r: bool)
        ensures
            r == self@.pending(peer_id@, now as nat),
            self@.wf(),
    {
        proof {
            use_type_invariant(self);
        }
        match self.challenges.get(peer_id) {
            Some(c) => now < c.expires_at,
            None => false,
        }
    }

    /// Whether the peer has a challenge that has not expired.
    #[must_use]
    pub fn has_pending(&self, peer_id: &str) -> (r: bool)
        ensures
            exists|now: nat|
                now <= clock::LAST_TICK && r == #[trigger] self@.pending(peer_id@, now),
            self@.wf(),
    {
        let now = self.clock.now();
        let r = self.has_pending_at(peer_id, now);
        proof {
            assert(r == self@.pending(peer_id@, now as nat));
        }
        r
    }

    /// Whether the peer is locked out at the moment `now`.
    #[must_use]
    pub fn is_locked_out_at(&self, peer_id: &str, now: u128) -> (r: bool)
        ensures
            r == self@.locked(peer_id@, now as nat),
    {
        match self.lockouts.get(peer_id) {
            Some(l) => now < l.until,
            None => false,
        }
    }

    /// Whether the peer is locked out.
    #[must_use]
    pub fn is_locked_out(&self, peer_id: &str) -> (r: bool)
        ensures
            exists|now: nat|
                now <= clock::LAST_TICK && r == #[trigger] self@.locked(peer_id@, now),
    {
        let now = self.clock.now();
        let r = self.is_locked_out_at(peer_id, now);
        proof {
            assert(r == self@.locked(peer_id@, now as nat));
        }
        r
    }

    /// The challenges that have not expired at the moment `now`, which is
    /// `wall` on the wall clock.
    #[must_use]
    pub fn list_pending_at(&self, now: u128, wall: i128) -> (r: Vec<OtpChallengeInfo>)
        requires
            now <= clock::LAST_TICK,
            -clock::LAST_TICK <= wall <= clock::LAST_TICK,
        ensures
            self@.lists_pending(
                info_views(r@),
                now as nat,
                wall as int,
            ),
    {
        proof {
            use_type_invariant(self);
        }
        let n: usize = self.challenges.len();
        let ghost rows = self.challenges.rows();
        let mut r: Vec<OtpChallengeInfo> = Vec::new();
        let ghost mut from: Seq<int> = Seq::empty();
        let mut k: usize = 0;
        while k < n
            invariant
                k <= n,
                n == rows.len(),
                rows == self.challenges.rows(),
                table::distinct_keys(rows),
                self@.wf(),
                in_time(self.challenges@),
                now <= clock::LAST_TICK,
                -clock::LAST_TICK <= wall <= clock::LAST_TICK,
                from.len() == r@.len(),
                forall|i: int| 0 <= i < from.len() ==> 0 <= #[trigger] from[i] < k,
                forall|i: int, j: int| 0 <= i < j < from.len() ==> from[i] < from[j],
                forall|i: int|
                    0 <= i < r@.len() ==> {
                        &&& (#[trigger] r@[i])@.peer_id == rows[from[i]].0
                        &&& self@.pending(r@[i]@.peer_id, now as nat)
                        &&& r@[i]@ == self@.info(r@[i]@.peer_id, now as nat, wall as int)
                    },
                forall|j: int|
                    0 <= j < k && self@.pending((#[trigger] rows[j]).0, now as nat)
                        ==> exists|i: int| 0 <= i < from.len() && #[trigger] from[i] == j,
            decreases n - k,
        {
            let (peer_id, c) = self.challenges.row(k);
            proof {
                table::lemma_row(rows, k as int);
                assert(self.challenges@.contains_key(peer_id@));
                assert(self@.challenges.contains_key(peer_id@));
                assert(self@.challenges[peer_id@] == c@);
            }
            let ghost before = from;
            if now < c.expires_at {
                let info = OtpChallengeInfo {
                    peer_id: c.peer_id.clone(),
                    username: text::opt_clone(&c.username),
                    sender_name: text::opt_clone(&c.sender_name),
                    code: c.code.clone(),
                    expires_at: clock::deadline_since_epoch(wall, c.expires_at - now),
                };
                r.push(info);
                proof {
                    from = from.push(k as int);
                    assert(from[from.len() - 1] == k);
                }
            }
            proof {
                assert forall|j: int|
                    0 <= j < k + 1 && self@.pending(
                        (#[trigger] rows[j]).0,
                        now as nat,
                    ) implies exists|i: int| 0 <= i < from.len() && #[trigger] from[i] == j by {
                    if j < k {
                        let i = choose|i: int| 0 <= i < before.len() && #[trigger] before[i] == j;
                        assert(from[i] == j);
                    } else {
                        assert(from[from.len() - 1] == j);
                    }
                }
            }
            k = k + 1;
        }
        proof {
            let infos = info_views(r@);
            assert forall|p: Seq<char>| self@.pending(p, now as nat) implies exists|i: int|
                0 <= i < infos.len() && (#[trigger] infos[i]).peer_id == p by {
                let j = choose|j: int| table::is_row_of(rows, p, j);
                assert(rows[j].0 == p);
                let i = choose|i: int| 0 <= i < from.len() && #[trigger] from[i] == j;
                assert(infos[i] == r@[i]@);
            }
            assert forall|i: int, j: int| 0 <= i < j < infos.len() implies infos[i].peer_id
                != infos[j].peer_id by {
                assert(infos[i] == r@[i]@);
                assert(infos[j] == r@[j]@);
                assert(from[i] < from[j]);
            }
        }
        r
    }

    /// The challenges that have not expired.
    #[must_use]
    pub fn list_pending(&self) -> (r: Vec<OtpChallengeInfo>)
        ensures
            exists|now: nat, wall: int|
                now <= clock::LAST_TICK && -clock::LAST_TICK <= wall <= clock::LAST_TICK
                    && #[trigger] self@.lists_pending(info_views(r@), now, wall),
    {
        let now = self.clock.now();
        let wall = clock::wall_clock();
        let r = self.list_pending_at(now, wall);
        proof {
            assert(self@.lists_pending(
                info_views(r@),
                now as nat,
                wall as int,
            ));
        }
        r
    }

    /// Removes the challenges that have expired and the lockouts that have
    /// elapsed at the moment `now`.
    pub fn evict_expired_at(&mut self, now: u128)
        ensures
            final(self)@ == old(self)@.evict(now as nat),
            final(self).clock() == old(self).clock(),
            old(self)@.wf() && final(self)@.wf(),
    {
        proof {
            use_type_invariant(&*self);
        }
        let mut challenges: Table<OtpChallenge> = Table::new();
        std::mem::swap(&mut challenges, &mut self.challenges);
        let mut lockouts: Table<Lockout> = Table::new();
        std::mem::swap(&mut lockouts, &mut self.lockouts);
        let ghost was_challenges = challenges@;
        let ghost was_lockouts = lockouts@;
        let ghost before = model(was_challenges, was_lockouts, self.cooldown_secs);
        drop_expired(&mut challenges, now);
        drop_elapsed(&mut lockouts, now);
        proof {
            let m = model(challenges@, lockouts@, self.cooldown_secs);
            assert(m.challenges =~= before.evict(now as nat).challenges);
            assert(m.lockouts =~= before.evict(now as nat).lockouts);
            assert(m.wf());
        }
        self.lockouts = lockouts;
        self.challenges = challenges;
    }

    /// Removes expired challenges and elapsed lockouts.
    pub fn evict_expired(&mut self)
        ensures
            exists|now: nat|
                now <= clock::LAST_TICK && final(self)@ == #[trigger] old(self)@.evict(now),
            final(self).clock() == old(self).clock(),
            old(self)@.wf() && final(self)@.wf(),
    {
        let now = self.clock.now();
        self.evict_expired_at(now);
        proof {
            assert(self@ == old(self)@.evict(now as nat));
        }
    }
}

/// Removes the challenges that have expired at the moment `now`.
fn drop_expired(challenges: &mut Table<OtpChallenge>, now: u128)
    ensures
        final(challenges)@ == old(challenges)@.restrict(
            Set::new(
                |p: Seq<char>|
                    old(challenges)@.contains_key(p) && now < old(challenges)@[p].expires_at,
            ),
        ),
{
    let ghost was = challenges@;
    let mut i: usize = 0;
    let mut n: usize = challenges.len();
    while i < n
        invariant
            i <= n,
            n == challenges.rows().len(),
            table::distinct_keys(challenges.rows()),
            challenges@.submap_of(was),
            forall|p: Seq<char>|
                was.contains_key(p) && now < was[p].expires_at ==> #[trigger]
                    challenges@.contains_key(p),
            forall|j: int|
                0 <= j < i ==> now < (#[trigger] challenges.rows()[j]).1.expires_at,
        decreases n - i,
    {
        let ghost rows = challenges.rows();
        let (_, c) = challenges.row(i);
        if now < c.expires_at {
            i = i + 1;
        } else {
            proof {
                table::lemma_row(rows, i as int);
            }
            challenges.remove_row(i);
            n = challenges.len();
            proof {
                assert forall|j: int| 0 <= j < i implies now < (
                #[trigger] challenges.rows()[j]).1.expires_at by {
                    assert(challenges.rows()[j] == rows[j]);
                }
            }
        }
    }
    proof {
        let rows = challenges.rows();
        assert forall|p: Seq<char>| challenges@.contains_key(p) implies now
            < challenges@[p].expires_at by {
            let j = choose|j: int| table::is_row_of(rows, p, j);
            table::lemma_row(rows, j);
        }
        assert(challenges@ =~= was.restrict(
            Set::new(|p: Seq<char>| was.contains_key(p) && now < was[p].expires_at),
        ));
    }
}

/// Removes the lockouts that have elapsed at the moment `now`.
fn drop_elapsed(lockouts: &mut Table<Lockout>, now: u128)
    ensures
        final(lockouts)@ == old(lockouts)@.restrict(
            Set::new(
                |p: Seq<char>| old(lockouts)@.contains_key(p) && now < old(lockouts)@[p].until,
            ),
        ),
{
    let ghost was = lockouts@;
    let mut i: usize = 0;
    let mut n: usize = lockouts.len();
    while i < n
        invariant
            i <= n,
            n == lockouts.rows().len(),
            table::distinct_keys(lockouts.rows()),
            lockouts@.submap_of(was),
            forall|p: Seq<char>|
                was.contains_key(p) && now < was[p].until ==> #[trigger]
                    lockouts@.contains_key(p),
            forall|j: int| 0 <= j < i ==> now < (#[trigger] lockouts.rows()[j]).1.until,
        decreases n - i,
    {
        let ghost rows = lockouts.rows();
        let (_, l) = lockouts.row(i);
        if now < l.until {
            i = i + 1;
        } else {
            proof {
                table::lemma_row(rows, i as int);
            }
            lockouts.remove_row(i);
            n = lockouts.len();
            proof {
                assert forall|j: int| 0 <= j < i implies now < (
                #[trigger] lockouts.rows()[j]).1.until by {
                    assert(lockouts.rows()[j] == rows[j]);
                }
            }
        }
    }
    proof {
        let rows = lockouts.rows();
        assert forall|p: Seq<char>| lockouts@.contains_key(p) implies now
            < lockouts@[p].until by {
            let j = choose|j: int| table::is_row_of(rows, p, j);
            table::lemma_row(rows, j);
        }
        assert(lockouts@ =~= was.restrict(
            Set::new(|p: Seq<char>| was.contains_key(p) && now < was[p].until),
        ));
    }
}

// ---------------------------------------------------------------------------
// Laws
// ---------------------------------------------------------------------------

/// Every operation keeps what holds of every state.
pub proof fn law_operations_keep_states_well_formed(
    s: OtpModel,
    peer: Seq<char>,
    username: Option<Seq<char>>,
    sender_name: Option<Seq<char>>,
    code: Seq<char>,
    now: nat,
)
    requires
        s.wf(),
    ensures
        s.initiate(peer, username, sender_name, now, code).0.wf(),
        s.verify(peer, code, now).0.wf(),
        s.evict(now).wf(),
{
    assert(s.challenges.contains_key(peer) ==> s.challenges[peer].attempts < MAX_ATTEMPTS);
}

/// A code that was handed out approves its peer until it expires, once.
pub proof fn law_right_code_approves(
    s: OtpModel,
    peer: Seq<char>,
    username: Option<Seq<char>>,
    sender_name: Option<Seq<char>>,
    code: Seq<char>,
    now: nat,
    later: nat,
)
    requires
        !s.locked(peer, now),
        !s.pending(peer, now),
        now <= later < now + OTP_TTL,
    ensures
        ({
            let (asked, init) = s.initiate(peer, username, sender_name, now, code);
            let (answered, result) = asked.verify(peer, code, later);
            &&& init == InitModel::Created(code)
            &&& asked.pending(peer, later)
            &&& result is Approved
            &&& forall|t: nat| !answered.pending(peer, t)
            &&& forall|again: Seq<char>, t: nat| #[trigger]
                answered.verify(peer, again, t).1 is NoPending
        }),
{
}

/// A code that has expired approves nobody; the next request gets a new one.
pub proof fn law_code_expires(
    s: OtpModel,
    peer: Seq<char>,
    username: Option<Seq<char>>,
    sender_name: Option<Seq<char>>,
    code: Seq<char>,
    next: Seq<char>,
    now: nat,
    later: nat,
)
    requires
        !s.locked(peer, now),
        !s.pending(peer, now),
        now + OTP_TTL <= later,
    ensures
        ({
            let asked = s.initiate(peer, username, sender_name, now, code).0;
            &&& asked.verify(peer, code, later).1 is Expired
            &&& asked.initiate(peer, username, sender_name, later, next).1 == InitModel::Created(
                next,
            )
        }),
{
}

/// Only the code of the peer's own pending challenge approves.
pub proof fn law_only_right_code_approves(
    s: OtpModel,
    peer: Seq<char>,
    code: Seq<char>,
    now: nat,
)
    ensures
        s.verify(peer, code, now).1 is Approved <==> !s.locked(peer, now) && s.pending(peer, now)
            && code == s.challenges[peer].code,
{
}

/// Wrong answers before the code expires count down, and the third locks the
/// peer out for the cooldown.
pub proof fn law_three_wrong_codes_lock_out(
    s: OtpModel,
    peer: Seq<char>,
    username: Option<Seq<char>>,
    sender_name: Option<Seq<char>>,
    code: Seq<char>,
    wrong: Seq<Seq<char>>,
    now: nat,
    times: Seq<nat>,
)
    requires
        !s.locked(peer, now),
        !s.pending(peer, now),
        wrong.len() == 3,
        times.len() == 3,
        forall|i: int| 0 <= i < 3 ==> wrong[i] != code,
        forall|i: int| 0 <= i < 3 ==> times[i] < now + OTP_TTL,
    ensures
        ({
            let asked = s.initiate(peer, username, sender_name, now, code).0;
            let (one, first) = asked.verify(peer, wrong[0], times[0]);
            let (two, second) = one.verify(peer, wrong[1], times[1]);
            let (three, third) = two.verify(peer, wrong[2], times[2]);
            &&& first == (OtpVerifyResult::WrongCode { attempts_left: 2 })
            &&& second == (OtpVerifyResult::WrongCode { attempts_left: 1 })
            &&& third is LockedOut
            &&& forall|t: nat| #[trigger]
                three.locked(peer, t) <==> t < times[2] + s.cooldown
        }),
{
    assert(wrong[0] != code && wrong[1] != code && wrong[2] != code);
    assert(times[0] < now + OTP_TTL && times[1] < now + OTP_TTL && times[2] < now + OTP_TTL);
}

/// While a peer is locked out, nothing that the peer sends changes anything.
pub proof fn law_lockout_holds(
    s: OtpModel,
    peer: Seq<char>,
    username: Option<Seq<char>>,
    sender_name: Option<Seq<char>>,
    code: Seq<char>,
    now: nat,
)
    requires
        s.locked(peer, now),
    ensures
        s.initiate(peer, username, sender_name, now, code) == (s, InitModel::LockedOut),
        s.verify(peer, code, now) == (s, OtpVerifyResult::LockedOut),
{
}

/// What one peer does leaves the challenges and lockouts of the others alone.
pub proof fn law_peers_are_apart(
    s: OtpModel,
    peer: Seq<char>,
    other: Seq<char>,
    username: Option<Seq<char>>,
    sender_name: Option<Seq<char>>,
    code: Seq<char>,
    now: nat,
    t: nat,
)
    requires
        peer != other,
    ensures
        ({
            let asked = s.initiate(peer, username, sender_name, now, code).0;
            let answered = s.verify(peer, code, now).0;
            &&& asked.pending(other, t) == s.pending(other, t)
            &&& asked.locked(other, t) == s.locked(other, t)
            &&& asked.challenges.contains_key(other) == s.challenges.contains_key(other)
            &&& asked.challenges[other] == s.challenges[other]
            &&& answered.pending(other, t) == s.pending(other, t)
            &&& answered.locked(other, t) == s.locked(other, t)
            &&& answered.challenges.contains_key(other) == s.challenges.contains_key(other)
            &&& answered.challenges[other] == s.challenges[other]
        }),
{
}

/// Eviction changes nothing that counts later: who has a challenge, who is
/// locked out, what a request for a challenge comes to and what a code comes
/// to, but that an answer to an expired code may find no challenge any more.
pub proof fn law_eviction_is_silent(
    s: OtpModel,
    now: nat,
    t: nat,
    peer: Seq<char>,
    username: Option<Seq<char>>,
    sender_name: Option<Seq<char>>,
    code: Seq<char>,
)
    requires
        now <= t,
    ensures
        s.evict(now).pending(peer, t) == s.pending(peer, t),
        s.evict(now).locked(peer, t) == s.locked(peer, t),
        s.evict(now).initiate(peer, username, sender_name, t, code).1 == s.initiate(
            peer,
            username,
            sender_name,
            t,
            code,
        ).1,
        s.verify(peer, code, t).1 is Expired ==> {
            let result = s.evict(now).verify(peer, code, t).1;
            result is Expired || result is NoPending
        },
        !(s.verify(peer, code, t).1 is Expired) ==> s.evict(now).verify(peer, code, t).1
            == s.verify(peer, code, t).1,
{
}

/// A code that is handed out has six digits.
pub proof fn law_codes_have_six_digits(code: Seq<char>)
    requires
        is_otp_code(code),
    ensures
        code.len() == 6,
        forall|i: int| 0 <= i < 6 ==> decimal::is_digit(#[trigger] code[i]),
{
    let n = choose|n: nat| CODE_MIN <= n < CODE_END && code == #[trigger] decimal::decimal(n);
    decimal::lemma_six_digits(n);
    decimal::lemma_decimal_digits(n);
}

// ---------------------------------------------------------------------------
// Histories
// ---------------------------------------------------------------------------

/// What is asked of a state.
pub enum OtpCall {
    Initiate {
        peer: Seq<char>,
        username: Option<Seq<char>>,
        sender_name: Option<Seq<char>>,
        code: Seq<char>,
    },
    Verify { peer: Seq<char>, code: Seq<char> },
    Evict,
}

/// The calls that were made of a new state, each with its moment.
pub struct History {
    pub cooldown: nat,
    pub calls: Seq<(nat, OtpCall)>,
}

impl History {
    /// The history before its last call.
    pub open spec fn earlier(self) -> History {
        History { cooldown: self.cooldown, calls: self.calls.drop_last() }
    }

    /// The moment of the last call.
    pub open spec fn end(self) -> nat {
        if self.calls.len() == 0 {
            0
        } else {
            self.calls.last().0
        }
    }

    /// Whether the moments do not go back and every code that was handed in for
    /// a new challenge is one that can be handed out.
    pub open spec fn is_possible(self) -> bool {
        &&& forall|i: int, j: int|
            0 <= i < j < self.calls.len() ==> (#[trigger] self.calls[i]).0 <= (
            #[trigger] self.calls[j]).0
        &&& forall|i: int|
            0 <= i < self.calls.len() ==> ((#[trigger] self.calls[i]).1 matches OtpCall::Initiate {
                code,
                ..
            } ==> is_otp_code(code))
    }

    /// The state that the calls lead to, from a state without challenges and
    /// lockouts.
    pub open spec fn state(self) -> OtpModel
        decreases self.calls.len(),
    {
        if self.calls.len() == 0 {
            OtpModel {
                challenges: Map::empty(),
                lockouts: Map::empty(),
                cooldown: self.cooldown,
            }
        } else {
            let before = self.earlier().state();
            let (now, call) = self.calls.last();
            match call {
                OtpCall::Initiate { peer, username, sender_name, code } => before.initiate(
                    peer,
                    username,
                    sender_name,
                    now,
                    code,
                ).0,
                OtpCall::Verify { peer, code } => before.verify(peer, code, now).0,
                OtpCall::Evict => before.evict(now),
            }
        }
    }

    /// Whether the last call created a challenge for `peer`.
    pub open spec fn creates(self, peer: Seq<char>) -> bool {
        let before = self.earlier().state();
        let (now, call) = self.calls.last();
        call matches OtpCall::Initiate { peer: p, username, sender_name, code } && p == peer
            && before.initiate(p, username, sender_name, now, code).1 is Created
    }

    /// Whether the last call approved `peer` or found it locked out.
    pub open spec fn settles(self, peer: Seq<char>) -> bool {
        let before = self.earlier().state();
        let (now, call) = self.calls.last();
        call matches OtpCall::Verify { peer: p, code } && p == peer && {
            let result = before.verify(p, code, now).1;
            result is Approved || result is LockedOut
        }
    }

    /// The call by which the latest challenge of `peer` was created, and its
    /// moment, unless an answer of `peer` since then came to an approval or a
    /// lockout.
    pub open spec fn opening(self, peer: Seq<char>) -> Option<(nat, OtpCall)>
        decreases self.calls.len(),
    {
        if self.calls.len() == 0 {
            None
        } else if self.creates(peer) {
            Some(self.calls.last())
        } else if self.settles(peer) {
            None
        } else {
            self.earlier().opening(peer)
        }
    }

    /// How many wrong answers `peer` has given since the latest challenge of
    /// `peer` was created.
    pub open spec fn wrong_answers(self, peer: Seq<char>) -> nat
        decreases self.calls.len(),
    {
        if self.calls.len() == 0 || self.creates(peer) {
            0
        } else {
            let before = self.earlier().state();
            let (now, call) = self.calls.last();
            let wrong = call matches OtpCall::Verify { peer: p, code } && p == peer
                && before.verify(p, code, now).1 is WrongCode;
            self.earlier().wrong_answers(peer) + (if wrong {
                1nat
            } else {
                0nat
            })
        }
    }

    /// The moment at which an answer of `peer` last led to a lockout.
    pub open spec fn lockout_at(self, peer: Seq<char>) -> Option<nat>
        decreases self.calls.len(),
    {
        if self.calls.len() == 0 {
            None
        } else {
            let before = self.earlier().state();
            let (now, call) = self.calls.last();
            let locks = call matches OtpCall::Verify { peer: p, code } && p == peer
                && !before.locked(p, now) && before.verify(p, code, now).1 is LockedOut;
            if locks {
                Some(now)
            } else {
                self.earlier().lockout_at(peer)
            }
        }
    }
}

proof fn lemma_earlier(h: History)
    requires
        h.is_possible(),
        h.calls.len() > 0,
    ensures
        h.earlier().is_possible(),
        h.earlier().end() <= h.end(),
{
    let n = h.calls.len() - 1;
    assert forall|i: int| 0 <= i < n implies h.earlier().calls[i] == h.calls[i] by {}
    if n > 0 {
        assert(h.earlier().calls.last() == h.calls[n - 1]);
        assert(h.calls[n - 1].0 <= h.calls[n].0);
    }
}

/// In every state that calls can lead to, each challenge is kept under its own
/// peer, has at most two wrong answers, a code that can be handed out, which has
/// six digits, and ends within five minutes of the last call; and no peer is
/// ever pending and locked out at once.
pub proof fn law_reachable_states(h: History)
    requires
        h.is_possible(),
    ensures
        h.state().wf(),
        h.state().cooldown == h.cooldown,
        forall|p: Seq<char>| #[trigger]
            h.state().challenges.contains_key(p) ==> {
                let c = h.state().challenges[p];
                &&& c.peer_id == p
                &&& c.attempts <= 2
                &&& is_otp_code(c.code)
                &&& c.expires_at <= h.end() + OTP_TTL
                &&& !h.state().lockouts.contains_key(p)
            },
        forall|p: Seq<char>, t: nat, u: nat|
            !(#[trigger] h.state().pending(p, t) && #[trigger] h.state().locked(p, u)),
    decreases h.calls.len(),
{
    if h.calls.len() > 0 {
        lemma_earlier(h);
        law_reachable_states(h.earlier());
        let before = h.earlier().state();
        let (now, call) = h.calls.last();
        assert(h.calls[h.calls.len() - 1] == (now, call));
        match call {
            OtpCall::Initiate { peer, username, sender_name, code } => {
                assert(is_otp_code(code));
            },
            OtpCall::Verify { peer, code } => {
                assert(before.challenges.contains_key(peer) ==> before.challenges[peer].attempts
                    <= 2);
            },
            OtpCall::Evict => {},
        }
    }
}

/// Whether `c` is the challenge of `peer` that `opening` created.
pub open spec fn is_opened_by(c: ChallengeModel, peer: Seq<char>, opening: (nat, OtpCall)) -> bool {
    let (at, call) = opening;
    &&& call matches OtpCall::Initiate { peer: p, username, sender_name, code }
    &&& p == peer
    &&& c.peer_id == peer
    &&& c.username == username
    &&& c.sender_name == sender_name
    &&& c.code == code
    &&& c.expires_at == at + OTP_TTL
}

proof fn lemma_opening(h: History, peer: Seq<char>)
    requires
        h.is_possible(),
    ensures
        h.state().challenges.contains_key(peer) ==> (h.opening(peer) matches Some(o)
            && is_opened_by(h.state().challenges[peer], peer, o)),
        !h.state().challenges.contains_key(peer) ==> (h.opening(peer) matches Some(o) ==> o.0
            + OTP_TTL <= h.end()),
    decreases h.calls.len(),
{
    if h.calls.len() > 0 {
        lemma_earlier(h);
        lemma_opening(h.earlier(), peer);
        law_reachable_states(h.earlier());
    }
}

/// After any calls, and no earlier than the last of them, a peer has a pending
/// challenge exactly where the latest that was created for the peer is younger
/// than five minutes and no answer of the peer since then came to an approval or
/// a lockout. What other peers did has no part in it.
pub proof fn law_pending_is_its_history(h: History, peer: Seq<char>, now: nat)
    requires
        h.is_possible(),
        h.end() <= now,
    ensures
        h.state().pending(peer, now) <==> (h.opening(peer) matches Some(o) && now < o.0 + OTP_TTL),
{
    lemma_opening(h, peer);
}

/// After any calls, each challenge that is listed has the names and the code of
/// the call that created it.
pub proof fn law_listed_as_created(
    h: History,
    infos: Seq<InfoModel>,
    now: nat,
    wall: int,
    i: int,
)
    requires
        h.is_possible(),
        h.state().lists_pending(infos, now, wall),
        0 <= i < infos.len(),
    ensures
        ({
            let info = infos[i];
            &&& h.opening(info.peer_id) matches Some((at, OtpCall::Initiate {
                peer,
                username,
                sender_name,
                code,
            }))
            &&& peer == info.peer_id
            &&& info.username == username
            &&& info.sender_name == sender_name
            &&& info.code == code
            &&& info.expires_at == clock::epoch_deadline(wall, at + OTP_TTL - now)
        }),
{
    assert(h.state().pending(infos[i].peer_id, now));
    lemma_opening(h, infos[i].peer_id);
}

proof fn lemma_wrong_answers(h: History, peer: Seq<char>)
    requires
        h.is_possible(),
        h.state().challenges.contains_key(peer),
    ensures
        h.state().challenges[peer].attempts == h.wrong_answers(peer),
    decreases h.calls.len(),
{
    if h.calls.len() > 0 {
        lemma_earlier(h);
        law_reachable_states(h.earlier());
        if h.earlier().state().challenges.contains_key(peer) {
            lemma_wrong_answers(h.earlier(), peer);
        }
    }
}

/// Whatever else is called in between, every wrong answer of a peer counts: the
/// first two to a challenge leave two attempts and one, the third locks the peer
/// out for the cooldown.
pub proof fn law_every_wrong_answer_counts(
    h: History,
    peer: Seq<char>,
    answer: Seq<char>,
    now: nat,
)
    requires
        h.is_possible(),
        h.end() <= now,
        h.state().pending(peer, now),
        answer != h.state().challenges[peer].code,
    ensures
        ({
            let n = h.wrong_answers(peer);
            let (after, result) = h.state().verify(peer, answer, now);
            &&& n <= 2
            &&& n < 2 ==> result == (OtpVerifyResult::WrongCode { attempts_left: (2 - n) as u32 })
            &&& n < 2 ==> after.pending(peer, now)
            &&& n == 2 ==> result is LockedOut
            &&& n == 2 ==> forall|t: nat| #[trigger]
                after.locked(peer, t) <==> t < now + h.cooldown
        }),
{
    law_reachable_states(h);
    lemma_wrong_answers(h, peer);
}

proof fn lemma_lockout_at(h: History, peer: Seq<char>)
    requires
        h.is_possible(),
    ensures
        h.state().lockouts.contains_key(peer) ==> (h.lockout_at(peer) matches Some(t)
            && h.state().lockouts[peer] == t + h.cooldown),
        !h.state().lockouts.contains_key(peer) ==> (h.lockout_at(peer) matches Some(t) ==> t
            + h.cooldown <= h.end()),
    decreases h.calls.len(),
{
    if h.calls.len() > 0 {
        lemma_earlier(h);
        lemma_lockout_at(h.earlier(), peer);
        law_reachable_states(h.earlier());
    }
}

/// After any calls, and no earlier than the last of them, a peer is locked out
/// exactly where an answer of the peer led to a lockout and the cooldown since
/// then is not over.
pub proof fn law_lockout_is_its_history(h: History, peer: Seq<char>, now: nat)
    requires
        h.is_possible(),
        h.end() <= now,
    ensures
        h.state().locked(peer, now) <==> (h.lockout_at(peer) matches Some(t) && now < t + h.cooldown),
{
    lemma_lockout_at(h, peer);
}

/// A list of pending challenges holds every pending challenge, and no other, and
/// each once.
pub proof fn law_listing_is_complete(
    s: OtpModel,
    infos: Seq<InfoModel>,
    now: nat,
    wall: int,
    peer: Seq<char>,
)
    requires
        s.lists_pending(infos, now, wall),
        s.wf(),
    ensures
        s.pending(peer, now) <==> exists|i: int|
            0 <= i < infos.len() && (#[trigger] infos[i]).peer_id == peer,
        forall|i: int, j: int|
            0 <= i < infos.len() && 0 <= j < infos.len() && (#[trigger] infos[i]).peer_id == (
            #[trigger] infos[j]).peer_id ==> i == j,
{
}

/// What is listed holds what it says.
pub proof fn law_listed_say_what_they_hold(infos: Seq<OtpChallengeInfo>, i: int)
    requires
        0 <= i < infos.len(),
    ensures
        info_views(infos).len() == infos.len(),
        info_views(infos)[i].peer_id == infos[i].peer_id@,
        info_views(infos)[i].username == text::opt_view(infos[i].username),
        info_views(infos)[i].sender_name == text::opt_view(infos[i].sender_name),
        info_views(infos)[i].code == infos[i].code@,
        info_views(infos)[i].expires_at == infos[i].expires_at,
{
}

/// A request for a challenge is refused to a peer that is locked out, changes
/// nothing of a challenge that is pending, and otherwise creates one with the
/// given code and names, which ends five minutes later.
pub proof fn law_requests(
    s: OtpModel,
    peer: Seq<char>,
    username: Option<Seq<char>>,
    sender_name: Option<Seq<char>>,
    now: nat,
    code: Seq<char>,
)
    requires
        s.wf(),
    ensures
        ({
            let (after, result) = s.initiate(peer, username, sender_name, now, code);
            &&& result is LockedOut <==> s.locked(peer, now)
            &&& result is AlreadyPending <==> s.pending(peer, now)
            &&& result is AlreadyPending ==> after.challenges == s.challenges
            &&& result is Created ==> {
                let c = after.challenges[peer];
                &&& result == InitModel::Created(code)
                &&& after.challenges.contains_key(peer)
                &&& c.code == code && c.peer_id == peer
                &&& c.username == username && c.sender_name == sender_name
                &&& c.expires_at == now + 300_000_000_000
                &&& c.attempts == 0
            }
            &&& after.cooldown == s.cooldown
        }),
{
}

/// What a request comes to holds what it says.
pub proof fn law_requests_say_what_they_hold(r: OtpInitResult)
    ensures
        r matches OtpInitResult::Created(code) ==> r@ == InitModel::Created(code@),
        r is AlreadyPending <==> r@ is AlreadyPending,
        r is LockedOut <==> r@ is LockedOut,
{
}

/// An answer without a challenge finds none. One that comes too late ends its
/// challenge, as does the right one and the third wrong one; an earlier wrong one
/// leaves the challenge as it is, with one more wrong answer. A lockout that is
/// over goes.
pub proof fn law_answers(s: OtpModel, peer: Seq<char>, answer: Seq<char>, now: nat)
    requires
        s.wf(),
        !s.locked(peer, now),
    ensures
        ({
            let (after, result) = s.verify(peer, answer, now);
            let c = s.challenges[peer];
            &&& result is NoPending <==> !s.challenges.contains_key(peer)
            &&& result is Expired <==> s.challenges.contains_key(peer) && c.expires_at <= now
            &&& result is Approved <==> s.challenges.contains_key(peer) && now < c.expires_at
                && answer == c.code
            &&& result is WrongCode <==> s.challenges.contains_key(peer) && now < c.expires_at
                && answer != c.code && c.attempts < 2
            &&& result is WrongCode ==> after.challenges == s.challenges.insert(
                peer,
                ChallengeModel { attempts: c.attempts + 1, ..c },
            )
            &&& !(result is WrongCode) ==> after.challenges == s.challenges.remove(peer)
            &&& result is LockedOut ==> after.lockouts == s.lockouts.insert(peer, now + s.cooldown)
            &&& !(result is LockedOut) ==> after.lockouts == s.lockouts.remove(peer)
            &&& after.cooldown == s.cooldown
        }),
{
    let after = s.verify(peer, answer, now).0;
    if !s.challenges.contains_key(peer) {
        assert(s.challenges.remove(peer) =~= s.challenges);
    }
    assert(s.lockouts.remove(peer).insert(peer, now + s.cooldown) =~= s.lockouts.insert(
        peer,
        now + s.cooldown,
    ));
}

/// Eviction leaves no challenge that has expired and no lockout that is over, and
/// every other as it is.
pub proof fn law_eviction_is_complete(s: OtpModel, now: nat, peer: Seq<char>)
    ensures
        ({
            let left = s.evict(now);
            &&& left.challenges.contains_key(peer) <==> s.challenges.contains_key(peer) && now
                < s.challenges[peer].expires_at
            &&& left.challenges.contains_key(peer) ==> left.challenges[peer] == s.challenges[peer]
            &&& left.lockouts.contains_key(peer) <==> s.lockouts.contains_key(peer) && now
                < s.lockouts[peer]
            &&& left.lockouts.contains_key(peer) ==> left.lockouts[peer] == s.lockouts[peer]
            &&& left.cooldown == s.cooldown
        }),
{
}

/// Every number of six digits is a code that can be handed out, and no other
/// number is.
pub proof fn law_which_numbers_are_codes(n: nat)
    ensures
        is_otp_code(decimal::decimal(n)) <==> 100_000 <= n <= 999_999,
{
    decimal::law_decimal_reads_back(n);
    if is_otp_code(decimal::decimal(n)) {
        let m = choose|m: nat|
            CODE_MIN <= m < CODE_END && decimal::decimal(n) == #[trigger] decimal::decimal(m);
        decimal::law_decimal_reads_back(m);
    }
}

} // verus!
