use vstd::prelude::*;

verus! {

/// The mathematical content of a stored session.
pub ghost struct SessionRecord {
    pub wallet: Seq<char>,
    pub session_token: Seq<char>,
    pub created_at: u64,
    pub expires_at: u64,
    pub is_valid: bool,
}

/// The session kept in the single storage slot.
#[derive(Clone, Debug, PartialEq, Eq)]
pub struct SessionInfo {
    pub wallet: String,
    pub session_token: String,
    pub created_at: u64,
    pub expires_at: u64,
    pub is_valid: bool,
}

impl View for SessionInfo {
    type V = SessionRecord;

    open spec fn view(&self) -> SessionRecord {
        SessionRecord {
            wallet: self.wallet@,
            session_token: self.session_token@,
            created_at: self.created_at,
            expires_at: self.expires_at,
            is_valid: self.is_valid,
        }
    }
}

impl SessionInfo {
    /// A field-by-field copy.
    pub fn duplicate(&self) -> (r: SessionInfo)
        ensures
            r@ == self@,
    {
        SessionInfo {
            wallet: self.wallet.clone(),
            session_token: self.session_token.clone(),
            created_at: self.created_at,
            expires_at: self.expires_at,
            is_valid: self.is_valid,
        }
    }
}

/// What a lifecycle event announces.
pub ghost enum EventRecord {
    Created { wallet: Seq<char>, session_token: Seq<char>, expires_at: u64 },
    Verified { wallet: Seq<char>, created_at: u64 },
    Revoked { wallet: Seq<char>, at: u64 },
}

/// A lifecycle event, queued for the host to publish under the topic
/// `session_created`, `session_verified` or `session_revoked`.
#[derive(Clone, Debug, PartialEq, Eq)]
pub enum SessionEvent {
    Created { wallet: String, session_token: String, expires_at: u64 },
    Verified { wallet: String, created_at: u64 },
    Revoked { wallet: String, at: u64 },
}

impl View for SessionEvent {
    type V = EventRecord;

    open spec fn view(&self) -> EventRecord {
        match self {
            SessionEvent::Created { wallet, session_token, expires_at } => EventRecord::Created {
                wallet: wallet@,
                session_token: session_token@,
                expires_at: *expires_at,
            },
            SessionEvent::Verified { wallet, created_at } => EventRecord::Verified {
                wallet: wallet@,
                created_at: *created_at,
            },
            SessionEvent::Revoked { wallet, at } => EventRecord::Revoked { wallet: wallet@, at: *at },
        }
    }
}

/// Why an operation was refused. A refused operation changes nothing.
#[derive(Clone, Copy, Debug, PartialEq, Eq, Structural)]
pub enum SessionError {
    /// The caller may not act for the wallet.
    Unauthorized,
    /// The requested expiry is not strictly after the current time.
    InvalidExpiry,
}

/// The observable state of a contract: its storage slot and the events queued
/// so far.
pub ghost struct ContractState {
    pub slot: Option<SessionRecord>,
    pub events: Seq<EventRecord>,
}

pub open spec fn slot_view(s: Option<SessionInfo>) -> Option<SessionRecord> {
    match s {
        Some(info) => Some(info@),
        None => None,
    }
}

/// The session that a successful creation stores.
pub open spec fn fresh_record(wallet: Seq<char>, token: Seq<char>, now: u64, expires_at: u64) -> SessionRecord {
    SessionRecord { wallet, session_token: token, created_at: now, expires_at, is_valid: true }
}

/// The slot holds a session of `wallet`.
pub open spec fn owned_by(slot: Option<SessionRecord>, wallet: Seq<char>) -> bool {
    slot is Some && slot->0.wallet == wallet
}

/// Verification succeeds: a session of `wallet` with `token` is stored, it
/// has not expired at `now`, and it has not been invalidated.
pub open spec fn accepts(slot: Option<SessionRecord>, wallet: Seq<char>, token: Seq<char>, now: u64) -> bool {
    match slot {
        Some(s) => s.wallet == wallet && s.session_token == token && now <= s.expires_at && s.is_valid,
        None => false,
    }
}

/// Seconds left before the session of `wallet` expires; 0 when it has
/// expired or when no session of `wallet` is stored.
pub open spec fn remaining(slot: Option<SessionRecord>, wallet: Seq<char>, now: u64) -> u64 {
    if owned_by(slot, wallet) && now <= slot->0.expires_at {
        (slot->0.expires_at - now) as u64
    } else {
        0
    }
}

/// The slot holds a session past its expiry that is still marked valid.
pub open spec fn expired_valid(slot: Option<SessionRecord>, now: u64) -> bool {
    slot is Some && now > slot->0.expires_at && slot->0.is_valid
}

/// The slot with its session marked invalid.
pub open spec fn invalidated(slot: Option<SessionRecord>) -> Option<SessionRecord> {
    match slot {
        Some(s) => Some(SessionRecord { is_valid: false, ..s }),
        None => None,
    }
}

/// The slot after a revocation by `wallet`.
pub open spec fn after_revoke(slot: Option<SessionRecord>, wallet: Seq<char>) -> Option<SessionRecord> {
    if owned_by(slot, wallet) {
        invalidated(slot)
    } else {
        slot
    }
}

/// The slot after an expiry cleanup at `now`.
pub open spec fn after_cleanup(slot: Option<SessionRecord>, now: u64) -> Option<SessionRecord> {
    if expired_valid(slot, now) {
        invalidated(slot)
    } else {
        slot
    }
}

/// Manages the one session slot of the system.
pub struct SessionContract {
    session: Option<SessionInfo>,
    events: Vec<SessionEvent>,
}

impl View for SessionContract {
    type V = ContractState;

    closed spec fn view(&self) -> ContractState {
        ContractState {
            slot: slot_view(self.session),
            events: self.events@.map_values(|e: SessionEvent| e@),
        }
    }
}

impl SessionContract {
    /// Every stored session expires strictly after it was created.
    pub open spec fn wf(&self) -> bool {
        self@.slot is Some ==> self@.slot->0.created_at < self@.slot->0.expires_at
    }

    /// A contract with an empty slot and no queued event.
    pub fn new() -> (r: SessionContract)
        ensures
            r@.slot is None,
            r@.events == Seq::<EventRecord>::empty(),
            r.wf(),
    {
        let r = SessionContract { session: None, events: Vec::new() };
        assert(r@.events =~= Seq::<EventRecord>::empty());
        r
    }

    fn queue(&mut self, ev: SessionEvent)
        ensures
            final(self)@.slot == old(self)@.slot,
            final(self)@.events == old(self)@.events.push(ev@),
            final(self).session == old(self).session,
    {
        self.events.push(ev);
        assert(self@.events =~= old(self)@.events.push(ev@));
    }

    /// Starts a session of `user_wallet` valid until `expires_at`, replacing
    /// whatever the slot held, and returns the token. `authorized` is the
    /// host's verdict on whether the caller may act for `user_wallet`; `now`
    /// is the current ledger time.
    pub fn create_session(
        &mut self,
        authorized: bool,
        now: u64,
        user_wallet: String,
        session_token: String,
        expires_at: u64,
    ) -> (r: Result<String, SessionError>)
        ensures
            !authorized ==> r == Err::<String, SessionError>(SessionError::Unauthorized),
            authorized && expires_at <= now ==> r == Err::<String, SessionError>(
                SessionError::InvalidExpiry,
            ),
            r is Err ==> final(self)@ == old(self)@,
            authorized && now < expires_at ==> {
                &&& r is Ok
                &&& r->Ok_0@ == session_token@
                &&& final(self)@.slot == Some(
                    fresh_record(user_wallet@, session_token@, now, expires_at),
                )
                &&& final(self)@.events == old(self)@.events.push(
                    EventRecord::Created {
                        wallet: user_wallet@,
                        session_token: session_token@,
                        expires_at,
                    },
                )
            },
            old(self).wf() ==> final(self).wf(),
    {
        if !authorized {
            return Err(SessionError::Unauthorized);
        }
        if expires_at <= now {
            return Err(SessionError::InvalidExpiry);
        }
        let ev = SessionEvent::Created {
            wallet: user_wallet.clone(),
            session_token: session_token.clone(),
            expires_at,
        };
        let returned = session_token.clone();
        self.session = Some(
            SessionInfo {
                wallet: user_wallet,
                session_token,
                created_at: now,
                expires_at,
                is_valid: true,
            },
        );
        self.queue(ev);
        Ok(returned)
    }

    /// Reports whether the stored session belongs to `user_wallet`, carries
    /// `session_token`, has not expired at `now` and is still valid. On success
    /// a verification event carrying the creation time is queued. The stored
    /// session is never changed.
    pub fn verify_session(
        &mut self,
        now: u64,
        user_wallet: &String,
        session_token: &String,
    ) -> (r: bool)
        ensures
            r == accepts(old(self)@.slot, user_wallet@, session_token@, now),
            final(self)@.slot == old(self)@.slot,
            r ==> final(self)@.events == old(self)@.events.push(
                EventRecord::Verified {
                    wallet: user_wallet@,
                    created_at: old(self)@.slot->0.created_at,
                },
            ),
            !r ==> final(self)@.events == old(self)@.events,
            old(self).wf() ==> final(self).wf(),
    {
        let created_at: u64;
        match &self.session {
            None => {
                return false;
            },
            Some(s) => {
                if s.wallet != *user_wallet {
                    return false;
                }
                if s.session_token != *session_token {
                    return false;
                }
                if now > s.expires_at {
                    return false;
                }
                if !s.is_valid {
                    return false;
                }
                created_at = s.created_at;
            },
        }
        self.queue(SessionEvent::Verified { wallet: user_wallet.clone(), created_at });
        true
    }

    fn invalidate(&mut self)
        ensures
            final(self)@.slot == invalidated(old(self)@.slot),
            final(self)@.events == old(self)@.events,
    {
        match &mut self.session {
            Some(s) => {
                s.is_valid = false;
            },
            None => {},
        }
    }

    /// Revokes the session of `user_wallet`: marks it invalid, queues a
    /// revocation event stamped with `now`, and returns true. Returns false,
    /// changing nothing, when no session of `user_wallet` is stored. Revoking
    /// an already invalid session succeeds again.
    pub fn revoke_session(
        &mut self,
        authorized: bool,
        now: u64,
        user_wallet: &String,
    ) -> (r: Result<bool, SessionError>)
        ensures
            !authorized ==> r == Err::<bool, SessionError>(SessionError::Unauthorized),
            authorized ==> r == Ok::<bool, SessionError>(owned_by(old(self)@.slot, user_wallet@)),
            final(self)@.slot == if r == Ok::<bool, SessionError>(true) {
                invalidated(old(self)@.slot)
            } else {
                old(self)@.slot
            },
            final(self)@.events == if r == Ok::<bool, SessionError>(true) {
                old(self)@.events.push(EventRecord::Revoked { wallet: user_wallet@, at: now })
            } else {
                old(self)@.events
            },
            authorized ==> final(self)@.slot == after_revoke(old(self)@.slot, user_wallet@),
            old(self).wf() ==> final(self).wf(),
    {
        if !authorized {
            return Err(SessionError::Unauthorized);
        }
        let owned = match &self.session {
            None => false,
            Some(s) => s.wallet == *user_wallet,
        };
        if !owned {
            return Ok(false);
        }
        self.invalidate();
        self.queue(SessionEvent::Revoked { wallet: user_wallet.clone(), at: now });
        Ok(true)
    }

    /// The stored session, when it belongs to `user_wallet`. A session of
    /// another wallet is reported exactly as an empty slot.
    pub fn get_session_info(&self, user_wallet: &String) -> (r: Option<SessionInfo>)
        ensures
            r is Some <==> owned_by(self@.slot, user_wallet@),
            r is Some ==> Some(r->0@) == self@.slot,
    {
        match &self.session {
            None => None,
            Some(s) => {
                if s.wallet != *user_wallet {
                    None
                } else {
                    Some(s.duplicate())
                }
            },
        }
    }

    /// Seconds until the session of `user_wallet` expires, as of `now`; 0 once
    /// it has expired or when no session of `user_wallet` is stored.
    pub fn get_remaining_time(&self, now: u64, user_wallet: &String) -> (r: u64)
        ensures
            r == remaining(self@.slot, user_wallet@, now),
    {
        let session = match self.get_session_info(user_wallet) {
            Some(s) => s,
            None => {
                return 0;
            },
        };
        if now > session.expires_at {
            0
        } else {
            session.expires_at - now
        }
    }

    /// Marks the stored session invalid when it has expired at `now` and is
    /// still valid, and returns how many sessions it invalidated (0 or 1). No
    /// event is queued.
    pub fn cleanup_expired(&mut self, now: u64) -> (r: u32)
        ensures
            r == (if expired_valid(old(self)@.slot, now) {
                1u32
            } else {
                0u32
            }),
            final(self)@.slot == after_cleanup(old(self)@.slot, now),
            final(self)@.events == old(self)@.events,
            old(self).wf() ==> final(self).wf(),
    {
        let expired = match &self.session {
            None => false,
            Some(s) => now > s.expires_at && s.is_valid,
        };
        if expired {
            self.invalidate();
            1
        } else {
            0
        }
    }

    /// A contract over a slot read back from storage, with no queued event.
    pub fn from_stored(session: Option<SessionInfo>) -> (r: SessionContract)
        ensures
            r@.slot == slot_view(session),
            r@.events == Seq::<EventRecord>::empty(),
    {
        let r = SessionContract { session, events: Vec::new() };
        assert(r@.events =~= Seq::<EventRecord>::empty());
        r
    }

    /// A copy of the slot, to be written back to storage.
    pub fn stored(&self) -> (r: Option<SessionInfo>)
        ensures
            slot_view(r) == self@.slot,
    {
        match &self.session {
            None => None,
            Some(s) => Some(s.duplicate()),
        }
    }

    /// Hands out the queued events, oldest first, and empties the queue.
    pub fn take_events(&mut self) -> (r: Vec<SessionEvent>)
        ensures
            r@.map_values(|e: SessionEvent| e@) == old(self)@.events,
            final(self)@.slot == old(self)@.slot,
            final(self)@.events == Seq::<EventRecord>::empty(),
            old(self).wf() ==> final(self).wf(),
    {
        let mut r: Vec<SessionEvent> = Vec::new();
        std::mem::swap(&mut r, &mut self.events);
        assert(self@.events =~= Seq::<EventRecord>::empty());
        r
    }
}

/// A session created at `created_at` with expiry `expires_at` verifies, with
/// its own wallet and token, at every time from its creation to its expiry
/// inclusive, and at no time after its expiry.
pub proof fn lemma_verification_window(
    wallet: Seq<char>,
    token: Seq<char>,
    created_at: u64,
    expires_at: u64,
    now: u64,
)
    requires
        created_at < expires_at,
    ensures
        created_at <= now <= expires_at ==> accepts(
            Some(fresh_record(wallet, token, created_at, expires_at)),
            wallet,
            token,
            now,
        ),
        now > expires_at ==> !accepts(
            Some(fresh_record(wallet, token, created_at, expires_at)),
            wallet,
            token,
            now,
        ),
{
}

/// Verification with a wallet other than the stored session's fails, whatever
/// the time and the token.
pub proof fn lemma_other_wallet_rejected(
    slot: Option<SessionRecord>,
    other: Seq<char>,
    token: Seq<char>,
    now: u64,
)
    requires
        slot is Some,
        slot->0.wallet != other,
    ensures
        !accepts(slot, other, token, now),
{
}

/// Once its owner has revoked a freshly created session, verification fails at
/// every time, and neither revocation nor expiry cleanup changes the slot
/// again: only a new creation replaces it.
pub proof fn lemma_revocation_is_permanent(
    wallet: Seq<char>,
    token: Seq<char>,
    created_at: u64,
    expires_at: u64,
    any_wallet: Seq<char>,
    any_token: Seq<char>,
    now: u64,
)
    ensures
        ({
            let revoked = after_revoke(
                Some(fresh_record(wallet, token, created_at, expires_at)),
                wallet,
            );
            &&& !accepts(revoked, any_wallet, any_token, now)
            &&& after_revoke(revoked, any_wallet) == revoked
            &&& after_cleanup(revoked, now) == revoked
        }),
{
}

/// Cleanup invalidates an expired, still valid session once: it reports 1 on
/// the first call, every later call on the unchanged slot finds nothing to do
/// and leaves it as it is, and the session no longer verifies.
pub proof fn lemma_cleanup_once(
    slot: Option<SessionRecord>,
    first: u64,
    later: u64,
    wallet: Seq<char>,
    token: Seq<char>,
)
    requires
        expired_valid(slot, first),
    ensures
        !expired_valid(after_cleanup(slot, first), later),
        after_cleanup(after_cleanup(slot, first), later) == after_cleanup(slot, first),
        !accepts(after_cleanup(slot, first), wallet, token, later),
{
}

} // verus!
