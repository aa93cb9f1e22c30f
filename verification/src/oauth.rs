//! The OAuth flow controller and the credential cache for remote tool
//! servers.
//!
//! One authorization flow is pending at most at a time: preparing a new one
//! discards a stale one.  After the browser hand-off the flow waits for the
//! provider's callback up to a fixed timeout; a timeout is an expected
//! outcome that keeps the pending state, so the manual completion command
//! can still finish the same flow with a pasted code or redirect URL —
//! but only for the server the pending flow belongs to.
//!
//! Tokens and client ids live in a local cache consulted before the remote
//! store and before static configuration; the network exchange itself and
//! the callback listener live outside the library.

use vstd::prelude::*;

use crate::text::contains_str;
use crate::text::contains_seq;
use crate::text::find_char;
use crate::text::starts_with;
use crate::text::starts_with_seq;
use crate::text::str_eq;
use crate::text::split_seq;
use crate::text::split_str;
use crate::text::trim_seq;
use crate::text::trim_str;

verus! {

/// How long the callback listener waits for the provider, in seconds.
pub const OAUTH_CALLBACK_TIMEOUT_SECS: u64 = 120;

/// Phase of the authorization flow.
#[derive(Clone, Copy, Debug, PartialEq, Eq, Structural)]
pub enum OAuthPhase {
    /// Nothing is being authorized.
    Idle,
    /// Endpoints and credentials are being discovered.
    Preparing,
    /// The browser is open and the local listener waits for the callback.
    AwaitingCallback,
    /// The callback arrived and the code was exchanged.
    Completed,
    /// No callback arrived within the timeout; the flow can still be
    /// finished manually.
    TimedOut,
    /// A pasted code or URL finished the flow.
    ManuallyCompleted,
}

/// One prepared authorization flow.
#[derive(Clone, Debug)]
pub struct PendingOAuth {
    pub server_id: String,
    pub auth_url: String,
    pub redirect_uri: String,
    pub token_endpoint: String,
    pub client_id: Option<String>,
    pub client_secret: Option<String>,
    pub code_verifier: String,
    pub state_nonce: String,
}

/// Errors of the flow commands.
#[derive(Clone, Debug, PartialEq, Eq)]
pub enum OAuthError {
    /// No flow is pending.
    NoPending,
    /// A flow is pending, but for another server.
    WrongServer,
}

/// The controller of the single pending flow.
pub struct OAuthController {
    pub phase: OAuthPhase,
    pub pending: Option<PendingOAuth>,
}

impl OAuthController {
    /// A pending flow exists exactly in the phases that can still resolve.
    pub open spec fn wf(&self) -> bool {
        self.pending is Some <==> (self.phase == OAuthPhase::AwaitingCallback || self.phase
            == OAuthPhase::TimedOut)
    }

    /// An idle controller.
    pub fn new() -> (r: OAuthController)
        ensures
            r.wf(),
            r.phase == OAuthPhase::Idle,
            r.pending is None,
    {
        OAuthController { phase: OAuthPhase::Idle, pending: None }
    }

    /// Adopt a freshly prepared flow and wait for its callback.  Any stale
    /// pending flow is discarded.
    pub fn begin(&mut self, pending: PendingOAuth)
        ensures
            final(self).wf(),
            final(self).phase == OAuthPhase::AwaitingCallback,
            final(self).pending == Some(pending),
    {
        self.pending = Some(pending);
        self.phase = OAuthPhase::AwaitingCallback;
    }

    /// The callback arrived and the exchange succeeded: the flow resolves
    /// and nothing is pending any more.
    pub fn complete(&mut self) -> (r: Result<PendingOAuth, OAuthError>)
        requires
            old(self).wf(),
        ensures
            final(self).wf(),
            match r {
                Ok(p) => {
                    &&& old(self).pending == Some(p)
                    &&& final(self).phase == OAuthPhase::Completed
                    &&& final(self).pending is None
                },
                Err(OAuthError::NoPending) => {
                    &&& old(self).pending is None
                    &&& *final(self) == *old(self)
                },
                Err(OAuthError::WrongServer) => false,
            },
    {
        let pending = match self.pending.take() {
            Some(p) => p,
            None => {
                return Err(OAuthError::NoPending);
            },
        };
        self.phase = OAuthPhase::Completed;
        Ok(pending)
    }

    /// No callback arrived within the timeout.  The timeout is reported,
    /// not escalated: the pending state is retained so a manual completion
    /// can still finish the same flow.
    pub fn on_timeout(&mut self)
        requires
            old(self).wf(),
            old(self).phase == OAuthPhase::AwaitingCallback,
        ensures
            final(self).wf(),
            final(self).phase == OAuthPhase::TimedOut,
            final(self).pending == old(self).pending,
    {
        self.phase = OAuthPhase::TimedOut;
    }

    /// Finish the pending flow with a manually supplied code — but only
    /// when the command's target server is the one the pending flow
    /// belongs to; anything else is rejected and changes nothing.
    pub fn manual_complete(&mut self, server_id: &str) -> (r: Result<PendingOAuth, OAuthError>)
        requires
            old(self).wf(),
        ensures
            final(self).wf(),
            match r {
                Ok(p) => {
                    &&& old(self).pending == Some(p)
                    &&& p.server_id@ == server_id@
                    &&& final(self).phase == OAuthPhase::ManuallyCompleted
                    &&& final(self).pending is None
                },
                Err(OAuthError::NoPending) => {
                    &&& old(self).pending is None
                    &&& *final(self) == *old(self)
                },
                Err(OAuthError::WrongServer) => {
                    &&& old(self).pending is Some
                    &&& old(self).pending->Some_0.server_id@ != server_id@
                    &&& *final(self) == *old(self)
                },
            },
    {
        let matches_id = match &self.pending {
            Some(p) => str_eq(p.server_id.as_str(), server_id),
            None => {
                return Err(OAuthError::NoPending);
            },
        };
        if !matches_id {
            return Err(OAuthError::WrongServer);
        }
        let pending = match self.pending.take() {
            Some(p) => p,
            None => {
                proof {
                    assert(false);
                }
                return Err(OAuthError::NoPending);
            },
        };
        self.phase = OAuthPhase::ManuallyCompleted;
        Ok(pending)
    }
}

/// The first `code=` parameter among query parameters, without its prefix.
pub open spec fn spec_find_code(params: Seq<Seq<char>>) -> Option<Seq<char>>
    decreases params.len(),
{
    if params.len() == 0 {
        None
    } else if starts_with_seq(params[0], "code="@) {
        Some(params[0].subrange(5, params[0].len() as int))
    } else {
        spec_find_code(params.drop_first())
    }
}

/// The authorization code a manual completion input carries: a pasted URL
/// (anything with a scheme separator) yields its first `code` query
/// parameter; anything else is taken as the raw code itself, trimmed, if
/// non-empty.
pub open spec fn spec_extract_code(s: Seq<char>) -> Option<Seq<char>> {
    let t = trim_seq(s);
    if contains_seq(t, "://"@) {
        let qi = find_char(t, '?');
        if qi == t.len() {
            None
        } else {
            spec_find_code(split_seq(t.subrange(qi + 1, t.len() as int), '&'))
        }
    } else if t.len() > 0 {
        Some(t)
    } else {
        None
    }
}

/// Extract the authorization code from a raw code or a pasted redirect URL.
pub fn extract_auth_code(raw: &str) -> (r: Option<String>)
    ensures
        r is Some <==> spec_extract_code(raw@) is Some,
        r is Some ==> r->Some_0@ == spec_extract_code(raw@)->Some_0,
{
    let t = trim_str(raw);
    if !contains_str(t.as_str(), "://") {
        if t.as_str().unicode_len() > 0 {
            return Some(t);
        }
        return None;
    }
    let n = t.as_str().unicode_len();
    let mut qi: usize = 0;
    while qi < n && t.as_str().get_char(qi) != '?'
        invariant
            n == t@.len(),
            0 <= qi <= n,
            forall|j: int| 0 <= j < qi ==> t@[j] != '?',
        decreases n - qi,
    {
        qi = qi + 1;
    }
    if qi == n {
        proof {
            crate::text::lemma_find_char_none(t@, '?');
        }
        return None;
    }
    proof {
        crate::text::lemma_find_char_at(t@, '?', qi as int);
    }
    let query = t.as_str().substring_char(qi + 1, n);
    let params = split_str(query, '&');
    let ghost pview = params@.map_values(|p: String| p@);
    let mut i: usize = 0;
    proof {
        assert(pview.subrange(0, pview.len() as int) =~= pview);
    }
    while i < params.len()
        invariant
            t@ == trim_seq(raw@),
            contains_seq(t@, "://"@),
            n == t@.len(),
            0 <= qi < n,
            find_char(t@, '?') == qi,
            pview == params@.map_values(|p: String| p@),
            pview == split_seq(t@.subrange(qi + 1, n as int), '&'),
            0 <= i <= params@.len(),
            spec_find_code(pview) == spec_find_code(pview.subrange(i as int, pview.len() as int)),
        decreases params@.len() - i,
    {
        proof {
            let sub = pview.subrange(i as int, pview.len() as int);
            assert(sub[0] == pview[i as int]);
            assert(pview[i as int] == params@[i as int]@);
            assert(sub.drop_first() =~= pview.subrange(i + 1, pview.len() as int));
            reveal_strlit("code=");
            assert("code="@.len() == 5);
        }
        if starts_with(params[i].as_str(), "code=") {
            let value = params[i].as_str().substring_char(
                5,
                params[i].as_str().unicode_len(),
            );
            return Some(String::from_str(value));
        }
        i = i + 1;
    }
    proof {
        assert(pview.subrange(pview.len() as int, pview.len() as int) =~= Seq::<Seq<
            char,
        >>::empty());
    }
    None
}

/// A key's value in an association list, first match wins.
pub open spec fn spec_assoc_get(entries: Seq<(Seq<char>, Seq<char>)>, key: Seq<char>) -> Option<
    Seq<char>,
>
    decreases entries.len(),
{
    if entries.len() == 0 {
        None
    } else if entries[0].0 == key {
        Some(entries[0].1)
    } else {
        spec_assoc_get(entries.drop_first(), key)
    }
}

/// The view of a credential list.
pub open spec fn assoc_view(v: Seq<(String, String)>) -> Seq<(Seq<char>, Seq<char>)> {
    v.map_values(|e: (String, String)| (e.0@, e.1@))
}

/// Keys are unique.
pub open spec fn assoc_wf(v: Seq<(String, String)>) -> bool {
    forall|i: int, j: int|
        0 <= i < j < v.len() ==> (#[trigger] v[i].0@) != (#[trigger] v[j].0@)
}

/// Look a key up.
fn assoc_get(v: &Vec<(String, String)>, key: &str) -> (r: Option<String>)
    ensures
        r is Some <==> spec_assoc_get(assoc_view(v@), key@) is Some,
        r is Some ==> r->Some_0@ == spec_assoc_get(assoc_view(v@), key@)->Some_0,
{
    let ghost ev = assoc_view(v@);
    let mut i: usize = 0;
    proof {
        assert(ev.subrange(0, ev.len() as int) =~= ev);
    }
    while i < v.len()
        invariant
            ev == assoc_view(v@),
            0 <= i <= v@.len(),
            spec_assoc_get(ev, key@) == spec_assoc_get(
                ev.subrange(i as int, ev.len() as int),
                key@,
            ),
        decreases v@.len() - i,
    {
        proof {
            let sub = ev.subrange(i as int, ev.len() as int);
            assert(sub[0] == ev[i as int]);
            assert(ev[i as int] == (v@[i as int].0@, v@[i as int].1@));
            assert(sub.drop_first() =~= ev.subrange(i + 1, ev.len() as int));
        }
        if str_eq(v[i].0.as_str(), key) {
            return Some(v[i].1.clone());
        }
        i = i + 1;
    }
    proof {
        assert(ev.subrange(ev.len() as int, ev.len() as int) =~= Seq::<(Seq<char>, Seq<
            char,
        >)>::empty());
    }
    None
}

/// Bind a key to a value, replacing any earlier binding.
fn assoc_set(v: &mut Vec<(String, String)>, key: &str, value: String)
    requires
        assoc_wf(old(v)@),
    ensures
        assoc_wf(final(v)@),
        spec_assoc_get(assoc_view(final(v)@), key@) == Some(value@),
        forall|k: Seq<char>|
            k != key@ ==> #[trigger] spec_assoc_get(assoc_view(final(v)@), k) == spec_assoc_get(
                assoc_view(old(v)@),
                k,
            ),
{
    let mut i: usize = 0;
    let ghost ev0 = assoc_view(v@);
    while i < v.len()
        invariant
            v@ == old(v)@,
            ev0 == assoc_view(v@),
            assoc_wf(v@),
            0 <= i <= v@.len(),
            forall|j: int| 0 <= j < i ==> (#[trigger] v@[j].0@) != key@,
        decreases v@.len() - i,
    {
        if str_eq(v[i].0.as_str(), key) {
            let ghost pos: int = i as int;
            let ghost before = v@;
            let e = entry_mut(v, i);
            e.1 = value;
            proof {
                assert(v@ == before.update(pos, v@[pos]));
                assert(v@[pos].0 == before[pos].0);
                assert(v@[pos].0@ == key@);
                assert(v@[pos].1@ == assoc_view(v@)[pos].1);
                assert(assoc_view(v@)[pos] == (key@, v@[pos].1@));
                assert forall|j: int|
                    0 <= j < ev0.len() && j != pos implies #[trigger] assoc_view(v@)[j] == ev0[j] by {
                    assert(v@[j] == before[j]);
                }
                lemma_assoc_update(ev0, assoc_view(v@), pos, key@, v@[pos].1@);
                assert forall|a: int, b: int|
                    0 <= a < b < v@.len() implies (#[trigger] v@[a].0@) != (#[trigger] v@[b].0@) by {
                    assert(v@[a].0 == before[a].0);
                    assert(v@[b].0 == before[b].0);
                }
            }
            return ;
        }
        i = i + 1;
    }
    let ghost before = v@;
    v.push((String::from_str(key), value));
    proof {
        assert(v@.drop_last() =~= before);
        assert forall|a: int, b: int|
            0 <= a < b < v@.len() implies (#[trigger] v@[a].0@) != (#[trigger] v@[b].0@) by {
            if b < before.len() {
                assert(v@[a].0 == before[a].0);
                assert(v@[b].0 == before[b].0);
            } else {
                assert(v@[a].0 == before[a].0);
                assert(v@[b].0@ == key@);
            }
        }
        lemma_assoc_append(assoc_view(before), key@, value@);
        assert(assoc_view(v@) =~= assoc_view(before).push((key@, value@)));
    }
}

/// Remove a key's binding, if any.
fn assoc_remove(v: &mut Vec<(String, String)>, key: &str)
    requires
        assoc_wf(old(v)@),
    ensures
        assoc_wf(final(v)@),
        spec_assoc_get(assoc_view(final(v)@), key@) is None,
        forall|k: Seq<char>|
            k != key@ ==> #[trigger] spec_assoc_get(assoc_view(final(v)@), k) == spec_assoc_get(
                assoc_view(old(v)@),
                k,
            ),
{
    let mut i: usize = 0;
    while i < v.len()
        invariant
            assoc_wf(v@),
            0 <= i <= v@.len(),
            forall|j: int| 0 <= j < i ==> (#[trigger] v@[j].0@) != key@,
            forall|k: Seq<char>| #[trigger]
                spec_assoc_get(assoc_view(v@), k) == spec_assoc_get(assoc_view(old(v)@), k),
        decreases v@.len() - i,
    {
        if str_eq(v[i].0.as_str(), key) {
            let ghost before = v@;
            let _ = v.remove(i);
            proof {
                lemma_assoc_remove(assoc_view(before), assoc_view(v@), i as int, key@);
                assert forall|a: int, b: int|
                    0 <= a < b < v@.len() implies (#[trigger] v@[a].0@) != (#[trigger] v@[b].0@) by {
                    let a0 = if a < i {
                        a
                    } else {
                        a + 1
                    };
                    let b0 = if b < i {
                        b
                    } else {
                        b + 1
                    };
                    assert(v@[a].0 == before[a0].0);
                    assert(v@[b].0 == before[b0].0);
                }
            }
            return ;
        }
        i = i + 1;
    }
    proof {
        lemma_assoc_absent(assoc_view(v@), key@);
    }
}

/// Mutable access to one entry.
fn entry_mut(v: &mut Vec<(String, String)>, i: usize) -> (element: &mut (String, String))
    requires
        i < old(v)@.len(),
    ensures
        *element == old(v)@[i as int],
        final(v)@ == old(v)@.update(i as int, *final(element)),
{
    &mut v[i]
}

/// Updating the value at the key's own position rebinds exactly that key.
proof fn lemma_assoc_update(
    ev0: Seq<(Seq<char>, Seq<char>)>,
    ev1: Seq<(Seq<char>, Seq<char>)>,
    pos: int,
    key: Seq<char>,
    value: Seq<char>,
)
    requires
        0 <= pos < ev0.len(),
        ev1.len() == ev0.len(),
        ev0[pos].0 == key,
        ev1[pos] == (key, value),
        forall|j: int| 0 <= j < ev0.len() && j != pos ==> #[trigger] ev1[j] == ev0[j],
        forall|j: int| 0 <= j < pos ==> (#[trigger] ev0[j].0) != key,
    ensures
        spec_assoc_get(ev1, key) == Some(value),
        forall|k: Seq<char>|
            k != key ==> #[trigger] spec_assoc_get(ev1, k) == spec_assoc_get(ev0, k),
    decreases ev0.len(),
{
    if pos == 0 {
        assert(ev1[0] == (key, value));
        assert(spec_assoc_get(ev1, key) == Some(value));
        assert forall|k: Seq<char>|
            k != key implies #[trigger] spec_assoc_get(ev1, k) == spec_assoc_get(ev0, k) by {
            assert(ev1.drop_first() =~= ev0.drop_first());
            assert(ev1[0].0 == ev0[0].0);
        }
    } else {
        let t0 = ev0.drop_first();
        let t1 = ev1.drop_first();
        assert(t1[pos - 1] == ev1[pos as int]);
        assert(t0[pos - 1] == ev0[pos as int]);
        assert forall|j: int| 0 <= j < t0.len() && j != pos - 1 implies #[trigger] t1[j]
            == t0[j] by {
            assert(t1[j] == ev1[j + 1]);
            assert(t0[j] == ev0[j + 1]);
        }
        assert forall|j: int| 0 <= j < pos - 1 implies (#[trigger] t0[j].0) != key by {
            assert(t0[j] == ev0[j + 1]);
        }
        lemma_assoc_update(t0, t1, pos - 1, key, value);
        assert(ev1[0] == ev0[0]);
        assert(ev0[0].0 != key);
        assert(spec_assoc_get(ev1, key) == spec_assoc_get(t1, key));
        assert forall|k: Seq<char>|
            k != key implies #[trigger] spec_assoc_get(ev1, k) == spec_assoc_get(ev0, k) by {
            if ev0[0].0 != k {
                assert(spec_assoc_get(ev1, k) == spec_assoc_get(t1, k));
                assert(spec_assoc_get(ev0, k) == spec_assoc_get(t0, k));
            }
        }
    }
}

/// Appending a fresh key binds it and nothing else.
proof fn lemma_assoc_append(ev: Seq<(Seq<char>, Seq<char>)>, key: Seq<char>, value: Seq<char>)
    requires
        forall|j: int| 0 <= j < ev.len() ==> (#[trigger] ev[j].0) != key,
    ensures
        spec_assoc_get(ev.push((key, value)), key) == Some(value),
        forall|k: Seq<char>|
            k != key ==> #[trigger] spec_assoc_get(ev.push((key, value)), k) == spec_assoc_get(
                ev,
                k,
            ),
    decreases ev.len(),
{
    let pushed = ev.push((key, value));
    if ev.len() == 0 {
        assert(pushed[0] == (key, value));
        assert(pushed.drop_first() =~= Seq::<(Seq<char>, Seq<char>)>::empty());
        assert forall|k: Seq<char>|
            k != key implies #[trigger] spec_assoc_get(pushed, k) == spec_assoc_get(ev, k) by {
            assert(spec_assoc_get(pushed.drop_first(), k) is None);
        }
    } else {
        lemma_assoc_append(ev.drop_first(), key, value);
        assert(pushed.drop_first() =~= ev.drop_first().push((key, value)));
        assert(pushed[0] == ev[0]);
        assert(spec_assoc_get(pushed, key) == Some(value)) by {
            assert(ev[0].0 != key);
            assert(spec_assoc_get(pushed.drop_first(), key) == Some(value));
        }
        assert forall|k: Seq<char>|
            k != key implies #[trigger] spec_assoc_get(pushed, k) == spec_assoc_get(ev, k) by {
            if ev[0].0 != k {
                assert(spec_assoc_get(pushed.drop_first(), k) == spec_assoc_get(
                    ev.drop_first(),
                    k,
                ));
            }
        }
    }
}

/// Removing the key's sole binding unbinds it and nothing else.
proof fn lemma_assoc_remove(
    ev0: Seq<(Seq<char>, Seq<char>)>,
    ev1: Seq<(Seq<char>, Seq<char>)>,
    pos: int,
    key: Seq<char>,
)
    requires
        0 <= pos < ev0.len(),
        ev1.len() == ev0.len() - 1,
        ev0[pos].0 == key,
        forall|j: int| 0 <= j < pos ==> #[trigger] ev1[j] == ev0[j],
        forall|j: int| pos <= j < ev1.len() ==> #[trigger] ev1[j] == ev0[j + 1],
        forall|j: int| 0 <= j < pos ==> (#[trigger] ev0[j].0) != key,
        forall|i: int, j: int| 0 <= i < j < ev0.len() ==> (#[trigger] ev0[i].0) != (#[trigger] ev0[j].0),
    ensures
        spec_assoc_get(ev1, key) is None,
        forall|k: Seq<char>|
            k != key ==> #[trigger] spec_assoc_get(ev1, k) == spec_assoc_get(ev0, k),
    decreases ev0.len(),
{
    if pos == 0 {
        assert(ev1 =~= ev0.drop_first());
        lemma_assoc_absent_after(ev0.drop_first(), ev0, key);
        assert forall|k: Seq<char>|
            k != key implies #[trigger] spec_assoc_get(ev1, k) == spec_assoc_get(ev0, k) by {
            assert(ev0[0].0 == key);
        }
    } else {
        let tail0 = ev0.drop_first();
        let tail1 = ev1.drop_first();
        assert forall|j: int| 0 <= j < pos - 1 implies #[trigger] tail1[j] == tail0[j] by {
            assert(tail1[j] == ev1[j + 1]);
            assert(tail0[j] == ev0[j + 1]);
        }
        assert forall|j: int| pos - 1 <= j < tail1.len() implies #[trigger] tail1[j] == tail0[j
            + 1] by {
            assert(tail1[j] == ev1[j + 1]);
            assert(tail0[j + 1] == ev0[j + 2]);
        }
        assert forall|j: int| 0 <= j < pos - 1 implies (#[trigger] tail0[j].0) != key by {
            assert(tail0[j] == ev0[j + 1]);
        }
        assert forall|i2: int, j2: int|
            0 <= i2 < j2 < tail0.len() implies (#[trigger] tail0[i2].0) != (#[trigger] tail0[j2].0) by {
            assert(tail0[i2] == ev0[i2 + 1]);
            assert(tail0[j2] == ev0[j2 + 1]);
        }
        assert(tail0[pos - 1].0 == key) by {
            assert(tail0[pos - 1] == ev0[pos as int]);
        }
        lemma_assoc_remove(tail0, tail1, pos - 1, key);
        assert(ev1[0] == ev0[0]);
        assert(ev0[0].0 != key);
        assert(spec_assoc_get(ev1, key) == spec_assoc_get(tail1, key));
        assert forall|k: Seq<char>|
            k != key implies #[trigger] spec_assoc_get(ev1, k) == spec_assoc_get(ev0, k) by {
            if ev0[0].0 != k {
                assert(spec_assoc_get(ev1, k) == spec_assoc_get(tail1, k));
                assert(spec_assoc_get(ev0, k) == spec_assoc_get(tail0, k));
            }
        }
    }
}

/// A key bound only at the head is absent from the tail.
proof fn lemma_assoc_absent_after(
    tail: Seq<(Seq<char>, Seq<char>)>,
    ev0: Seq<(Seq<char>, Seq<char>)>,
    key: Seq<char>,
)
    requires
        ev0.len() >= 1,
        tail == ev0.drop_first(),
        ev0[0].0 == key,
        forall|i: int, j: int| 0 <= i < j < ev0.len() ==> (#[trigger] ev0[i].0) != (#[trigger] ev0[j].0),
    ensures
        spec_assoc_get(tail, key) is None,
{
    assert forall|j: int| 0 <= j < tail.len() implies (#[trigger] tail[j].0) != key by {
        assert(tail[j] == ev0[j + 1]);
        assert(ev0[0].0 != ev0[j + 1].0);
    }
    lemma_assoc_absent(tail, key);
}

/// A key none of the entries carry is absent.
proof fn lemma_assoc_absent(ev: Seq<(Seq<char>, Seq<char>)>, key: Seq<char>)
    requires
        forall|j: int| 0 <= j < ev.len() ==> (#[trigger] ev[j].0) != key,
    ensures
        spec_assoc_get(ev, key) is None,
    decreases ev.len(),
{
    if ev.len() > 0 {
        assert forall|j: int| 0 <= j < ev.drop_first().len() implies (#[trigger] ev.drop_first()[j].0)
            != key by {
            assert(ev.drop_first()[j] == ev[j + 1]);
        }
        lemma_assoc_absent(ev.drop_first(), key);
    }
}

/// Locally cached credentials for remote tool servers, keyed by server id:
/// bearer tokens, negotiated client ids, and refresh tokens.  Read from
/// disk at startup and written back after every change by the caller.
pub struct LocalMcpStore {
    pub tokens: Vec<(String, String)>,
    pub client_ids: Vec<(String, String)>,
    pub refresh_tokens: Vec<(String, String)>,
}

impl LocalMcpStore {
    /// Each map's keys are unique.
    pub open spec fn wf(&self) -> bool {
        assoc_wf(self.tokens@) && assoc_wf(self.client_ids@) && assoc_wf(self.refresh_tokens@)
    }

    /// An empty cache.
    pub fn new() -> (r: LocalMcpStore)
        ensures
            r.wf(),
            r.tokens@.len() == 0,
            r.client_ids@.len() == 0,
            r.refresh_tokens@.len() == 0,
    {
        LocalMcpStore { tokens: Vec::new(), client_ids: Vec::new(), refresh_tokens: Vec::new() }
    }

    /// Store a bearer token for a server.
    pub fn set_token(&mut self, server_id: &str, token: String)
        requires
            old(self).wf(),
        ensures
            final(self).wf(),
            spec_assoc_get(assoc_view(final(self).tokens@), server_id@) == Some(token@),
            forall|k: Seq<char>|
                k != server_id@ ==> #[trigger] spec_assoc_get(assoc_view(final(self).tokens@), k)
                    == spec_assoc_get(assoc_view(old(self).tokens@), k),
            final(self).client_ids@ == old(self).client_ids@,
            final(self).refresh_tokens@ == old(self).refresh_tokens@,
    {
        assoc_set(&mut self.tokens, server_id, token);
    }

    /// The cached bearer token of a server.
    pub fn get_token(&self, server_id: &str) -> (r: Option<String>)
        ensures
            r is Some <==> spec_assoc_get(assoc_view(self.tokens@), server_id@) is Some,
            r is Some ==> r->Some_0@ == spec_assoc_get(
                assoc_view(self.tokens@),
                server_id@,
            )->Some_0,
    {
        assoc_get(&self.tokens, server_id)
    }

    /// Drop a server's cached bearer token.
    pub fn remove_token(&mut self, server_id: &str)
        requires
            old(self).wf(),
        ensures
            final(self).wf(),
            spec_assoc_get(assoc_view(final(self).tokens@), server_id@) is None,
            forall|k: Seq<char>|
                k != server_id@ ==> #[trigger] spec_assoc_get(assoc_view(final(self).tokens@), k)
                    == spec_assoc_get(assoc_view(old(self).tokens@), k),
            final(self).client_ids@ == old(self).client_ids@,
            final(self).refresh_tokens@ == old(self).refresh_tokens@,
    {
        assoc_remove(&mut self.tokens, server_id);
    }

    /// Store a negotiated client id for a server.
    pub fn set_client_id(&mut self, server_id: &str, client_id: String)
        requires
            old(self).wf(),
        ensures
            final(self).wf(),
            spec_assoc_get(assoc_view(final(self).client_ids@), server_id@) == Some(client_id@),
            forall|k: Seq<char>|
                k != server_id@ ==> #[trigger] spec_assoc_get(
                    assoc_view(final(self).client_ids@),
                    k,
                ) == spec_assoc_get(assoc_view(old(self).client_ids@), k),
            final(self).tokens@ == old(self).tokens@,
            final(self).refresh_tokens@ == old(self).refresh_tokens@,
    {
        assoc_set(&mut self.client_ids, server_id, client_id);
    }

    /// The cached client id of a server.
    pub fn get_client_id(&self, server_id: &str) -> (r: Option<String>)
        ensures
            r is Some <==> spec_assoc_get(assoc_view(self.client_ids@), server_id@) is Some,
            r is Some ==> r->Some_0@ == spec_assoc_get(
                assoc_view(self.client_ids@),
                server_id@,
            )->Some_0,
    {
        assoc_get(&self.client_ids, server_id)
    }

    /// Store a refresh token for a server.
    pub fn set_refresh_token(&mut self, server_id: &str, token: String)
        requires
            old(self).wf(),
        ensures
            final(self).wf(),
            spec_assoc_get(assoc_view(final(self).refresh_tokens@), server_id@) == Some(token@),
            forall|k: Seq<char>|
                k != server_id@ ==> #[trigger] spec_assoc_get(
                    assoc_view(final(self).refresh_tokens@),
                    k,
                ) == spec_assoc_get(assoc_view(old(self).refresh_tokens@), k),
            final(self).tokens@ == old(self).tokens@,
            final(self).client_ids@ == old(self).client_ids@,
    {
        assoc_set(&mut self.refresh_tokens, server_id, token);
    }
}

/// The token the resolution order yields: the local cache first, then the
/// remote store, then a static bearer from configuration, then the
/// configured environment variable's value.
pub open spec fn spec_resolve_token(
    local: Option<Seq<char>>,
    remote: Option<Seq<char>>,
    config_bearer: Option<Seq<char>>,
    env_bearer: Option<Seq<char>>,
) -> Option<Seq<char>> {
    if local is Some {
        local
    } else if remote is Some {
        remote
    } else if config_bearer is Some {
        config_bearer
    } else {
        env_bearer
    }
}

/// Resolve a server's bearer token.  The caller passes what the remote
/// store returned for the server's token key, the static bearer of its
/// configuration, and the value of its bearer environment variable.
pub fn resolve_token(
    store: &LocalMcpStore,
    server_id: &str,
    remote: Option<String>,
    config_bearer: Option<String>,
    env_bearer: Option<String>,
) -> (r: Option<String>)
    ensures
        ({
            let lv = spec_assoc_get(assoc_view(store.tokens@), server_id@);
            let rv = spec_resolve_token(
                lv,
                match remote {
                    Some(s) => Some(s@),
                    None => None,
                },
                match config_bearer {
                    Some(s) => Some(s@),
                    None => None,
                },
                match env_bearer {
                    Some(s) => Some(s@),
                    None => None,
                },
            );
            (r is Some <==> rv is Some) && (r is Some ==> r->Some_0@ == rv->Some_0)
        }),
{
    if let Some(t) = store.get_token(server_id) {
        return Some(t);
    }
    if let Some(t) = remote {
        return Some(t);
    }
    if let Some(t) = config_bearer {
        return Some(t);
    }
    env_bearer
}

/// A token stored under a server id is the token resolution yields for
/// that server afterward, whatever the remote store and the static
/// configuration hold: the local cache is consulted before both.
pub proof fn lemma_stored_token_resolves(
    token: Seq<char>,
    remote: Option<Seq<char>>,
    config_bearer: Option<Seq<char>>,
    env_bearer: Option<Seq<char>>,
)
    ensures
        spec_resolve_token(Some(token), remote, config_bearer, env_bearer) == Some(token),
{
}

/// The client id the resolution order yields: explicit configuration
/// first, then the configured environment variable, then the local cache,
/// then — only for flows with a configured redirect — the remote store.
pub open spec fn spec_resolve_client_id(
    config_id: Option<Seq<char>>,
    env_id: Option<Seq<char>>,
    local: Option<Seq<char>>,
    remote: Option<Seq<char>>,
    has_redirect: bool,
) -> Option<Seq<char>> {
    if config_id is Some {
        config_id
    } else if env_id is Some {
        env_id
    } else if local is Some {
        local
    } else if has_redirect {
        remote
    } else {
        None
    }
}

/// Resolve the client id to authorize with.
pub fn resolve_client_id(
    store: &LocalMcpStore,
    server_id: &str,
    config_id: Option<String>,
    env_id: Option<String>,
    remote: Option<String>,
    has_redirect: bool,
) -> (r: Option<String>)
    ensures
        ({
            let lv = spec_assoc_get(assoc_view(store.client_ids@), server_id@);
            let rv = spec_resolve_client_id(
                match config_id {
                    Some(s) => Some(s@),
                    None => None,
                },
                match env_id {
                    Some(s) => Some(s@),
                    None => None,
                },
                lv,
                match remote {
                    Some(s) => Some(s@),
                    None => None,
                },
                has_redirect,
            );
            (r is Some <==> rv is Some) && (r is Some ==> r->Some_0@ == rv->Some_0)
        }),
{
    if let Some(id) = config_id {
        return Some(id);
    }
    if let Some(id) = env_id {
        return Some(id);
    }
    if let Some(id) = store.get_client_id(server_id) {
        return Some(id);
    }
    if has_redirect {
        return remote;
    }
    None
}

} // verus!
