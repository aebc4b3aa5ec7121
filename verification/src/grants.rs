use vstd::prelude::*;
use crate::order::{seq_lt, lemma_seq_cmp_equal, lemma_seq_lt_trans};
use crate::order::{str_cmp, Rel};

verus! {

/// One row of the permission ledger: a time-bounded authorization for a
/// user to run a command with elevated privilege. Rows are never deleted;
/// a grant ends by being revoked or by expiring.
#[derive(Debug)]
pub struct PermissionGrant {
    /// Durable surrogate key.
    pub id: i64,
    pub username: String,
    /// Absolute path of the granted command.
    pub command: String,
    /// Seconds since the epoch when the grant was made.
    pub granted_at: i64,
    /// Seconds since the epoch when the grant expires.
    pub expires_at: i64,
    pub granted_by: String,
    /// Seconds since the epoch of the last recorded use, if any.
    pub last_used: Option<i64>,
    pub revoked: bool,
    pub revoked_at: Option<i64>,
    pub revoked_by: Option<String>,
}

/// The mathematical value of a ledger row.
#[verifier::ext_equal]
pub struct GrantData {
    pub id: int,
    pub username: Seq<char>,
    pub command: Seq<char>,
    pub granted_at: int,
    pub expires_at: int,
    pub granted_by: Seq<char>,
    pub last_used: Option<int>,
    pub revoked: bool,
    pub revoked_at: Option<int>,
    pub revoked_by: Option<Seq<char>>,
}

impl View for PermissionGrant {
    type V = GrantData;

    open spec fn view(&self) -> GrantData {
        GrantData {
            id: self.id as int,
            username: self.username@,
            command: self.command@,
            granted_at: self.granted_at as int,
            expires_at: self.expires_at as int,
            granted_by: self.granted_by@,
            last_used: match self.last_used {
                Some(t) => Some(t as int),
                None => None,
            },
            revoked: self.revoked,
            revoked_at: match self.revoked_at {
                Some(t) => Some(t as int),
                None => None,
            },
            revoked_by: match self.revoked_by {
                Some(s) => Some(s@),
                None => None,
            },
        }
    }
}

impl Clone for PermissionGrant {
    fn clone(&self) -> (res: Self)
        ensures
            res == *self,
    {
        PermissionGrant {
            id: self.id,
            username: self.username.clone(),
            command: self.command.clone(),
            granted_at: self.granted_at,
            expires_at: self.expires_at,
            granted_by: self.granted_by.clone(),
            last_used: self.last_used,
            revoked: self.revoked,
            revoked_at: self.revoked_at,
            revoked_by: match &self.revoked_by {
                Some(s) => Some(s.clone()),
                None => None,
            },
        }
    }
}

/// The kind of event an audit entry records.
#[derive(Clone, Copy, PartialEq, Eq, Structural, Debug)]
pub enum AuditAction {
    Grant,
    Revoke,
    Use,
}

/// One entry of the append-only audit trail.
#[derive(Debug)]
pub struct AuditLogEntry {
    /// Seconds since the epoch when the event happened.
    pub timestamp: i64,
    pub username: String,
    pub command: String,
    pub action: AuditAction,
    /// Free-text detail; here, the acting principal where one is known.
    pub details: Option<String>,
}

/// The mathematical value of an audit entry.
#[verifier::ext_equal]
pub struct AuditData {
    pub timestamp: int,
    pub username: Seq<char>,
    pub command: Seq<char>,
    pub action: AuditAction,
    pub details: Option<Seq<char>>,
}

impl View for AuditLogEntry {
    type V = AuditData;

    open spec fn view(&self) -> AuditData {
        AuditData {
            timestamp: self.timestamp as int,
            username: self.username@,
            command: self.command@,
            action: self.action,
            details: match self.details {
                Some(s) => Some(s@),
                None => None,
            },
        }
    }
}

/// The values of a sequence of ledger rows.
pub open spec fn view_grants(s: Seq<PermissionGrant>) -> Seq<GrantData> {
    s.map_values(|g: PermissionGrant| g@)
}

/// The values of a sequence of audit entries.
pub open spec fn view_audit(s: Seq<AuditLogEntry>) -> Seq<AuditData> {
    s.map_values(|e: AuditLogEntry| e@)
}

/// True when the row is for the given (username, command) pair.
pub open spec fn same_pair(g: GrantData, u: Seq<char>, c: Seq<char>) -> bool {
    g.username == u && g.command == c
}

/// True when the row's pair orders strictly below (u, c): by username
/// first, then by command.
pub open spec fn pair_below(g: GrantData, u: Seq<char>, c: Seq<char>) -> bool {
    seq_lt(g.username, u) || (g.username == u && seq_lt(g.command, c))
}

/// Strict (username, command) order between two rows.
pub open spec fn pair_lt(a: GrantData, b: GrantData) -> bool {
    pair_below(a, b.username, b.command)
}

/// True when the rows are in strictly ascending (username, command)
/// order; in particular each pair occurs on at most one row.
pub open spec fn sorted_by_pair(gs: Seq<GrantData>) -> bool {
    forall|i: int, j: int| 0 <= i < j < gs.len() ==> pair_lt(#[trigger] gs[i], #[trigger] gs[j])
}

/// True when the row's pair orders strictly above (u, c).
pub open spec fn pair_above(g: GrantData, u: Seq<char>, c: Seq<char>) -> bool {
    seq_lt(u, g.username) || (g.username == u && seq_lt(c, g.command))
}

/// A row's pair is below, equal to, or above a given pair, in exactly one
/// of the three ways.
pub proof fn lemma_pair_trichotomy(g: GrantData, u: Seq<char>, c: Seq<char>)
    ensures
        pair_below(g, u, c) || same_pair(g, u, c) || pair_above(g, u, c),
        pair_below(g, u, c) ==> !same_pair(g, u, c) && !pair_above(g, u, c),
        same_pair(g, u, c) ==> !pair_above(g, u, c),
{
    crate::order::lemma_seq_trichotomy(g.username, u);
    crate::order::lemma_seq_trichotomy(g.command, c);
}

/// A row whose pair is (u, c) orders strictly below another row exactly
/// when the other row's pair is above (u, c).
pub proof fn lemma_pair_above_lt(g: GrantData, h: GrantData)
    ensures
        pair_lt(g, h) == pair_above(h, g.username, g.command),
{
    crate::order::lemma_seq_trichotomy(g.username, h.username);
}

/// The strict pair order is transitive.
pub proof fn lemma_pair_lt_trans(a: GrantData, b: GrantData, c: GrantData)
    requires
        pair_lt(a, b),
        pair_lt(b, c),
    ensures
        pair_lt(a, c),
{
    crate::order::lemma_seq_trichotomy(a.username, b.username);
    crate::order::lemma_seq_trichotomy(b.username, c.username);
    if seq_lt(a.username, b.username) && seq_lt(b.username, c.username) {
        lemma_seq_lt_trans(a.username, b.username, c.username);
    }
    if a.username == b.username && b.username == c.username {
        lemma_seq_lt_trans(a.command, b.command, c.command);
    }
}

/// In a ledger sorted by pair, at most one row is for any given pair.
pub proof fn lemma_sorted_unique_pair(
    gs: Seq<GrantData>,
    u: Seq<char>,
    c: Seq<char>,
    i: int,
    j: int,
)
    requires
        sorted_by_pair(gs),
        0 <= i < j < gs.len(),
        same_pair(gs[i], u, c),
    ensures
        !same_pair(gs[j], u, c),
{
    crate::order::lemma_seq_trichotomy(gs[i].username, gs[j].username);
    crate::order::lemma_seq_trichotomy(gs[i].command, gs[j].command);
}

/// A grant is active at an instant when it is not revoked and has not
/// expired.
pub open spec fn is_active(g: GrantData, now: int) -> bool {
    !g.revoked && g.expires_at > now
}

/// True when some row for the pair is active at the instant.
pub open spec fn has_active(gs: Seq<GrantData>, u: Seq<char>, c: Seq<char>, now: int) -> bool {
    exists|i: int| 0 <= i < gs.len() && same_pair(#[trigger] gs[i], u, c) && is_active(gs[i], now)
}

/// How many rows are for the given pair.
pub open spec fn count_pair(gs: Seq<GrantData>, u: Seq<char>, c: Seq<char>) -> nat
    decreases gs.len(),
{
    if gs.len() == 0 {
        0
    } else {
        count_pair(gs.drop_last(), u, c) + if same_pair(gs.last(), u, c) {
            1nat
        } else {
            0nat
        }
    }
}

/// The rows active at the instant, in their original order.
pub open spec fn filter_active(gs: Seq<GrantData>, now: int) -> Seq<GrantData>
    decreases gs.len(),
{
    if gs.len() == 0 {
        Seq::empty()
    } else {
        let rest = filter_active(gs.drop_last(), now);
        if is_active(gs.last(), now) {
            rest.push(gs.last())
        } else {
            rest
        }
    }
}

/// Every row of the active set is an active row of the ledger, and every
/// active row of the ledger appears in the active set.
pub proof fn lemma_filter_active_membership(gs: Seq<GrantData>, now: int)
    ensures
        forall|j: int|
            0 <= j < filter_active(gs, now).len() ==> is_active(
                #[trigger] filter_active(gs, now)[j],
                now,
            ) && gs.contains(filter_active(gs, now)[j]),
        forall|i: int|
            0 <= i < gs.len() && is_active(#[trigger] gs[i], now) ==> filter_active(
                gs,
                now,
            ).contains(gs[i]),
    decreases gs.len(),
{
    if gs.len() > 0 {
        lemma_filter_active_membership(gs.drop_last(), now);
        let rest = filter_active(gs.drop_last(), now);
        let out = filter_active(gs, now);
        assert forall|j: int| 0 <= j < out.len() implies is_active(#[trigger] out[j], now)
            && gs.contains(out[j]) by {
            if j < rest.len() {
                assert(gs.drop_last().contains(rest[j]));
                let w = choose|w: int|
                    0 <= w < gs.drop_last().len() && gs.drop_last()[w] == rest[j];
                assert(gs[w] == rest[j]);
            } else {
                assert(out[j] == gs.last());
                assert(gs[gs.len() - 1] == gs.last());
            }
        }
        assert forall|i: int| 0 <= i < gs.len() && is_active(#[trigger] gs[i], now) implies out
            .contains(gs[i]) by {
            if i < gs.len() - 1 {
                assert(gs.drop_last()[i] == gs[i]);
                assert(rest.contains(gs[i]));
                let w = choose|w: int| 0 <= w < rest.len() && rest[w] == gs[i];
                if is_active(gs.last(), now) {
                    assert(out[w] == gs[i]);
                } else {
                    assert(out[w] == gs[i]);
                }
            } else {
                assert(is_active(gs.last(), now));
                assert(out[out.len() - 1] == gs[i]);
            }
        }
    }
}

/// Extending the ledger by one row extends its active set by that row
/// exactly when the row is active.
pub proof fn lemma_filter_active_push(gs: Seq<GrantData>, g: GrantData, now: int)
    ensures
        filter_active(gs.push(g), now) == if is_active(g, now) {
            filter_active(gs, now).push(g)
        } else {
            filter_active(gs, now)
        },
{
    assert(gs.push(g).drop_last() =~= gs);
    assert(gs.push(g).last() == g);
}

/// How many rows of the active set are for the given pair equals how
/// many active rows of the ledger are for it.
pub proof fn lemma_filter_active_count(gs: Seq<GrantData>, u: Seq<char>, c: Seq<char>, now: int)
    ensures
        count_pair(filter_active(gs, now), u, c) == count_active_pair(gs, u, c, now),
    decreases gs.len(),
{
    if gs.len() > 0 {
        lemma_filter_active_count(gs.drop_last(), u, c, now);
        if is_active(gs.last(), now) {
            assert(filter_active(gs, now).drop_last() =~= filter_active(gs.drop_last(), now));
        }
    }
}

/// How many rows are for the pair and active at the instant.
pub open spec fn count_active_pair(
    gs: Seq<GrantData>,
    u: Seq<char>,
    c: Seq<char>,
    now: int,
) -> nat
    decreases gs.len(),
{
    if gs.len() == 0 {
        0
    } else {
        count_active_pair(gs.drop_last(), u, c, now) + if same_pair(gs.last(), u, c) && is_active(
            gs.last(),
            now,
        ) {
            1nat
        } else {
            0nat
        }
    }
}

/// Compares a ledger row's pair against a (username, command) pair.
pub fn cmp_row_pair(g: &PermissionGrant, u: &str, c: &str) -> (r: Rel)
    ensures
        r is Less <==> pair_below(g@, u@, c@),
        r is Equal <==> same_pair(g@, u@, c@),
{
    proof {
        lemma_seq_cmp_equal(g.username@, u@);
        lemma_seq_cmp_equal(g.command@, c@);
    }
    match str_cmp(g.username.as_str(), u) {
        Rel::Less => Rel::Less,
        Rel::Greater => Rel::Greater,
        Rel::Equal => str_cmp(g.command.as_str(), c),
    }
}

} // verus!
