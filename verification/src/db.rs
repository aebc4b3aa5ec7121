use vstd::prelude::*;
use crate::error::PermissionError;
use crate::grants::{
    AuditAction, AuditData, AuditLogEntry, GrantData, PermissionGrant, filter_active,
    has_active, is_active, lemma_pair_above_lt, lemma_pair_lt_trans, lemma_pair_trichotomy,
    lemma_sorted_unique_pair, pair_above, pair_below, pair_lt, same_pair, sorted_by_pair,
    view_audit, view_grants, cmp_row_pair,
};
use crate::order::Rel;

verus! {

/// The mathematical value of the ledger: the grant rows, the audit trail,
/// and the next free surrogate key.
#[verifier::ext_equal]
pub struct LedgerData {
    pub grants: Seq<GrantData>,
    pub audit: Seq<AuditData>,
    pub next_id: int,
}

/// A fresh, unrevoked grant row.
pub open spec fn new_grant_data(
    id: int,
    u: Seq<char>,
    c: Seq<char>,
    granted_at: int,
    expires_at: int,
    granted_by: Seq<char>,
) -> GrantData {
    GrantData {
        id,
        username: u,
        command: c,
        granted_at,
        expires_at,
        granted_by,
        last_used: None,
        revoked: false,
        revoked_at: None,
        revoked_by: None,
    }
}

/// One audit-trail entry.
pub open spec fn audit_data(
    timestamp: int,
    u: Seq<char>,
    c: Seq<char>,
    action: AuditAction,
    details: Option<Seq<char>>,
) -> AuditData {
    AuditData { timestamp, username: u, command: c, action, details }
}

/// The rows after a new grant: the row for the new grant's pair, if one
/// exists, is replaced, else the new row is placed at its ordered
/// position.
pub open spec fn upsert(gs: Seq<GrantData>, g: GrantData) -> Seq<GrantData>
    decreases gs.len(),
{
    if gs.len() == 0 {
        seq![g]
    } else if pair_lt(g, gs.first()) {
        seq![g] + gs
    } else if same_pair(gs.first(), g.username, g.command) {
        seq![g] + gs.drop_first()
    } else {
        seq![gs.first()] + upsert(gs.drop_first(), g)
    }
}

/// The index of the first row for the pair, or the length when no row is
/// for it.
pub open spec fn find_pair_index(gs: Seq<GrantData>, u: Seq<char>, c: Seq<char>) -> int
    decreases gs.len(),
{
    if gs.len() == 0 {
        0
    } else if same_pair(gs.first(), u, c) {
        0
    } else {
        1 + find_pair_index(gs.drop_first(), u, c)
    }
}

/// The row, marked revoked at the instant by the given actor.
pub open spec fn revoke_mark(g: GrantData, now: int, by: Seq<char>) -> GrantData {
    GrantData { revoked: true, revoked_at: Some(now), revoked_by: Some(by), ..g }
}

/// The row, with its last use recorded at the instant.
pub open spec fn with_last_used(g: GrantData, now: int) -> GrantData {
    GrantData { last_used: Some(now), ..g }
}

/// A row as the expiry sweep leaves it: an unrevoked row whose expiry has
/// passed is revoked and attributed to the reserved system actor; any
/// other row is untouched.
pub open spec fn sweep_one(g: GrantData, now: int) -> GrantData {
    if !g.revoked && g.expires_at <= now {
        revoke_mark(g, now, "system_cleanup"@)
    } else {
        g
    }
}

/// All rows as the expiry sweep leaves them.
pub open spec fn sweep_all(gs: Seq<GrantData>, now: int) -> Seq<GrantData> {
    gs.map_values(|g: GrantData| sweep_one(g, now))
}

/// How many rows the expiry sweep affects: the unrevoked rows whose
/// expiry has passed.
pub open spec fn count_expired(gs: Seq<GrantData>, now: int) -> nat
    decreases gs.len(),
{
    if gs.len() == 0 {
        0
    } else {
        count_expired(gs.drop_last(), now) + if !gs.last().revoked && gs.last().expires_at
            <= now {
            1nat
        } else {
            0nat
        }
    }
}

/// Extending the prefix under sweep count by one row adds one exactly
/// when that row is unrevoked and expired.
proof fn lemma_count_expired_take_step(gs: Seq<GrantData>, now: int, i: int)
    requires
        0 <= i < gs.len(),
    ensures
        count_expired(gs.take(i + 1), now) == count_expired(gs.take(i), now) + if !gs[i].revoked
            && gs[i].expires_at <= now {
            1nat
        } else {
            0nat
        },
{
    assert(gs.take(i + 1).drop_last() =~= gs.take(i));
    assert(gs.take(i + 1).last() == gs[i]);
}

/// True when the rows stand in non-increasing expiry order.
pub open spec fn sorted_by_expiry_desc(gs: Seq<GrantData>) -> bool {
    forall|i: int, j: int|
        0 <= i < j < gs.len() ==> (#[trigger] gs[i]).expires_at >= (#[trigger] gs[j]).expires_at
}

/// The rows for the user that are active at the instant, in their
/// original order.
pub open spec fn filter_user_active(gs: Seq<GrantData>, u: Seq<char>, now: int) -> Seq<GrantData>
    decreases gs.len(),
{
    if gs.len() == 0 {
        Seq::empty()
    } else {
        let rest = filter_user_active(gs.drop_last(), u, now);
        if gs.last().username == u && is_active(gs.last(), now) {
            rest.push(gs.last())
        } else {
            rest
        }
    }
}

/// One row placed into a sequence that is in non-increasing expiry
/// order: it goes before the first row that expires strictly earlier.
pub open spec fn insert_desc(s: Seq<GrantData>, g: GrantData) -> Seq<GrantData>
    decreases s.len(),
{
    if s.len() == 0 {
        seq![g]
    } else if g.expires_at > s.first().expires_at {
        seq![g] + s
    } else {
        seq![s.first()] + insert_desc(s.drop_first(), g)
    }
}

/// The rows rearranged into non-increasing expiry order, stably.
pub open spec fn sort_desc(s: Seq<GrantData>) -> Seq<GrantData>
    decreases s.len(),
{
    if s.len() == 0 {
        Seq::empty()
    } else {
        insert_desc(sort_desc(s.drop_last()), s.last())
    }
}

/// Placing a row by `insert_desc` equals inserting it at the first
/// position whose row expires strictly earlier.
proof fn lemma_insert_desc_at(s: Seq<GrantData>, g: GrantData, p: int)
    requires
        0 <= p <= s.len(),
        forall|k: int| 0 <= k < p ==> (#[trigger] s[k]).expires_at >= g.expires_at,
        p == s.len() || s[p].expires_at < g.expires_at,
    ensures
        insert_desc(s, g) == s.insert(p, g),
    decreases s.len(),
{
    if p == 0 {
        if s.len() == 0 {
            assert(insert_desc(s, g) =~= s.insert(0, g));
        } else {
            assert(insert_desc(s, g) == seq![g] + s);
            assert(seq![g] + s =~= s.insert(0, g));
        }
    } else {
        let rest = s.drop_first();
        assert forall|k: int| 0 <= k < p - 1 implies (#[trigger] rest[k]).expires_at
            >= g.expires_at by {
            assert(rest[k] == s[k + 1]);
        }
        if p - 1 < rest.len() {
            assert(rest[p - 1] == s[p]);
        }
        lemma_insert_desc_at(rest, g, p - 1);
        assert(seq![s.first()] + rest.insert(p - 1, g) =~= s.insert(p, g));
    }
}

/// Every row of the placed sequence is the placed row or one of the
/// original rows.
proof fn lemma_insert_desc_membership(s: Seq<GrantData>, g: GrantData)
    ensures
        insert_desc(s, g).len() == s.len() + 1,
        forall|k: int|
            0 <= k < insert_desc(s, g).len() ==> (#[trigger] insert_desc(s, g)[k] == g
                || s.contains(insert_desc(s, g)[k])),
    decreases s.len(),
{
    if s.len() > 0 && !(g.expires_at > s.first().expires_at) {
        let rest = s.drop_first();
        lemma_insert_desc_membership(rest, g);
        let res = insert_desc(s, g);
        assert forall|k: int| 0 <= k < res.len() implies (#[trigger] res[k] == g || s.contains(
            res[k],
        )) by {
            if k == 0 {
                assert(s[0] == res[0]);
            } else {
                assert(res[k] == insert_desc(rest, g)[k - 1]);
                if res[k] != g {
                    assert(rest.contains(res[k]));
                    let w = choose|w: int| 0 <= w < rest.len() && rest[w] == res[k];
                    assert(s[w + 1] == res[k]);
                }
            }
        }
    }
}

/// Placing a row keeps non-increasing expiry order.
proof fn lemma_insert_desc_sorted(s: Seq<GrantData>, g: GrantData)
    requires
        sorted_by_expiry_desc(s),
    ensures
        sorted_by_expiry_desc(insert_desc(s, g)),
    decreases s.len(),
{
    let res = insert_desc(s, g);
    if s.len() == 0 {
    } else if g.expires_at > s.first().expires_at {
        assert forall|i: int, j: int| 0 <= i < j < res.len() implies (#[trigger] res[i]).expires_at
            >= (#[trigger] res[j]).expires_at by {
            if i > 0 {
                assert(res[i] == s[i - 1]);
                assert(res[j] == s[j - 1]);
            } else {
                assert(res[j] == s[j - 1]);
                if j - 1 > 0 {
                    assert(s[0].expires_at >= s[j - 1].expires_at);
                }
            }
        }
    } else {
        let rest = s.drop_first();
        assert forall|i: int, j: int| 0 <= i < j < rest.len() implies (
        #[trigger] rest[i]).expires_at >= (#[trigger] rest[j]).expires_at by {
            assert(rest[i] == s[i + 1]);
            assert(rest[j] == s[j + 1]);
        }
        lemma_insert_desc_sorted(rest, g);
        lemma_insert_desc_membership(rest, g);
        let sub = insert_desc(rest, g);
        assert forall|i: int, j: int| 0 <= i < j < res.len() implies (#[trigger] res[i]).expires_at
            >= (#[trigger] res[j]).expires_at by {
            if i > 0 {
                assert(res[i] == sub[i - 1]);
                assert(res[j] == sub[j - 1]);
            } else {
                assert(res[0] == s[0]);
                assert(res[j] == sub[j - 1]);
                if sub[j - 1] == g {
                } else {
                    assert(rest.contains(sub[j - 1]));
                    let w = choose|w: int| 0 <= w < rest.len() && rest[w] == sub[j - 1];
                    assert(s[0].expires_at >= s[w + 1].expires_at);
                }
            }
        }
    }
}

/// A sequence sorted by `sort_desc` is in non-increasing expiry order.
pub proof fn lemma_sort_desc_sorted(s: Seq<GrantData>)
    ensures
        sorted_by_expiry_desc(sort_desc(s)),
    decreases s.len(),
{
    if s.len() > 0 {
        lemma_sort_desc_sorted(s.drop_last());
        lemma_insert_desc_sorted(sort_desc(s.drop_last()), s.last());
    }
}

/// Well-formedness of the ledger: rows in strictly ascending pair order,
/// surrogate keys positive, below the next free key, and pairwise
/// distinct.
pub open spec fn ledger_wf(d: LedgerData) -> bool {
    &&& sorted_by_pair(d.grants)
    &&& 1 <= d.next_id
    &&& forall|i: int| 0 <= i < d.grants.len() ==> 0 < (#[trigger] d.grants[i]).id < d.next_id
    &&& forall|i: int, j: int|
        0 <= i < j < d.grants.len() ==> (#[trigger] d.grants[i]).id != (#[trigger] d.grants[j]).id
}

/// Where the new row lands: placing it by `upsert` equals replacing the
/// matched row, or inserting at the first position that is not below it.
proof fn lemma_upsert_decomposition(gs: Seq<GrantData>, g: GrantData, i: int, matched: bool)
    requires
        sorted_by_pair(gs),
        0 <= i <= gs.len(),
        forall|k: int| 0 <= k < i ==> pair_below(#[trigger] gs[k], g.username, g.command),
        matched ==> i < gs.len() && same_pair(gs[i], g.username, g.command),
        !matched ==> (i == gs.len() || pair_above(gs[i], g.username, g.command)),
    ensures
        upsert(gs, g) == if matched {
            gs.update(i, g)
        } else {
            gs.insert(i, g)
        },
    decreases gs.len(),
{
    if i == 0 {
        if gs.len() == 0 {
            assert(upsert(gs, g) =~= gs.insert(0, g));
        } else if matched {
            lemma_pair_trichotomy(gs.first(), g.username, g.command);
            lemma_pair_above_lt(g, gs.first());
            assert(upsert(gs, g) == seq![g] + gs.drop_first());
            assert(seq![g] + gs.drop_first() =~= gs.update(0, g));
        } else {
            lemma_pair_above_lt(g, gs.first());
            assert(upsert(gs, g) == seq![g] + gs);
            assert(seq![g] + gs =~= gs.insert(0, g));
        }
    } else {
        lemma_pair_trichotomy(gs.first(), g.username, g.command);
        lemma_pair_above_lt(g, gs.first());
        assert(pair_below(gs[0], g.username, g.command));
        let rest = gs.drop_first();
        assert forall|x: int, y: int| 0 <= x < y < rest.len() implies pair_lt(
            #[trigger] rest[x],
            #[trigger] rest[y],
        ) by {
            assert(rest[x] == gs[x + 1]);
            assert(rest[y] == gs[y + 1]);
        }
        assert forall|k: int| 0 <= k < i - 1 implies pair_below(
            #[trigger] rest[k],
            g.username,
            g.command,
        ) by {
            assert(rest[k] == gs[k + 1]);
        }
        if matched {
            assert(rest[i - 1] == gs[i]);
        }
        if !matched && i < gs.len() {
            assert(rest[i - 1] == gs[i]);
        }
        lemma_upsert_decomposition(rest, g, i - 1, matched);
        if matched {
            assert(seq![gs.first()] + rest.update(i - 1, g) =~= gs.update(i, g));
        } else {
            assert(seq![gs.first()] + rest.insert(i - 1, g) =~= gs.insert(i, g));
        }
    }
}

/// The ledger stays well-formed when a fresh grant row, keyed by the next
/// free surrogate key, is placed by `upsert`.
proof fn lemma_upsert_wf(gs: Seq<GrantData>, g: GrantData, i: int, matched: bool, next_id: int)
    requires
        sorted_by_pair(gs),
        1 <= next_id,
        forall|k: int| 0 <= k < gs.len() ==> 0 < (#[trigger] gs[k]).id < next_id,
        forall|x: int, y: int|
            0 <= x < y < gs.len() ==> (#[trigger] gs[x]).id != (#[trigger] gs[y]).id,
        g.id == next_id,
        0 <= i <= gs.len(),
        forall|k: int| 0 <= k < i ==> pair_below(#[trigger] gs[k], g.username, g.command),
        matched ==> i < gs.len() && same_pair(gs[i], g.username, g.command),
        !matched ==> (i == gs.len() || pair_above(gs[i], g.username, g.command)),
    ensures
        sorted_by_pair(upsert(gs, g)),
        forall|k: int|
            0 <= k < upsert(gs, g).len() ==> 0 < (#[trigger] upsert(gs, g)[k]).id < next_id + 1,
        forall|x: int, y: int|
            0 <= x < y < upsert(gs, g).len() ==> (#[trigger] upsert(gs, g)[x]).id != (
            #[trigger] upsert(gs, g)[y]).id,
{
    lemma_upsert_decomposition(gs, g, i, matched);
    let res = upsert(gs, g);
    if matched {
        assert(res == gs.update(i, g));
        assert forall|x: int, y: int| 0 <= x < y < res.len() implies pair_lt(
            #[trigger] res[x],
            #[trigger] res[y],
        ) by {
            if x == i {
                assert(pair_lt(gs[i], gs[y]));
            } else if y == i {
                assert(pair_below(gs[x], g.username, g.command));
            }
        }
    } else {
        assert(res == gs.insert(i, g));
        assert(res.len() == gs.len() + 1);
        assert forall|k: int| 0 <= k < res.len() implies res[k] == (if k < i {
            gs[k]
        } else if k == i {
            g
        } else {
            gs[k - 1]
        }) by {}
        assert forall|x: int, y: int| 0 <= x < y < res.len() implies pair_lt(
            #[trigger] res[x],
            #[trigger] res[y],
        ) by {
            if y == i {
                assert(pair_below(gs[x], g.username, g.command));
            } else if x == i {
                // res[y] == gs[y - 1] with y - 1 >= i
                if i < gs.len() {
                    lemma_pair_above_lt(g, gs[i]);
                    if y - 1 > i {
                        lemma_pair_lt_trans(g, gs[i], gs[y - 1]);
                    }
                }
            }
        }
    }
}

/// When the first row for the pair stands at `i` and no earlier row is
/// for it, `find_pair_index` is `i`.
proof fn lemma_find_pair_index_first(gs: Seq<GrantData>, u: Seq<char>, c: Seq<char>, i: int)
    requires
        0 <= i < gs.len(),
        same_pair(gs[i], u, c),
        forall|k: int| 0 <= k < i ==> !same_pair(#[trigger] gs[k], u, c),
    ensures
        find_pair_index(gs, u, c) == i,
    decreases i,
{
    if i == 0 {
    } else {
        let rest = gs.drop_first();
        assert(rest[i - 1] == gs[i]);
        assert forall|k: int| 0 <= k < i - 1 implies !same_pair(#[trigger] rest[k], u, c) by {
            assert(rest[k] == gs[k + 1]);
        }
        lemma_find_pair_index_first(rest, u, c, i - 1);
    }
}

/// When no row is for the pair, `find_pair_index` is the length.
proof fn lemma_find_pair_index_none(gs: Seq<GrantData>, u: Seq<char>, c: Seq<char>)
    requires
        forall|k: int| 0 <= k < gs.len() ==> !same_pair(#[trigger] gs[k], u, c),
    ensures
        find_pair_index(gs, u, c) == gs.len(),
    decreases gs.len(),
{
    if gs.len() > 0 {
        let rest = gs.drop_first();
        assert forall|k: int| 0 <= k < rest.len() implies !same_pair(#[trigger] rest[k], u, c) by {
            assert(rest[k] == gs[k + 1]);
        }
        lemma_find_pair_index_none(rest, u, c);
    }
}

/// In a sorted ledger, when the scan stopped at `i` without a match, no
/// row at all is for the pair.
proof fn lemma_no_match_from_slot(gs: Seq<GrantData>, u: Seq<char>, c: Seq<char>, i: int)
    requires
        sorted_by_pair(gs),
        0 <= i <= gs.len(),
        forall|k: int| 0 <= k < i ==> pair_below(#[trigger] gs[k], u, c),
        i == gs.len() || pair_above(gs[i], u, c),
    ensures
        forall|j: int| 0 <= j < gs.len() ==> !same_pair(#[trigger] gs[j], u, c),
{
    let probe = new_grant_data(0, u, c, 0, 0, Seq::empty());
    assert forall|j: int| 0 <= j < gs.len() implies !same_pair(#[trigger] gs[j], u, c) by {
        lemma_pair_trichotomy(gs[j], u, c);
        if j >= i {
            lemma_pair_above_lt(probe, gs[i]);
            if j > i {
                lemma_pair_lt_trans(probe, gs[i], gs[j]);
            }
            lemma_pair_above_lt(probe, gs[j]);
        }
    }
}

/// Rows each below their successor are sorted: a chained comparison.
proof fn lemma_pair_lt_chain(gs: Seq<GrantData>, i: int, j: int)
    requires
        forall|k: int| 0 <= k < gs.len() - 1 ==> pair_lt(#[trigger] gs[k], gs[k + 1]),
        0 <= i < j < gs.len(),
    ensures
        pair_lt(gs[i], gs[j]),
    decreases j - i,
{
    if j == i + 1 {
    } else {
        lemma_pair_lt_chain(gs, i, j - 1);
        lemma_pair_lt_trans(gs[i], gs[j - 1], gs[j]);
    }
}

/// A ledger whose every row is below its successor is sorted.
proof fn lemma_adjacent_implies_sorted(gs: Seq<GrantData>)
    requires
        forall|k: int| 0 <= k < gs.len() - 1 ==> pair_lt(#[trigger] gs[k], gs[k + 1]),
    ensures
        sorted_by_pair(gs),
{
    assert forall|i: int, j: int| 0 <= i < j < gs.len() implies pair_lt(
        #[trigger] gs[i],
        #[trigger] gs[j],
    ) by {
        lemma_pair_lt_chain(gs, i, j);
    }
}

/// Durable ledger of permission grants and the append-only audit trail.
///
/// Rows are kept in strictly ascending (username, command) order, so each
/// pair has at most one row; a new grant for a pair supersedes its old
/// row, as the storage engine's replace-on-conflict key did. A superseded
/// row is replaced, not kept: only the audit trail still records the
/// earlier grant.
#[derive(Debug)]
pub struct Database {
    grants: Vec<PermissionGrant>,
    audit: Vec<AuditLogEntry>,
    next_id: i64,
}

impl View for Database {
    type V = LedgerData;

    closed spec fn view(&self) -> LedgerData {
        LedgerData {
            grants: view_grants(self.grants@),
            audit: view_audit(self.audit@),
            next_id: self.next_id as int,
        }
    }
}

/// The first position whose row is not below the pair, and whether that
/// row is for the pair itself.
fn find_slot(grants: &Vec<PermissionGrant>, username: &str, command: &str) -> (r: (usize, bool))
    requires
        sorted_by_pair(view_grants(grants@)),
    ensures
        r.0 <= grants@.len(),
        forall|k: int|
            0 <= k < r.0 ==> pair_below(#[trigger] view_grants(grants@)[k], username@, command@),
        r.1 ==> r.0 < grants@.len() && same_pair(
            view_grants(grants@)[r.0 as int],
            username@,
            command@,
        ),
        !r.1 ==> (r.0 == grants@.len() || pair_above(
            view_grants(grants@)[r.0 as int],
            username@,
            command@,
        )),
{
    let n = grants.len();
    let mut i: usize = 0;
    while i < n
        invariant
            i <= n,
            n == grants@.len(),
            forall|k: int|
                0 <= k < i ==> pair_below(#[trigger] view_grants(grants@)[k], username@, command@),
        decreases n - i,
    {
        match cmp_row_pair(&grants[i], username, command) {
            Rel::Less => {
                i += 1;
            },
            Rel::Equal => {
                return (i, true);
            },
            Rel::Greater => {
                proof {
                    lemma_pair_trichotomy(view_grants(grants@)[i as int], username@, command@);
                }
                return (i, false);
            },
        }
    }
    (i, false)
}

impl Database {
    /// Well-formedness of the ledger.
    pub open spec fn wf(&self) -> bool {
        ledger_wf(self@)
    }

    /// Create an empty ledger.
    pub fn new() -> (db: Database)
        ensures
            db.wf(),
            db@.grants.len() == 0,
            db@.audit.len() == 0,
            db@.next_id == 1,
    {
        Database { grants: Vec::new(), audit: Vec::new(), next_id: 1 }
    }

    /// Rebuild a ledger from persisted records. The records are admitted
    /// exactly when they form a well-formed ledger: rows in strictly
    /// ascending (username, command) order, surrogate keys positive,
    /// below the next free key, and pairwise distinct.
    pub fn from_records(
        grants: Vec<PermissionGrant>,
        audit: Vec<AuditLogEntry>,
        next_id: i64,
    ) -> (r: Result<Database, PermissionError>)
        ensures
            r is Ok <==> ledger_wf(
                LedgerData {
                    grants: view_grants(grants@),
                    audit: view_audit(audit@),
                    next_id: next_id as int,
                },
            ),
            r matches Ok(db) ==> {
                &&& db@.grants == view_grants(grants@)
                &&& db@.audit == view_audit(audit@)
                &&& db@.next_id == next_id as int
                &&& db.wf()
            },
            r matches Err(e) ==> e is Storage,
    {
        let ghost gs = view_grants(grants@);
        if next_id < 1 {
            return Err(PermissionError::Storage("next id must be at least 1".to_owned()));
        }
        let n = grants.len();
        let mut i: usize = 0;
        while n > 0 && i < n - 1
            invariant
                n == grants@.len(),
                gs == view_grants(grants@),
                i <= n,
                forall|k: int| 0 <= k < i ==> pair_lt(#[trigger] gs[k], gs[k + 1]),
            decreases n - i,
        {
            match cmp_row_pair(
                &grants[i],
                grants[i + 1].username.as_str(),
                grants[i + 1].command.as_str(),
            ) {
                Rel::Less => {
                    i += 1;
                },
                _ => {
                    proof {
                        assert(!pair_lt(gs[i as int], gs[i as int + 1]));
                        assert(!sorted_by_pair(gs));
                    }
                    return Err(
                        PermissionError::Storage("ledger records are not ordered".to_owned()),
                    );
                },
            }
        }
        proof {
            lemma_adjacent_implies_sorted(gs);
        }
        let mut i: usize = 0;
        while i < n
            invariant
                n == grants@.len(),
                gs == view_grants(grants@),
                i <= n,
                next_id >= 1,
                forall|k: int| 0 <= k < i ==> 0 < (#[trigger] gs[k]).id < next_id,
                forall|x: int, y: int|
                    0 <= x < y < n && x < i ==> (#[trigger] gs[x]).id != (#[trigger] gs[y]).id,
            decreases n - i,
        {
            if grants[i].id < 1 || grants[i].id >= next_id {
                return Err(PermissionError::Storage("ledger record id out of range".to_owned()));
            }
            let mut j: usize = i + 1;
            while j < n
                invariant
                    n == grants@.len(),
                    gs == view_grants(grants@),
                    i < j <= n,
                    forall|k: int| i < k < j ==> (#[trigger] gs[k]).id != gs[i as int].id,
                decreases n - j,
            {
                if grants[j].id == grants[i].id {
                    proof {
                        assert(gs[i as int].id == gs[j as int].id);
                    }
                    return Err(PermissionError::Storage("ledger record id repeated".to_owned()));
                }
                j += 1;
            }
            i += 1;
        }
        Ok(Database { grants, audit, next_id })
    }

    /// The grant rows, in (username, command) order.
    pub fn grant_rows(&self) -> (r: &Vec<PermissionGrant>)
        ensures
            view_grants(r@) == self@.grants,
    {
        &self.grants
    }

    /// The audit trail, oldest entry first.
    pub fn audit_rows(&self) -> (r: &Vec<AuditLogEntry>)
        ensures
            view_audit(r@) == self@.audit,
    {
        &self.audit
    }

    /// The next free surrogate key.
    pub fn next_grant_id(&self) -> (r: i64)
        ensures
            r == self@.next_id,
    {
        self.next_id
    }

    /// Append one audit entry.
    fn add_audit(
        &mut self,
        username: &str,
        command: &str,
        action: AuditAction,
        details: Option<String>,
        now: i64,
    )
        ensures
            final(self)@.grants == old(self)@.grants,
            final(self)@.next_id == old(self)@.next_id,
            final(self)@.audit == old(self)@.audit.push(
                audit_data(
                    now as int,
                    username@,
                    command@,
                    action,
                    match details {
                        Some(s) => Some(s@),
                        None => None,
                    },
                ),
            ),
    {
        let entry = AuditLogEntry {
            timestamp: now,
            username: username.to_owned(),
            command: command.to_owned(),
            action,
            details,
        };
        let ghost e = entry@;
        self.audit.push(entry);
        proof {
            assert(view_audit(final(self).audit@) =~= view_audit(old(self).audit@).push(e));
        }
    }

    /// Insert a new active grant for the pair; an existing row for the
    /// pair, active or not, is superseded. The new row takes the next
    /// surrogate key, which is returned, and a grant audit entry is
    /// appended.
    ///
    /// `now` is the instant of the grant; `expires_at` when it expires.
    pub fn grant_permission(
        &mut self,
        username: &str,
        command: &str,
        expires_at: i64,
        granted_by: &str,
        now: i64,
    ) -> (id: i64)
        requires
            old(self).wf(),
            old(self)@.next_id < i64::MAX,
        ensures
            final(self).wf(),
            id == old(self)@.next_id,
            final(self)@.grants == upsert(
                old(self)@.grants,
                new_grant_data(
                    old(self)@.next_id,
                    username@,
                    command@,
                    now as int,
                    expires_at as int,
                    granted_by@,
                ),
            ),
            final(self)@.audit == old(self)@.audit.push(
                audit_data(now as int, username@, command@, AuditAction::Grant, Some(granted_by@)),
            ),
            final(self)@.next_id == old(self)@.next_id + 1,
    {
        let row = PermissionGrant {
            id: self.next_id,
            username: username.to_owned(),
            command: command.to_owned(),
            granted_at: now,
            expires_at,
            granted_by: granted_by.to_owned(),
            last_used: None,
            revoked: false,
            revoked_at: None,
            revoked_by: None,
        };
        let ghost g = row@;
        let ghost gs0 = view_grants(old(self).grants@);
        let (i, matched) = find_slot(&self.grants, username, command);
        proof {
            lemma_upsert_decomposition(gs0, g, i as int, matched);
            lemma_upsert_wf(gs0, g, i as int, matched, old(self)@.next_id);
        }
        if matched {
            self.grants.set(i, row);
            proof {
                assert(view_grants(self.grants@) =~= gs0.update(i as int, g));
            }
        } else {
            self.grants.insert(i, row);
            proof {
                assert(view_grants(self.grants@) =~= gs0.insert(i as int, g));
            }
        }
        let id = self.next_id;
        self.next_id = self.next_id + 1;
        self.add_audit(username, command, AuditAction::Grant, Some(granted_by.to_owned()), now);
        id
    }

    /// True iff an active (unrevoked, unexpired) grant exists for the
    /// pair at the instant.
    pub fn check_permission(&self, username: &str, command: &str, now: i64) -> (r: bool)
        ensures
            r == has_active(self@.grants, username@, command@, now as int),
    {
        let n = self.grants.len();
        let mut i: usize = 0;
        while i < n
            invariant
                i <= n,
                n == self.grants@.len(),
                forall|k: int|
                    0 <= k < i ==> !(same_pair(
                        #[trigger] view_grants(self.grants@)[k],
                        username@,
                        command@,
                    ) && is_active(view_grants(self.grants@)[k], now as int)),
            decreases n - i,
        {
            let row = &self.grants[i];
            match cmp_row_pair(row, username, command) {
                Rel::Equal => {
                    if !row.revoked && row.expires_at > now {
                        proof {
                            assert(same_pair(
                                view_grants(self.grants@)[i as int],
                                username@,
                                command@,
                            ) && is_active(view_grants(self.grants@)[i as int], now as int));
                        }
                        return true;
                    }
                },
                _ => {},
            }
            i += 1;
        }
        false
    }

    /// Mark the active grant for the pair, if one exists, as revoked at
    /// the instant by the given actor; the returned value says whether
    /// one existed. A revoke audit entry is appended exactly when a
    /// revocation occurred.
    pub fn revoke_permission(
        &mut self,
        username: &str,
        command: &str,
        revoked_by: &str,
        now: i64,
    ) -> (r: bool)
        requires
            old(self).wf(),
        ensures
            final(self).wf(),
            r == has_active(old(self)@.grants, username@, command@, now as int),
            r ==> {
                let gs = old(self)@.grants;
                let idx = find_pair_index(gs, username@, command@);
                &&& final(self)@.grants == gs.update(
                    idx,
                    revoke_mark(gs[idx], now as int, revoked_by@),
                )
                &&& final(self)@.audit == old(self)@.audit.push(
                    audit_data(
                        now as int,
                        username@,
                        command@,
                        AuditAction::Revoke,
                        Some(revoked_by@),
                    ),
                )
            },
            !r ==> final(self)@ == old(self)@,
            final(self)@.next_id == old(self)@.next_id,
    {
        let ghost gs = view_grants(old(self).grants@);
        let (i, matched) = find_slot(&self.grants, username, command);
        proof {
            assert forall|k: int| 0 <= k < i implies !same_pair(#[trigger] gs[k], username@, command@) by {
                lemma_pair_trichotomy(gs[k], username@, command@);
            }
        }
        if !matched {
            proof {
                lemma_no_match_from_slot(gs, username@, command@, i as int);
            }
            return false;
        }
        proof {
            lemma_find_pair_index_first(gs, username@, command@, i as int);
            assert forall|j: int|
                0 <= j < gs.len() && j != i implies !same_pair(
                #[trigger] gs[j],
                username@,
                command@,
            ) by {
                if j > i {
                    lemma_sorted_unique_pair(gs, username@, command@, i as int, j);
                }
            }
        }
        let row = &self.grants[i];
        if row.revoked || row.expires_at <= now {
            proof {
                assert(!is_active(gs[i as int], now as int));
                assert(!has_active(gs, username@, command@, now as int));
            }
            return false;
        }
        let mut updated = self.grants[i].clone();
        updated.revoked = true;
        updated.revoked_at = Some(now);
        updated.revoked_by = Some(revoked_by.to_owned());
        proof {
            assert(updated@ =~= revoke_mark(gs[i as int], now as int, revoked_by@));
        }
        self.grants.set(i, updated);
        proof {
            assert(view_grants(self.grants@) =~= gs.update(
                i as int,
                revoke_mark(gs[i as int], now as int, revoked_by@),
            ));
            let res = view_grants(self.grants@);
            assert forall|x: int, y: int| 0 <= x < y < res.len() implies pair_lt(
                #[trigger] res[x],
                #[trigger] res[y],
            ) by {
                assert(pair_lt(gs[x], gs[y]));
            }
            assert(has_active(gs, username@, command@, now as int)) by {
                assert(same_pair(gs[i as int], username@, command@) && is_active(
                    gs[i as int],
                    now as int,
                ));
            }
        }
        self.add_audit(username, command, AuditAction::Revoke, Some(revoked_by.to_owned()), now);
        true
    }

    /// Record a use of the pair's grant at the instant: the active grant,
    /// if one exists, gets its last-used time set, and a use audit entry
    /// is appended either way.
    pub fn update_last_used(&mut self, username: &str, command: &str, now: i64)
        requires
            old(self).wf(),
        ensures
            final(self).wf(),
            final(self)@.grants == ({
                let gs = old(self)@.grants;
                let idx = find_pair_index(gs, username@, command@);
                if idx < gs.len() && is_active(gs[idx], now as int) {
                    gs.update(idx, with_last_used(gs[idx], now as int))
                } else {
                    gs
                }
            }),
            final(self)@.audit == old(self)@.audit.push(
                audit_data(now as int, username@, command@, AuditAction::Use, None),
            ),
            final(self)@.next_id == old(self)@.next_id,
    {
        let ghost gs = view_grants(old(self).grants@);
        let (i, matched) = find_slot(&self.grants, username, command);
        proof {
            assert forall|k: int| 0 <= k < i implies !same_pair(#[trigger] gs[k], username@, command@) by {
                lemma_pair_trichotomy(gs[k], username@, command@);
            }
            if matched {
                lemma_find_pair_index_first(gs, username@, command@, i as int);
            } else {
                lemma_no_match_from_slot(gs, username@, command@, i as int);
                lemma_find_pair_index_none(gs, username@, command@);
            }
        }
        if matched {
            let row = &self.grants[i];
            if !row.revoked && row.expires_at > now {
                let mut updated = self.grants[i].clone();
                updated.last_used = Some(now);
                proof {
                    assert(updated@ =~= with_last_used(gs[i as int], now as int));
                }
                self.grants.set(i, updated);
                proof {
                    assert(view_grants(self.grants@) =~= gs.update(
                        i as int,
                        with_last_used(gs[i as int], now as int),
                    ));
                    let res = view_grants(self.grants@);
                    assert forall|x: int, y: int| 0 <= x < y < res.len() implies pair_lt(
                        #[trigger] res[x],
                        #[trigger] res[y],
                    ) by {
                        assert(pair_lt(gs[x], gs[y]));
                    }
                }
            }
        }
        self.add_audit(username, command, AuditAction::Use, None, now);
    }

    /// Mark every unrevoked grant whose expiry has passed as revoked by
    /// the reserved system actor, and return how many were affected.
    pub fn cleanup_expired(&mut self, now: i64) -> (count: u64)
        requires
            old(self).wf(),
        ensures
            final(self).wf(),
            final(self)@.grants == sweep_all(old(self)@.grants, now as int),
            count == count_expired(old(self)@.grants, now as int),
            final(self)@.audit == old(self)@.audit,
            final(self)@.next_id == old(self)@.next_id,
    {
        let ghost gs = view_grants(old(self).grants@);
        let n = self.grants.len();
        let mut count: usize = 0;
        let mut i: usize = 0;
        while i < n
            invariant
                i <= n,
                n == self.grants@.len(),
                gs.len() == n,
                self.audit@ == old(self).audit@,
                self.next_id == old(self).next_id,
                forall|k: int|
                    0 <= k < i ==> view_grants(self.grants@)[k] == sweep_one(
                        #[trigger] gs[k],
                        now as int,
                    ),
                forall|k: int| i <= k < n ==> #[trigger] view_grants(self.grants@)[k] == gs[k],
                count == count_expired(gs.take(i as int), now as int),
                count <= i,
            decreases n - i,
        {
            proof {
                assert(view_grants(self.grants@)[i as int] == self.grants@[i as int]@);
                assert(view_grants(self.grants@)[i as int] == gs[i as int]);
                lemma_count_expired_take_step(gs, now as int, i as int);
            }
            let row = &self.grants[i];
            if !row.revoked && row.expires_at <= now {
                let mut updated = self.grants[i].clone();
                updated.revoked = true;
                updated.revoked_at = Some(now);
                updated.revoked_by = Some("system_cleanup".to_owned());
                proof {
                    assert(updated@ =~= sweep_one(gs[i as int], now as int));
                }
                let ghost before = view_grants(self.grants@);
                self.grants.set(i, updated);
                proof {
                    assert(view_grants(self.grants@) =~= before.update(i as int, updated@));
                }
                count += 1;
            }
            i += 1;
        }
        proof {
            assert(gs.take(n as int) =~= gs);
            assert(view_grants(self.grants@) =~= sweep_all(gs, now as int));
            let res = view_grants(self.grants@);
            assert forall|x: int, y: int| 0 <= x < y < res.len() implies pair_lt(
                #[trigger] res[x],
                #[trigger] res[y],
            ) by {
                assert(pair_lt(gs[x], gs[y]));
            }
            assert forall|k: int| 0 <= k < res.len() implies 0 < (#[trigger] res[k]).id
                < self@.next_id by {
                assert(gs[k].id == res[k].id);
            }
            assert forall|x: int, y: int| 0 <= x < y < res.len() implies (#[trigger] res[x]).id
                != (#[trigger] res[y]).id by {
                assert(gs[x].id != gs[y].id);
            }
        }
        count as u64
    }

    /// All grants active at the instant, in ascending (username, command)
    /// order; this is the canonical input to the policy-file rendering.
    pub fn list_active_permissions(&self, now: i64) -> (r: Vec<PermissionGrant>)
        ensures
            view_grants(r@) == filter_active(self@.grants, now as int),
    {
        let ghost gs = view_grants(self.grants@);
        let n = self.grants.len();
        let mut out: Vec<PermissionGrant> = Vec::new();
        let mut i: usize = 0;
        proof {
            assert(gs.take(0) =~= Seq::<GrantData>::empty());
            assert(view_grants(out@) =~= Seq::<GrantData>::empty());
        }
        while i < n
            invariant
                i <= n,
                n == self.grants@.len(),
                gs == view_grants(self.grants@),
                view_grants(out@) == filter_active(gs.take(i as int), now as int),
            decreases n - i,
        {
            proof {
                crate::grants::lemma_filter_active_push(
                    gs.take(i as int),
                    gs[i as int],
                    now as int,
                );
                assert(gs.take(i as int + 1) =~= gs.take(i as int).push(gs[i as int]));
            }
            let row = &self.grants[i];
            if !row.revoked && row.expires_at > now {
                let ghost before = view_grants(out@);
                out.push(self.grants[i].clone());
                proof {
                    assert(view_grants(out@) =~= before.push(gs[i as int]));
                }
            }
            i += 1;
        }
        proof {
            assert(gs.take(n as int) =~= gs);
        }
        out
    }

    /// The user's grants active at the instant, soonest expiry last.
    pub fn list_user_permissions(&self, username: &str, now: i64) -> (r: Vec<PermissionGrant>)
        ensures
            view_grants(r@) == sort_desc(filter_user_active(self@.grants, username@, now as int)),
            sorted_by_expiry_desc(view_grants(r@)),
    {
        let ghost gs = view_grants(self.grants@);
        let n = self.grants.len();
        let mut picked: Vec<PermissionGrant> = Vec::new();
        let mut i: usize = 0;
        proof {
            assert(gs.take(0) =~= Seq::<GrantData>::empty());
            assert(view_grants(picked@) =~= Seq::<GrantData>::empty());
        }
        while i < n
            invariant
                i <= n,
                n == self.grants@.len(),
                gs == view_grants(self.grants@),
                view_grants(picked@) == filter_user_active(
                    gs.take(i as int),
                    username@,
                    now as int,
                ),
            decreases n - i,
        {
            proof {
                assert(gs.take(i as int + 1) =~= gs.take(i as int).push(gs[i as int]));
                assert(gs.take(i as int + 1).drop_last() =~= gs.take(i as int));
            }
            let row = &self.grants[i];
            if crate::order::str_eq(row.username.as_str(), username) && !row.revoked
                && row.expires_at > now {
                let ghost before = view_grants(picked@);
                picked.push(self.grants[i].clone());
                proof {
                    assert(view_grants(picked@) =~= before.push(gs[i as int]));
                }
            }
            i += 1;
        }
        proof {
            assert(gs.take(n as int) =~= gs);
        }
        let ghost ps = view_grants(picked@);
        let m = picked.len();
        let mut out: Vec<PermissionGrant> = Vec::new();
        let mut j: usize = 0;
        proof {
            assert(ps.take(0) =~= Seq::<GrantData>::empty());
            assert(view_grants(out@) =~= Seq::<GrantData>::empty());
        }
        while j < m
            invariant
                j <= m,
                m == picked@.len(),
                ps == view_grants(picked@),
                view_grants(out@) == sort_desc(ps.take(j as int)),
            decreases m - j,
        {
            let g = picked[j].clone();
            let mut p: usize = 0;
            let olen = out.len();
            while p < olen && out[p].expires_at >= g.expires_at
                invariant
                    p <= olen,
                    olen == out@.len(),
                    g@ == ps[j as int],
                    forall|k: int|
                        0 <= k < p ==> (#[trigger] view_grants(out@)[k]).expires_at
                            >= g@.expires_at,
                decreases olen - p,
            {
                p += 1;
            }
            proof {
                lemma_insert_desc_at(view_grants(out@), g@, p as int);
                assert(ps.take(j as int + 1).drop_last() =~= ps.take(j as int));
                assert(ps.take(j as int + 1).last() == ps[j as int]);
            }
            let ghost before = view_grants(out@);
            out.insert(p, g);
            proof {
                assert(view_grants(out@) =~= before.insert(p as int, ps[j as int]));
            }
            j += 1;
        }
        proof {
            assert(ps.take(m as int) =~= ps);
            lemma_sort_desc_sorted(ps);
        }
        out
    }
}

} // verus!
