use vstd::prelude::*;
use crate::config::{CommandConfig, spec_lookup_command};
use crate::db::{LedgerData, find_pair_index, ledger_wf, new_grant_data, revoke_mark, sweep_all,
    sweep_one, upsert};
use crate::grants::{
    GrantData, count_active_pair, count_pair, filter_active, has_active, is_active,
    lemma_filter_active_count, lemma_pair_above_lt, lemma_pair_lt_trans, lemma_pair_trichotomy,
    lemma_sorted_unique_pair, pair_lt, same_pair, sorted_by_pair,
};
use crate::manager::{grant_post, revoke_post};
use crate::sync::{render_line, render_lines};
use crate::validator::LookupAnswer;

verus! {

/// Splitting off the head row splits the pair count.
proof fn lemma_count_pair_cons(x: GrantData, s: Seq<GrantData>, u: Seq<char>, c: Seq<char>)
    ensures
        count_pair(seq![x] + s, u, c) == count_pair(s, u, c) + if same_pair(x, u, c) {
            1nat
        } else {
            0nat
        },
    decreases s.len(),
{
    let t = seq![x] + s;
    if s.len() == 0 {
        assert(t.drop_last() =~= Seq::<GrantData>::empty());
        assert(t.last() == x);
        assert(count_pair(t, u, c) == count_pair(t.drop_last(), u, c) + if same_pair(
            t.last(),
            u,
            c,
        ) {
            1nat
        } else {
            0nat
        });
    } else {
        assert(t.drop_last() =~= seq![x] + s.drop_last());
        assert(t.last() == s.last());
        lemma_count_pair_cons(x, s.drop_last(), u, c);
        assert(count_pair(t, u, c) == count_pair(t.drop_last(), u, c) + if same_pair(
            t.last(),
            u,
            c,
        ) {
            1nat
        } else {
            0nat
        });
    }
}

/// Splitting off the head row splits the active-pair count.
proof fn lemma_count_active_cons(
    x: GrantData,
    s: Seq<GrantData>,
    u: Seq<char>,
    c: Seq<char>,
    now: int,
)
    ensures
        count_active_pair(seq![x] + s, u, c, now) == count_active_pair(s, u, c, now) + if
            same_pair(x, u, c) && is_active(x, now) {
            1nat
        } else {
            0nat
        },
    decreases s.len(),
{
    let t = seq![x] + s;
    if s.len() == 0 {
        assert(t.drop_last() =~= Seq::<GrantData>::empty());
        assert(t.last() == x);
        assert(count_active_pair(t, u, c, now) == count_active_pair(t.drop_last(), u, c, now)
            + if same_pair(t.last(), u, c) && is_active(t.last(), now) {
            1nat
        } else {
            0nat
        });
    } else {
        assert(t.drop_last() =~= seq![x] + s.drop_last());
        assert(t.last() == s.last());
        lemma_count_active_cons(x, s.drop_last(), u, c, now);
        assert(count_active_pair(t, u, c, now) == count_active_pair(t.drop_last(), u, c, now)
            + if same_pair(t.last(), u, c) && is_active(t.last(), now) {
            1nat
        } else {
            0nat
        });
    }
}

/// A ledger none of whose rows is for the pair counts zero for it.
proof fn lemma_count_pair_zero(s: Seq<GrantData>, u: Seq<char>, c: Seq<char>)
    requires
        forall|k: int| 0 <= k < s.len() ==> !same_pair(#[trigger] s[k], u, c),
    ensures
        count_pair(s, u, c) == 0,
    decreases s.len(),
{
    if s.len() > 0 {
        assert(s.last() == s[s.len() - 1]);
        assert forall|k: int| 0 <= k < s.drop_last().len() implies !same_pair(
            #[trigger] s.drop_last()[k],
            u,
            c,
        ) by {
            assert(s.drop_last()[k] == s[k]);
        }
        lemma_count_pair_zero(s.drop_last(), u, c);
    }
}

/// A ledger none of whose rows is active for the pair counts zero active
/// rows for it.
proof fn lemma_count_active_zero(s: Seq<GrantData>, u: Seq<char>, c: Seq<char>, now: int)
    requires
        forall|k: int|
            0 <= k < s.len() ==> !(same_pair(#[trigger] s[k], u, c) && is_active(s[k], now)),
    ensures
        count_active_pair(s, u, c, now) == 0,
    decreases s.len(),
{
    if s.len() > 0 {
        assert(s.last() == s[s.len() - 1]);
        assert forall|k: int| 0 <= k < s.drop_last().len() implies !(same_pair(
            #[trigger] s.drop_last()[k],
            u,
            c,
        ) && is_active(s.drop_last()[k], now)) by {
            assert(s.drop_last()[k] == s[k]);
        }
        lemma_count_active_zero(s.drop_last(), u, c, now);
    }
}

/// In a sorted ledger whose head is above the pair, no row is for it.
proof fn lemma_all_above_no_match(gs: Seq<GrantData>, g: GrantData)
    requires
        sorted_by_pair(gs),
        gs.len() > 0,
        pair_lt(g, gs[0]),
    ensures
        forall|k: int| 0 <= k < gs.len() ==> !same_pair(#[trigger] gs[k], g.username, g.command),
{
    assert forall|k: int| 0 <= k < gs.len() implies !same_pair(
        #[trigger] gs[k],
        g.username,
        g.command,
    ) by {
        if k > 0 {
            lemma_pair_lt_trans(g, gs[0], gs[k]);
        }
        lemma_pair_above_lt(g, gs[k]);
        lemma_pair_trichotomy(gs[k], g.username, g.command);
    }
}

/// The tail of a sorted ledger is sorted.
proof fn lemma_drop_first_sorted(gs: Seq<GrantData>)
    requires
        sorted_by_pair(gs),
        gs.len() > 0,
    ensures
        sorted_by_pair(gs.drop_first()),
{
    let rest = gs.drop_first();
    assert forall|x: int, y: int| 0 <= x < y < rest.len() implies pair_lt(
        #[trigger] rest[x],
        #[trigger] rest[y],
    ) by {
        assert(rest[x] == gs[x + 1]);
        assert(rest[y] == gs[y + 1]);
    }
}

/// After a grant, the ledger has exactly one row for the granted pair.
proof fn lemma_upsert_count_one(gs: Seq<GrantData>, g: GrantData)
    requires
        sorted_by_pair(gs),
    ensures
        count_pair(upsert(gs, g), g.username, g.command) == 1,
    decreases gs.len(),
{
    let u = g.username;
    let c = g.command;
    if gs.len() == 0 {
        assert(upsert(gs, g) == seq![g]);
        assert(seq![g] =~= seq![g] + Seq::<GrantData>::empty());
        lemma_count_pair_cons(g, Seq::empty(), u, c);
    } else if pair_lt(g, gs.first()) {
        assert(upsert(gs, g) == seq![g] + gs);
        lemma_all_above_no_match(gs, g);
        lemma_count_pair_zero(gs, u, c);
        lemma_count_pair_cons(g, gs, u, c);
    } else if same_pair(gs.first(), u, c) {
        let rest = gs.drop_first();
        assert(upsert(gs, g) == seq![g] + rest);
        assert forall|k: int| 0 <= k < rest.len() implies !same_pair(#[trigger] rest[k], u, c) by {
            assert(rest[k] == gs[k + 1]);
            lemma_sorted_unique_pair(gs, u, c, 0, k + 1);
        }
        lemma_count_pair_zero(rest, u, c);
        lemma_count_pair_cons(g, rest, u, c);
    } else {
        lemma_pair_trichotomy(gs.first(), u, c);
        lemma_pair_above_lt(g, gs.first());
        let rest = gs.drop_first();
        assert(upsert(gs, g) == seq![gs.first()] + upsert(rest, g));
        lemma_drop_first_sorted(gs);
        lemma_upsert_count_one(rest, g);
        lemma_count_pair_cons(gs.first(), upsert(rest, g), u, c);
        assert(!same_pair(gs.first(), u, c));
    }
}

/// After a grant of an active row, the ledger has exactly one active row
/// for the granted pair.
proof fn lemma_upsert_count_active_one(gs: Seq<GrantData>, g: GrantData, now: int)
    requires
        sorted_by_pair(gs),
        is_active(g, now),
    ensures
        count_active_pair(upsert(gs, g), g.username, g.command, now) == 1,
    decreases gs.len(),
{
    let u = g.username;
    let c = g.command;
    if gs.len() == 0 {
        assert(upsert(gs, g) == seq![g]);
        assert(seq![g] =~= seq![g] + Seq::<GrantData>::empty());
        lemma_count_active_cons(g, Seq::empty(), u, c, now);
    } else if pair_lt(g, gs.first()) {
        assert(upsert(gs, g) == seq![g] + gs);
        lemma_all_above_no_match(gs, g);
        lemma_count_active_zero(gs, u, c, now);
        lemma_count_active_cons(g, gs, u, c, now);
    } else if same_pair(gs.first(), u, c) {
        let rest = gs.drop_first();
        assert(upsert(gs, g) == seq![g] + rest);
        assert forall|k: int| 0 <= k < rest.len() implies !same_pair(#[trigger] rest[k], u, c) by {
            assert(rest[k] == gs[k + 1]);
            lemma_sorted_unique_pair(gs, u, c, 0, k + 1);
        }
        lemma_count_active_zero(rest, u, c, now);
        lemma_count_active_cons(g, rest, u, c, now);
    } else {
        lemma_pair_trichotomy(gs.first(), u, c);
        lemma_pair_above_lt(g, gs.first());
        let rest = gs.drop_first();
        assert(upsert(gs, g) == seq![gs.first()] + upsert(rest, g));
        lemma_drop_first_sorted(gs);
        lemma_upsert_count_active_one(rest, g, now);
        lemma_count_active_cons(gs.first(), upsert(rest, g), u, c, now);
        assert(!same_pair(gs.first(), u, c));
    }
}

/// The granted row itself stands in the ledger after the grant.
proof fn lemma_upsert_contains(gs: Seq<GrantData>, g: GrantData)
    ensures
        upsert(gs, g).contains(g),
    decreases gs.len(),
{
    if gs.len() == 0 {
        assert(upsert(gs, g)[0] == g);
    } else if pair_lt(g, gs.first()) {
        assert(upsert(gs, g)[0] == g);
    } else if same_pair(gs.first(), g.username, g.command) {
        assert(upsert(gs, g)[0] == g);
    } else {
        lemma_upsert_contains(gs.drop_first(), g);
        let sub = upsert(gs.drop_first(), g);
        let w = choose|w: int| 0 <= w < sub.len() && sub[w] == g;
        assert(upsert(gs, g)[w + 1] == g);
    }
}

/// Every row after a grant is the granted row or one of the old rows.
proof fn lemma_upsert_membership(gs: Seq<GrantData>, g: GrantData)
    ensures
        forall|k: int|
            0 <= k < upsert(gs, g).len() ==> (#[trigger] upsert(gs, g)[k] == g || gs.contains(
                upsert(gs, g)[k],
            )),
    decreases gs.len(),
{
    let res = upsert(gs, g);
    if gs.len() == 0 {
    } else if pair_lt(g, gs.first()) {
        assert forall|k: int| 0 <= k < res.len() implies (#[trigger] res[k] == g || gs.contains(
            res[k],
        )) by {
            if k > 0 {
                assert(res[k] == gs[k - 1]);
            }
        }
    } else if same_pair(gs.first(), g.username, g.command) {
        assert forall|k: int| 0 <= k < res.len() implies (#[trigger] res[k] == g || gs.contains(
            res[k],
        )) by {
            if k > 0 {
                assert(res[k] == gs.drop_first()[k - 1]);
                assert(gs.drop_first()[k - 1] == gs[k]);
            }
        }
    } else {
        lemma_upsert_membership(gs.drop_first(), g);
        let sub = upsert(gs.drop_first(), g);
        assert forall|k: int| 0 <= k < res.len() implies (#[trigger] res[k] == g || gs.contains(
            res[k],
        )) by {
            if k == 0 {
                assert(res[0] == gs[0]);
            } else {
                assert(res[k] == sub[k - 1]);
                if sub[k - 1] != g {
                    assert(gs.drop_first().contains(sub[k - 1]));
                    let w = choose|w: int|
                        0 <= w < gs.drop_first().len() && gs.drop_first()[w] == sub[k - 1];
                    assert(gs[w + 1] == sub[k - 1]);
                }
            }
        }
    }
}

/// A grant keeps the ledger sorted.
pub proof fn lemma_upsert_sorted(gs: Seq<GrantData>, g: GrantData)
    requires
        sorted_by_pair(gs),
    ensures
        sorted_by_pair(upsert(gs, g)),
    decreases gs.len(),
{
    let res = upsert(gs, g);
    if gs.len() == 0 {
    } else if pair_lt(g, gs.first()) {
        assert forall|x: int, y: int| 0 <= x < y < res.len() implies pair_lt(
            #[trigger] res[x],
            #[trigger] res[y],
        ) by {
            if x > 0 {
                assert(res[x] == gs[x - 1]);
                assert(res[y] == gs[y - 1]);
            } else {
                assert(res[y] == gs[y - 1]);
                if y - 1 > 0 {
                    lemma_pair_lt_trans(g, gs[0], gs[y - 1]);
                }
            }
        }
    } else if same_pair(gs.first(), g.username, g.command) {
        assert forall|x: int, y: int| 0 <= x < y < res.len() implies pair_lt(
            #[trigger] res[x],
            #[trigger] res[y],
        ) by {
            if x > 0 {
                assert(res[x] == gs[x]);
                assert(res[y] == gs[y]);
            } else {
                assert(res[y] == gs[y]);
                assert(pair_lt(gs[0], gs[y]));
            }
        }
    } else {
        lemma_pair_trichotomy(gs.first(), g.username, g.command);
        lemma_pair_above_lt(g, gs.first());
        lemma_drop_first_sorted(gs);
        lemma_upsert_sorted(gs.drop_first(), g);
        lemma_upsert_membership(gs.drop_first(), g);
        let sub = upsert(gs.drop_first(), g);
        assert forall|x: int, y: int| 0 <= x < y < res.len() implies pair_lt(
            #[trigger] res[x],
            #[trigger] res[y],
        ) by {
            if x > 0 {
                assert(res[x] == sub[x - 1]);
                assert(res[y] == sub[y - 1]);
            } else {
                assert(res[0] == gs[0]);
                assert(res[y] == sub[y - 1]);
                if sub[y - 1] == g {
                } else {
                    assert(gs.drop_first().contains(sub[y - 1]));
                    let w = choose|w: int|
                        0 <= w < gs.drop_first().len() && gs.drop_first()[w] == sub[y - 1];
                    assert(pair_lt(gs[0], gs[w + 1]));
                }
            }
        }
    }
}

/// The active view of a sorted ledger is sorted.
pub proof fn lemma_filter_active_sorted(gs: Seq<GrantData>, now: int)
    requires
        sorted_by_pair(gs),
    ensures
        sorted_by_pair(filter_active(gs, now)),
    decreases gs.len(),
{
    if gs.len() > 0 {
        let init = gs.drop_last();
        assert forall|x: int, y: int| 0 <= x < y < init.len() implies pair_lt(
            #[trigger] init[x],
            #[trigger] init[y],
        ) by {
            assert(init[x] == gs[x]);
            assert(init[y] == gs[y]);
        }
        lemma_filter_active_sorted(init, now);
        crate::grants::lemma_filter_active_membership(init, now);
        let res = filter_active(gs, now);
        if is_active(gs.last(), now) {
            let sub = filter_active(init, now);
            assert forall|x: int, y: int| 0 <= x < y < res.len() implies pair_lt(
                #[trigger] res[x],
                #[trigger] res[y],
            ) by {
                if y < sub.len() {
                    assert(res[x] == sub[x]);
                    assert(res[y] == sub[y]);
                } else {
                    assert(res[y] == gs.last());
                    assert(res[x] == sub[x]);
                    assert(init.contains(sub[x]));
                    let w = choose|w: int| 0 <= w < init.len() && init[w] == sub[x];
                    assert(pair_lt(gs[w], gs[gs.len() - 1]));
                }
            }
        }
    }
}

/// If a row for the pair exists, `find_pair_index` is a position of one.
proof fn lemma_find_pair_index_found(gs: Seq<GrantData>, u: Seq<char>, c: Seq<char>)
    requires
        exists|i: int| 0 <= i < gs.len() && same_pair(#[trigger] gs[i], u, c),
    ensures
        0 <= find_pair_index(gs, u, c) < gs.len(),
        same_pair(gs[find_pair_index(gs, u, c)], u, c),
    decreases gs.len(),
{
    if !same_pair(gs.first(), u, c) {
        let w = choose|i: int| 0 <= i < gs.len() && same_pair(#[trigger] gs[i], u, c);
        let rest = gs.drop_first();
        assert(rest[w - 1] == gs[w]);
        lemma_find_pair_index_found(rest, u, c);
        assert(gs[find_pair_index(gs, u, c)] == rest[find_pair_index(rest, u, c)]);
    }
}

/// Granting a pair that is active makes a check of that pair succeed,
/// and leaves the active view with exactly one row — so exactly one
/// rendered line — for the pair.
pub proof fn lemma_grant_then_active(gs: Seq<GrantData>, g: GrantData, now: int)
    requires
        sorted_by_pair(gs),
        is_active(g, now),
    ensures
        has_active(upsert(gs, g), g.username, g.command, now),
        count_pair(filter_active(upsert(gs, g), now), g.username, g.command) == 1,
        sorted_by_pair(upsert(gs, g)),
{
    lemma_upsert_contains(gs, g);
    let res = upsert(gs, g);
    let w = choose|w: int| 0 <= w < res.len() && res[w] == g;
    assert(same_pair(res[w], g.username, g.command) && is_active(res[w], now));
    lemma_upsert_count_active_one(gs, g, now);
    lemma_filter_active_count(res, g.username, g.command, now);
    lemma_upsert_sorted(gs, g);
}

/// Revoking the pair's active grant makes a check of that pair fail, and
/// the active view — hence the rendered file — carries no row for the
/// pair any more.
pub proof fn lemma_revoke_clears_pair(
    gs: Seq<GrantData>,
    u: Seq<char>,
    c: Seq<char>,
    by: Seq<char>,
    now: int,
)
    requires
        sorted_by_pair(gs),
        has_active(gs, u, c, now),
    ensures
        ({
            let idx = find_pair_index(gs, u, c);
            let after = gs.update(idx, revoke_mark(gs[idx], now, by));
            &&& !has_active(after, u, c, now)
            &&& count_pair(filter_active(after, now), u, c) == 0
        }),
{
    lemma_find_pair_index_found(gs, u, c);
    let idx = find_pair_index(gs, u, c);
    let after = gs.update(idx, revoke_mark(gs[idx], now, by));
    assert forall|k: int| 0 <= k < after.len() implies !(same_pair(#[trigger] after[k], u, c)
        && is_active(after[k], now)) by {
        if k != idx {
            assert(after[k] == gs[k]);
            if k < idx {
                if same_pair(gs[k], u, c) {
                    lemma_sorted_unique_pair(gs, u, c, k, idx);
                }
            } else {
                lemma_sorted_unique_pair(gs, u, c, idx, k);
            }
        }
    }
    lemma_count_active_zero(after, u, c, now);
    lemma_filter_active_count(after, u, c, now);
}

/// Granting the same pair twice before the first expires leaves exactly
/// one row for the pair: the second grant supersedes, it does not
/// duplicate.
pub proof fn lemma_regrant_leaves_one_row(
    gs: Seq<GrantData>,
    g1: GrantData,
    g2: GrantData,
    now: int,
)
    requires
        sorted_by_pair(gs),
        g1.username == g2.username,
        g1.command == g2.command,
        is_active(g2, now),
    ensures
        count_pair(upsert(upsert(gs, g1), g2), g2.username, g2.command) == 1,
        count_pair(filter_active(upsert(upsert(gs, g1), g2), now), g2.username, g2.command) == 1,
{
    lemma_upsert_sorted(gs, g1);
    lemma_upsert_count_one(upsert(gs, g1), g2);
    lemma_upsert_count_active_one(upsert(gs, g1), g2, now);
    lemma_filter_active_count(upsert(upsert(gs, g1), g2), g2.username, g2.command, now);
}

/// The expiry sweep revokes an expired, unrevoked row, attributes the
/// revocation to the reserved system actor, and leaves the pair out of
/// the active view; the rows that were active stay exactly as they were.
pub proof fn lemma_sweep_expired_row(gs: Seq<GrantData>, i: int, now: int)
    requires
        sorted_by_pair(gs),
        0 <= i < gs.len(),
        !gs[i].revoked,
        gs[i].expires_at <= now,
    ensures
        sweep_all(gs, now)[i].revoked,
        sweep_all(gs, now)[i].revoked_by == Some("system_cleanup"@),
        sweep_all(gs, now)[i].revoked_at == Some(now),
        !has_active(sweep_all(gs, now), gs[i].username, gs[i].command, now),
        count_pair(filter_active(sweep_all(gs, now), now), gs[i].username, gs[i].command) == 0,
        filter_active(sweep_all(gs, now), now) == filter_active(gs, now),
{
    let u = gs[i].username;
    let c = gs[i].command;
    let after = sweep_all(gs, now);
    assert forall|k: int| 0 <= k < after.len() implies !(same_pair(#[trigger] after[k], u, c)
        && is_active(after[k], now)) by {
        assert(after[k] == sweep_one(gs[k], now));
        if k != i {
            if k < i {
                if same_pair(gs[k], u, c) {
                    lemma_sorted_unique_pair(gs, u, c, k, i);
                }
            } else {
                lemma_sorted_unique_pair(gs, u, c, i, k);
            }
        }
    }
    lemma_count_active_zero(after, u, c, now);
    lemma_filter_active_count(after, u, c, now);
    lemma_sweep_preserves_active(gs, now);
}

/// The expiry sweep changes no row of the active view: it only revokes
/// rows that had already expired.
pub proof fn lemma_sweep_preserves_active(gs: Seq<GrantData>, now: int)
    ensures
        filter_active(sweep_all(gs, now), now) == filter_active(gs, now),
    decreases gs.len(),
{
    if gs.len() == 0 {
        assert(sweep_all(gs, now) =~= Seq::<GrantData>::empty());
    } else {
        lemma_sweep_preserves_active(gs.drop_last(), now);
        let swept = sweep_all(gs, now);
        assert(swept.drop_last() =~= sweep_all(gs.drop_last(), now));
        assert(swept.last() == sweep_one(gs.last(), now));
        if is_active(gs.last(), now) {
            assert(sweep_one(gs.last(), now) == gs.last());
        } else {
            assert(!is_active(sweep_one(gs.last(), now), now));
        }
    }
}

/// A grant request the manager accepted makes a check of its pair
/// succeed at that instant, and the active view — hence the rendered
/// file — carries exactly one row for the pair.
pub proof fn lemma_accepted_grant_activates(
    o: LedgerData,
    f: LedgerData,
    cmds: Seq<(String, CommandConfig)>,
    username: Seq<char>,
    command: Seq<char>,
    duration_minutes: int,
    granted_by: Seq<char>,
    user_exists: LookupAnswer,
    groups: Seq<LookupAnswer>,
    now: int,
    id: i64,
)
    requires
        ledger_wf(o),
        grant_post(
            o,
            f,
            cmds,
            username,
            command,
            duration_minutes,
            granted_by,
            user_exists,
            groups,
            now,
            Ok(id),
        ),
    ensures
        has_active(f.grants, username, command, now),
        count_pair(filter_active(f.grants, now), username, command) == 1,
        sorted_by_pair(f.grants),
{
    let g = new_grant_data(
        o.next_id,
        username,
        command,
        now,
        now + duration_minutes * 60,
        granted_by,
    );
    assert(spec_lookup_command(cmds, command) is Some);
    assert(0 < duration_minutes);
    assert(is_active(g, now));
    lemma_grant_then_active(o.grants, g, now);
}

/// A revocation the manager reported as done makes a check of its pair
/// fail at that instant, and the active view — hence the rendered file —
/// carries no row for the pair any more.
pub proof fn lemma_done_revoke_clears(
    o: LedgerData,
    f: LedgerData,
    username: Seq<char>,
    command: Seq<char>,
    revoked_by: Seq<char>,
    now: int,
)
    requires
        ledger_wf(o),
        revoke_post(o, f, username, command, revoked_by, now, true),
    ensures
        !has_active(f.grants, username, command, now),
        count_pair(filter_active(f.grants, now), username, command) == 0,
{
    lemma_revoke_clears_pair(o.grants, username, command, revoked_by, now);
}

/// The rendered file is canonical for a sorted ledger: its active view
/// keeps the ascending (username, command) order, and the file carries
/// exactly one line per active grant, each rendered from its row. The
/// content is a function of the active view alone, so equal active views
/// render equal files.
pub proof fn lemma_rendering_canonical(gs: Seq<GrantData>, now: int)
    requires
        sorted_by_pair(gs),
    ensures
        sorted_by_pair(filter_active(gs, now)),
        render_lines(filter_active(gs, now)).len() == filter_active(gs, now).len(),
        forall|i: int|
            0 <= i < filter_active(gs, now).len() ==> render_lines(filter_active(gs, now))[i]
                == render_line(#[trigger] filter_active(gs, now)[i]),
{
    lemma_filter_active_sorted(gs, now);
}

} // verus!
