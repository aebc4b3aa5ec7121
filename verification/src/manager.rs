use vstd::prelude::*;
use crate::config::{CommandConfig, Config, spec_config_valid, spec_lookup_command};
use crate::db::{
    Database, LedgerData, audit_data, count_expired, filter_user_active, find_pair_index,
    ledger_wf, new_grant_data, revoke_mark, sort_desc, sorted_by_expiry_desc, sweep_all, upsert,
    with_last_used,
};
use crate::error::PermissionError;
use crate::grants::{AuditAction, PermissionGrant, filter_active, has_active, is_active,
    view_grants};
use crate::sync::{render_content, render_sudoers};
use crate::validator::{
    LookupAnswer, error_reports_verdict, validate, validation_verdict,
};

verus! {

/// Bound on a policy's maximum duration for the clock-driven entry
/// points: under it the expiry arithmetic cannot overflow for any
/// instant the clock can return.
pub const MAX_POLICY_MINUTES: i64 = 100_000_000_000_000;

/// Relies on chrono::Utc::now and chrono::DateTime::timestamp: the wall
/// clock, as whole seconds since the Unix epoch. chrono's datetimes span
/// the years -262143 to 262142, so the value stays within nine trillion
/// seconds of the epoch either way.
#[verifier::external_body]
fn now_timestamp() -> (t: i64)
    ensures
        -9_000_000_000_000 <= t <= 9_000_000_000_000,
{
    chrono::Utc::now().timestamp()
}

/// What a grant request leaves in the ledger and returns, at a given
/// instant: on the verdict's first failure, the matching error and no
/// change at all; on success, the superseding row, its grant audit
/// entry, and the row's key.
pub open spec fn grant_post(
    o: LedgerData,
    f: LedgerData,
    cmds: Seq<(String, CommandConfig)>,
    username: Seq<char>,
    command: Seq<char>,
    duration_minutes: int,
    granted_by: Seq<char>,
    user_exists: LookupAnswer,
    groups: Seq<LookupAnswer>,
    now: int,
    r: Result<i64, PermissionError>,
) -> bool {
    let v = validation_verdict(cmds, command, duration_minutes, user_exists, groups);
    match r {
        Ok(id) => {
            &&& v is Allow
            &&& id == o.next_id
            &&& f.grants == upsert(
                o.grants,
                new_grant_data(
                    o.next_id,
                    username,
                    command,
                    now,
                    now + duration_minutes * 60,
                    granted_by,
                ),
            )
            &&& f.audit == o.audit.push(
                audit_data(now, username, command, AuditAction::Grant, Some(granted_by)),
            )
            &&& f.next_id == o.next_id + 1
        },
        Err(e) => {
            &&& !(v is Allow)
            &&& error_reports_verdict(v, e, username, command, cmds)
            &&& f == o
        },
    }
}

/// What a revoke request leaves in the ledger and returns, at a given
/// instant: whether an active grant for the pair existed; if so, that
/// row marked revoked and a revoke audit entry; if not, no change.
pub open spec fn revoke_post(
    o: LedgerData,
    f: LedgerData,
    username: Seq<char>,
    command: Seq<char>,
    revoked_by: Seq<char>,
    now: int,
    r: bool,
) -> bool {
    &&& r == has_active(o.grants, username, command, now)
    &&& r ==> {
        let idx = find_pair_index(o.grants, username, command);
        &&& f.grants == o.grants.update(idx, revoke_mark(o.grants[idx], now, revoked_by))
        &&& f.audit == o.audit.push(
            audit_data(now, username, command, AuditAction::Revoke, Some(revoked_by)),
        )
    }
    &&& !r ==> f == o
    &&& f.next_id == o.next_id
}

/// What the expiry sweep leaves in the ledger and returns, at a given
/// instant.
pub open spec fn cleanup_post(o: LedgerData, f: LedgerData, now: int, count: u64) -> bool {
    &&& f.grants == sweep_all(o.grants, now)
    &&& count == count_expired(o.grants, now)
    &&& f.audit == o.audit
    &&& f.next_id == o.next_id
}

/// What recording a use leaves in the ledger, at a given instant: the
/// active grant for the pair, if any, carries the use time, and a use
/// audit entry is appended either way.
pub open spec fn usage_post(
    o: LedgerData,
    f: LedgerData,
    username: Seq<char>,
    command: Seq<char>,
    now: int,
) -> bool {
    &&& f.grants == {
        let idx = find_pair_index(o.grants, username, command);
        if idx < o.grants.len() && is_active(o.grants[idx], now) {
            o.grants.update(idx, with_last_used(o.grants[idx], now))
        } else {
            o.grants
        }
    }
    &&& f.audit == o.audit.push(audit_data(now, username, command, AuditAction::Use, None))
    &&& f.next_id == o.next_id
}

/// Core permission manager: the sole entry point for mutations. It
/// validates a request against the policy configuration and the identity
/// oracle's answers, mutates the ledger, and renders the policy-file
/// projection of the active grants.
pub struct PermissionManager {
    config: Config,
    db: Database,
}

impl PermissionManager {
    /// The policy configuration the manager was built with.
    pub closed spec fn spec_config(&self) -> Config {
        self.config
    }

    /// The ledger's value.
    pub closed spec fn spec_db(&self) -> LedgerData {
        self.db@
    }

    /// A manager is well-formed when its ledger is and its configuration
    /// is valid.
    pub open spec fn wf(&self) -> bool {
        &&& ledger_wf(self.spec_db())
        &&& spec_config_valid(&self.spec_config())
    }

    /// Create a manager over an empty ledger; the configuration is
    /// validated first.
    pub fn new(config: Config) -> (r: Result<PermissionManager, PermissionError>)
        ensures
            r is Ok <==> spec_config_valid(&config),
            r matches Ok(m) ==> {
                &&& m.wf()
                &&& m.spec_config() == config
                &&& m.spec_db().grants.len() == 0
                &&& m.spec_db().audit.len() == 0
                &&& m.spec_db().next_id == 1
            },
            r matches Err(e) ==> e is Config,
    {
        match config.validate() {
            Ok(()) => (),
            Err(e) => {
                return Err(e);
            },
        }
        Ok(PermissionManager { config, db: Database::new() })
    }

    /// Create a manager over an existing ledger; the configuration is
    /// validated first.
    pub fn with_store(config: Config, db: Database) -> (r: Result<PermissionManager,
        PermissionError>)
        requires
            db.wf(),
        ensures
            r is Ok <==> spec_config_valid(&config),
            r matches Ok(m) ==> m.wf() && m.spec_config() == config && m.spec_db() == db@,
            r matches Err(e) ==> e is Config,
    {
        match config.validate() {
            Ok(()) => (),
            Err(e) => {
                return Err(e);
            },
        }
        Ok(PermissionManager { config, db })
    }

    /// A reference to the current configuration.
    pub fn config(&self) -> (r: &Config)
        ensures
            *r == self.spec_config(),
    {
        &self.config
    }

    /// A read-only view of the ledger.
    pub fn database(&self) -> (r: &Database)
        ensures
            r@ == self.spec_db(),
    {
        &self.db
    }

    /// Grant the user the command for the given duration in minutes, as
    /// of the given instant. Validation gates the request; on success
    /// the grant is inserted, superseding any older grant for the pair,
    /// and its surrogate key is returned. On a rejected request nothing
    /// changes.
    ///
    /// The caller supplies the identity oracle's answers: whether the
    /// user exists, and one membership answer per required group of the
    /// command's policy, in the policy's order.
    pub fn grant_permission_at(
        &mut self,
        username: &str,
        command: &str,
        duration_minutes: i64,
        granted_by: &str,
        now: i64,
        user_exists: LookupAnswer,
        group_memberships: &Vec<LookupAnswer>,
    ) -> (r: Result<i64, PermissionError>)
        requires
            old(self).wf(),
            old(self).spec_db().next_id < i64::MAX,
            spec_lookup_command(old(self).spec_config().allowed_commands@, command@) matches Some(
                p,
            ) ==> {
                &&& group_memberships@.len() == p.required_groups@.len()
                &&& p.max_duration * 60 <= i64::MAX
                &&& now + p.max_duration * 60 <= i64::MAX
            },
        ensures
            final(self).wf(),
            final(self).spec_config() == old(self).spec_config(),
            grant_post(
                old(self).spec_db(),
                final(self).spec_db(),
                old(self).spec_config().allowed_commands@,
                username@,
                command@,
                duration_minutes as int,
                granted_by@,
                user_exists,
                group_memberships@,
                now as int,
                r,
            ),
    {
        match validate(
            &self.config,
            username,
            command,
            duration_minutes,
            user_exists,
            group_memberships,
        ) {
            Ok(()) => (),
            Err(e) => {
                return Err(e);
            },
        }
        proof {
            let cmds = self.config.allowed_commands@;
            let v = validation_verdict(
                cmds,
                command@,
                duration_minutes as int,
                user_exists,
                group_memberships@,
            );
            assert(v is Allow);
            assert(spec_lookup_command(cmds, command@) is Some);
        }
        let expires_at = now + duration_minutes * 60;
        let id = self.db.grant_permission(username, command, expires_at, granted_by, now);
        Ok(id)
    }

    /// Grant as of the present instant, read from the wall clock. What
    /// holds of the outcome holds for some in-range clock value.
    pub fn grant_permission(
        &mut self,
        username: &str,
        command: &str,
        duration_minutes: i64,
        granted_by: &str,
        user_exists: LookupAnswer,
        group_memberships: &Vec<LookupAnswer>,
    ) -> (r: Result<i64, PermissionError>)
        requires
            old(self).wf(),
            old(self).spec_db().next_id < i64::MAX,
            spec_lookup_command(old(self).spec_config().allowed_commands@, command@) matches Some(
                p,
            ) ==> {
                &&& group_memberships@.len() == p.required_groups@.len()
                &&& 0 < p.max_duration <= MAX_POLICY_MINUTES
            },
        ensures
            final(self).wf(),
            final(self).spec_config() == old(self).spec_config(),
            exists|now: int|
                #![auto]
                {
                    &&& -9_000_000_000_000 <= now <= 9_000_000_000_000
                    &&& grant_post(
                        old(self).spec_db(),
                        final(self).spec_db(),
                        old(self).spec_config().allowed_commands@,
                        username@,
                        command@,
                        duration_minutes as int,
                        granted_by@,
                        user_exists,
                        group_memberships@,
                        now,
                        r,
                    )
                },
    {
        let now = now_timestamp();
        let r = self.grant_permission_at(
            username,
            command,
            duration_minutes,
            granted_by,
            now,
            user_exists,
            group_memberships,
        );
        r
    }

    /// Revoke the user's grant for the command as of the given instant;
    /// the returned value says whether an active grant existed. Only an
    /// actual revocation writes an audit entry.
    pub fn revoke_permission_at(
        &mut self,
        username: &str,
        command: &str,
        revoked_by: &str,
        now: i64,
    ) -> (r: bool)
        requires
            old(self).wf(),
        ensures
            final(self).wf(),
            final(self).spec_config() == old(self).spec_config(),
            revoke_post(
                old(self).spec_db(),
                final(self).spec_db(),
                username@,
                command@,
                revoked_by@,
                now as int,
                r,
            ),
    {
        self.db.revoke_permission(username, command, revoked_by, now)
    }

    /// Revoke as of the present instant, read from the wall clock.
    pub fn revoke_permission(&mut self, username: &str, command: &str, revoked_by: &str) -> (r:
        bool)
        requires
            old(self).wf(),
        ensures
            final(self).wf(),
            final(self).spec_config() == old(self).spec_config(),
            exists|now: int|
                #![auto]
                {
                    &&& -9_000_000_000_000 <= now <= 9_000_000_000_000
                    &&& revoke_post(
                        old(self).spec_db(),
                        final(self).spec_db(),
                        username@,
                        command@,
                        revoked_by@,
                        now,
                        r,
                    )
                },
    {
        let now = now_timestamp();
        self.revoke_permission_at(username, command, revoked_by, now)
    }

    /// Mark every grant expired by the given instant as revoked by the
    /// system actor, and return how many were affected.
    pub fn cleanup_expired_at(&mut self, now: i64) -> (count: u64)
        requires
            old(self).wf(),
        ensures
            final(self).wf(),
            final(self).spec_config() == old(self).spec_config(),
            cleanup_post(old(self).spec_db(), final(self).spec_db(), now as int, count),
    {
        self.db.cleanup_expired(now)
    }

    /// Sweep as of the present instant, read from the wall clock.
    pub fn cleanup_expired(&mut self) -> (count: u64)
        requires
            old(self).wf(),
        ensures
            final(self).wf(),
            final(self).spec_config() == old(self).spec_config(),
            exists|now: int|
                #![auto]
                {
                    &&& -9_000_000_000_000 <= now <= 9_000_000_000_000
                    &&& cleanup_post(old(self).spec_db(), final(self).spec_db(), now, count)
                },
    {
        let now = now_timestamp();
        self.cleanup_expired_at(now)
    }

    /// Record a use of the pair's grant as of the given instant.
    pub fn record_usage_at(&mut self, username: &str, command: &str, now: i64)
        requires
            old(self).wf(),
        ensures
            final(self).wf(),
            final(self).spec_config() == old(self).spec_config(),
            usage_post(
                old(self).spec_db(),
                final(self).spec_db(),
                username@,
                command@,
                now as int,
            ),
    {
        self.db.update_last_used(username, command, now)
    }

    /// Record a use as of the present instant, read from the wall clock.
    pub fn record_usage(&mut self, username: &str, command: &str)
        requires
            old(self).wf(),
        ensures
            final(self).wf(),
            final(self).spec_config() == old(self).spec_config(),
            exists|now: int|
                #![auto]
                {
                    &&& -9_000_000_000_000 <= now <= 9_000_000_000_000
                    &&& usage_post(
                        old(self).spec_db(),
                        final(self).spec_db(),
                        username@,
                        command@,
                        now,
                    )
                },
    {
        let now = now_timestamp();
        self.record_usage_at(username, command, now)
    }

    /// The user's grants active at the given instant, soonest expiry
    /// last.
    pub fn list_user_permissions_at(&self, username: &str, now: i64) -> (r: Vec<PermissionGrant>)
        ensures
            view_grants(r@) == sort_desc(
                filter_user_active(self.spec_db().grants, username@, now as int),
            ),
            sorted_by_expiry_desc(view_grants(r@)),
    {
        self.db.list_user_permissions(username, now)
    }

    /// The user's grants active at the present instant, read from the
    /// wall clock.
    pub fn list_user_permissions(&self, username: &str) -> (r: Vec<PermissionGrant>)
        ensures
            sorted_by_expiry_desc(view_grants(r@)),
            exists|now: int|
                #![auto]
                {
                    &&& -9_000_000_000_000 <= now <= 9_000_000_000_000
                    &&& view_grants(r@) == sort_desc(
                        filter_user_active(self.spec_db().grants, username@, now),
                    )
                },
    {
        let now = now_timestamp();
        self.list_user_permissions_at(username, now)
    }

    /// The full policy-file content for the grants active at the given
    /// instant: the fixed header, then one line per active grant in
    /// ascending (username, command) order. The caller writes it over
    /// the policy file atomically.
    pub fn sudoers_content(&self, now: i64) -> (r: String)
        ensures
            r@ == render_content(filter_active(self.spec_db().grants, now as int)),
    {
        let active = self.db.list_active_permissions(now);
        render_sudoers(&active)
    }
}

} // verus!
