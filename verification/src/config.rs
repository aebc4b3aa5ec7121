use vstd::prelude::*;
use crate::error::PermissionError;
use crate::order::str_eq;

verus! {

/// True when a path is absolute, that is, begins with a slash.
pub open spec fn spec_is_absolute_path(p: Seq<char>) -> bool {
    p.len() > 0 && p[0] == '/'
}

/// Decides whether a path is absolute.
pub fn is_absolute_path(p: &str) -> (r: bool)
    ensures
        r == spec_is_absolute_path(p@),
{
    p.unicode_len() > 0 && p.get_char(0) == '/'
}

/// Policy for one command that may be granted.
#[derive(Debug)]
pub struct CommandConfig {
    /// Description of what the command does.
    pub description: String,
    /// Maximum duration in minutes that this command can be granted for.
    pub max_duration: i64,
    /// Groups that a user must be a member of to be granted this command.
    pub required_groups: Vec<String>,
    /// Whether to audit all uses of this command.
    pub audit_usage: bool,
    /// Maximum concurrent users allowed for this command. Validation
    /// requires it to be at least one, but the grant path deliberately
    /// does not enforce it: whether to reject a grant once this many
    /// users hold the command is an open question, left unenforced here.
    pub max_concurrent_users: usize,
}

/// A command policy is valid when its maximum duration is positive and it
/// admits at least one concurrent user.
pub open spec fn spec_command_config_valid(c: &CommandConfig) -> bool {
    c.max_duration > 0 && c.max_concurrent_users > 0
}

impl CommandConfig {
    /// Validate the command configuration.
    pub fn validate(&self) -> (r: Result<(), PermissionError>)
        ensures
            r is Ok <==> spec_command_config_valid(self),
            self.max_duration <= 0 ==> (r matches Err(PermissionError::Config(m))
                && m@ == "max_duration must be positive"@),
            self.max_duration > 0 && self.max_concurrent_users == 0 ==> (r matches Err(
                PermissionError::Config(m),
            ) && m@ == "max_concurrent_users must be at least 1"@),
    {
        if self.max_duration <= 0 {
            return Err(PermissionError::Config("max_duration must be positive".to_owned()));
        }
        if self.max_concurrent_users == 0 {
            return Err(
                PermissionError::Config("max_concurrent_users must be at least 1".to_owned()),
            );
        }
        Ok(())
    }
}

/// Default maximum number of concurrent users for a command.
pub fn default_max_users() -> (r: usize)
    ensures
        r == 10,
{
    10
}

/// Main configuration structure.
#[derive(Debug)]
pub struct Config {
    /// The allowed commands: each entry maps a command path to its policy.
    /// A path is looked up by its first matching entry.
    pub allowed_commands: Vec<(String, CommandConfig)>,
    /// Path to the sudoers.d file for this application.
    pub sudoers_path: String,
    /// Path to the permission ledger.
    pub db_path: String,
    /// Path to the log file.
    pub log_path: String,
    /// Whether to enable debug logging.
    pub debug: bool,
    /// Number of days to keep audit logs.
    pub log_retention_days: u32,
}

/// The policy of the first entry whose command path holds the given
/// characters, if any.
pub open spec fn spec_lookup_command(
    cmds: Seq<(String, CommandConfig)>,
    path: Seq<char>,
) -> Option<CommandConfig>
    decreases cmds.len(),
{
    if cmds.len() == 0 {
        None
    } else if cmds[0].0@ == path {
        Some(cmds[0].1)
    } else {
        spec_lookup_command(cmds.drop_first(), path)
    }
}

/// A configuration is valid when every command path is absolute with a
/// valid policy, and the three file paths are absolute.
pub open spec fn spec_config_valid(c: &Config) -> bool {
    &&& forall|i: int|
        0 <= i < c.allowed_commands@.len() ==> {
            &&& spec_is_absolute_path((#[trigger] c.allowed_commands@[i]).0@)
            &&& spec_command_config_valid(&c.allowed_commands@[i].1)
        }
    &&& spec_is_absolute_path(c.sudoers_path@)
    &&& spec_is_absolute_path(c.db_path@)
    &&& spec_is_absolute_path(c.log_path@)
}

pub fn default_sudoers_path() -> (r: String)
    ensures
        r@ == "/etc/sudoers.d/permctl"@,
{
    "/etc/sudoers.d/permctl".to_owned()
}

pub fn default_db_path() -> (r: String)
    ensures
        r@ == "/var/lib/permctl/permissions.db"@,
{
    "/var/lib/permctl/permissions.db".to_owned()
}

pub fn default_log_path() -> (r: String)
    ensures
        r@ == "/var/log/permctl/access.log"@,
{
    "/var/log/permctl/access.log".to_owned()
}

pub fn default_log_retention() -> (r: u32)
    ensures
        r == 30,
{
    30
}

impl Config {
    /// The policy configured for a command path, if any.
    pub fn get_command(&self, path: &str) -> (r: Option<&CommandConfig>)
        ensures
            r matches Some(c) ==> spec_lookup_command(self.allowed_commands@, path@) == Some(*c),
            r is None ==> spec_lookup_command(self.allowed_commands@, path@) is None,
    {
        let n = self.allowed_commands.len();
        let mut i: usize = 0;
        proof {
            assert(self.allowed_commands@.skip(0) =~= self.allowed_commands@);
        }
        while i < n
            invariant
                i <= n,
                n == self.allowed_commands@.len(),
                spec_lookup_command(self.allowed_commands@, path@) == spec_lookup_command(
                    self.allowed_commands@.skip(i as int),
                    path@,
                ),
            decreases n - i,
        {
            proof {
                assert(self.allowed_commands@.skip(i as int).drop_first()
                    =~= self.allowed_commands@.skip(i as int + 1));
                assert(self.allowed_commands@.skip(i as int)[0]
                    == self.allowed_commands@[i as int]);
            }
            if str_eq(self.allowed_commands[i].0.as_str(), path) {
                return Some(&self.allowed_commands[i].1);
            }
            i += 1;
        }
        None
    }

    /// Validate the entire configuration.
    pub fn validate(&self) -> (r: Result<(), PermissionError>)
        ensures
            r is Ok <==> spec_config_valid(self),
            r matches Err(e) ==> e is Config,
    {
        let n = self.allowed_commands.len();
        let mut i: usize = 0;
        while i < n
            invariant
                i <= n,
                n == self.allowed_commands@.len(),
                forall|k: int|
                    0 <= k < i ==> {
                        &&& spec_is_absolute_path((#[trigger] self.allowed_commands@[k]).0@)
                        &&& spec_command_config_valid(&self.allowed_commands@[k].1)
                    },
            decreases n - i,
        {
            if !is_absolute_path(self.allowed_commands[i].0.as_str()) {
                proof {
                    assert(!spec_is_absolute_path((self.allowed_commands@[i as int]).0@));
                }
                return Err(PermissionError::Config("command path must be absolute".to_owned()));
            }
            match self.allowed_commands[i].1.validate() {
                Ok(()) => (),
                Err(e) => {
                    proof {
                        assert(!spec_command_config_valid(&self.allowed_commands@[i as int].1));
                    }
                    return Err(e);
                },
            }
            i += 1;
        }
        if !is_absolute_path(self.sudoers_path.as_str()) || !is_absolute_path(
            self.db_path.as_str(),
        ) || !is_absolute_path(self.log_path.as_str()) {
            return Err(PermissionError::Config("configured path must be absolute".to_owned()));
        }
        Ok(())
    }

    /// Create a default configuration: docker access for members of the
    /// docker group, and the standard file locations.
    pub fn default() -> (c: Config)
        ensures
            c.allowed_commands@.len() == 1,
            c.allowed_commands@[0].0@ == "/usr/bin/docker"@,
            c.allowed_commands@[0].1.description@ == "Docker command access"@,
            c.allowed_commands@[0].1.max_duration == 480,
            c.allowed_commands@[0].1.required_groups@.len() == 1,
            c.allowed_commands@[0].1.required_groups@[0]@ == "docker"@,
            c.allowed_commands@[0].1.audit_usage == true,
            c.allowed_commands@[0].1.max_concurrent_users == 5,
            c.sudoers_path@ == "/etc/sudoers.d/permctl"@,
            c.db_path@ == "/var/lib/permctl/permissions.db"@,
            c.log_path@ == "/var/log/permctl/access.log"@,
            c.debug == false,
            c.log_retention_days == 30,
    {
        let mut allowed_commands: Vec<(String, CommandConfig)> = Vec::new();
        let docker = CommandConfig {
            description: "Docker command access".to_owned(),
            max_duration: 480,
            required_groups: vec!["docker".to_owned()],
            audit_usage: true,
            max_concurrent_users: 5,
        };
        allowed_commands.push(("/usr/bin/docker".to_owned(), docker));
        Config {
            allowed_commands,
            sudoers_path: default_sudoers_path(),
            db_path: default_db_path(),
            log_path: default_log_path(),
            debug: false,
            log_retention_days: default_log_retention(),
        }
    }
}

} // verus!
