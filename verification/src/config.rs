//! The user's configuration: who they are, and the targets, owners and
//! admins they know.

use vstd::prelude::*;
use crate::errors::CulperError;
use crate::paths::{home_directory, join_path, path_joined};

verus! {

/// A person: the identifier of their key, and their address.
#[derive(Debug, Clone, PartialEq, Eq)]
pub struct UserConfig {
    pub id: String,
    pub email: String,
}

/// A target: the identifier of its key, and its host.
#[derive(Debug, Clone, PartialEq, Eq)]
pub struct TargetConfig {
    pub id: String,
    pub host: String,
}

/// The whole configuration.
#[derive(Debug, Clone, PartialEq, Eq)]
pub struct CulperConfig {
    pub me: UserConfig,
    pub targets: Option<Vec<TargetConfig>>,
    pub owners: Option<Vec<UserConfig>>,
    pub admins: Option<Vec<UserConfig>>,
}

/// Where the configuration is kept, and the configuration once it is
/// known.
#[derive(Debug, Clone, PartialEq, Eq)]
pub struct ConfigReader {
    pub path: String,
    pub config: Option<CulperConfig>,
}

/// A person as plain mathematical values.
pub struct UserModel {
    pub id: Seq<char>,
    pub email: Seq<char>,
}

/// A target as plain mathematical values.
pub struct TargetModel {
    pub id: Seq<char>,
    pub host: Seq<char>,
}

/// A configuration as plain mathematical values.
pub struct ConfigModel {
    pub me: UserModel,
    pub targets: Option<Seq<TargetModel>>,
    pub owners: Option<Seq<UserModel>>,
    pub admins: Option<Seq<UserModel>>,
}

impl View for UserConfig {
    type V = UserModel;

    open spec fn view(&self) -> UserModel {
        UserModel { id: self.id@, email: self.email@ }
    }
}

impl View for TargetConfig {
    type V = TargetModel;

    open spec fn view(&self) -> TargetModel {
        TargetModel { id: self.id@, host: self.host@ }
    }
}

/// The models of a list of people, if there is a list.
pub open spec fn users_of(list: Option<Vec<UserConfig>>) -> Option<Seq<UserModel>> {
    match list {
        Some(users) => Some(Seq::new(users@.len(), |i: int| users@[i]@)),
        None => None,
    }
}

/// The models of a list of targets, if there is a list.
pub open spec fn targets_of(list: Option<Vec<TargetConfig>>) -> Option<Seq<TargetModel>> {
    match list {
        Some(targets) => Some(Seq::new(targets@.len(), |i: int| targets@[i]@)),
        None => None,
    }
}

/// `list` with one more element; a list that was not there starts with
/// it.
pub open spec fn appended<A>(list: Option<Seq<A>>, item: A) -> Option<Seq<A>> {
    match list {
        Some(items) => Some(items.push(item)),
        None => Some(seq![item]),
    }
}

impl View for CulperConfig {
    type V = ConfigModel;

    open spec fn view(&self) -> ConfigModel {
        ConfigModel {
            me: self.me@,
            targets: targets_of(self.targets),
            owners: users_of(self.owners),
            admins: users_of(self.admins),
        }
    }
}

/// The name of the configuration file.
pub open spec fn config_file_name() -> Seq<char> {
    ".culper.toml"@
}

/// The name of the private key's file.
pub open spec fn priv_key_file_name() -> Seq<char> {
    "privkey.asc"@
}

/// Where the configuration is kept when no path is given: in the home
/// directory, or, without one, in the working directory.
pub open spec fn default_config_path(home: Option<Seq<char>>) -> Seq<char> {
    match home {
        Some(dir) => path_joined(dir, config_file_name()),
        None => path_joined("./"@, config_file_name()),
    }
}

/// Where the configuration is kept when no path is given.
pub fn config_path_in(home: Option<String>) -> (path: String)
    ensures
        path@ == default_config_path(
            match home {
                Some(dir) => Some(dir@),
                None => None,
            },
        ),
{
    match home {
        Some(dir) => join_path(dir.as_str(), ".culper.toml"),
        None => join_path("./", ".culper.toml"),
    }
}

/// Where the keys of `gpg` are kept when no path is given: in the home
/// directory, or, without one, in the working directory.
pub open spec fn default_gpg_path(home: Option<Seq<char>>) -> Seq<char> {
    match home {
        Some(dir) => path_joined(dir, ".culper_gpg"@),
        None => path_joined("./"@, ".culper_gpg"@),
    }
}

/// Where the keys of `gpg` are kept when no path is given.
pub fn gpg_path_in(home: Option<String>) -> (path: String)
    ensures
        path@ == default_gpg_path(
            match home {
                Some(dir) => Some(dir@),
                None => None,
            },
        ),
{
    match home {
        Some(dir) => join_path(dir.as_str(), ".culper_gpg"),
        None => join_path("./", ".culper_gpg"),
    }
}

/// The directory that holds the user's files: the one given, or
/// `.culper` in the user's home directory, or, without either, in the
/// working directory.
pub fn home_dir(maybe_home: Option<&str>, user_home: Option<String>) -> (path: String)
    ensures
        match maybe_home {
            Some(given) => path@ == given@,
            None => match user_home {
                Some(home) => path@ == path_joined(home@, ".culper"@),
                None => path@ == ".culper"@,
            },
        },
{
    match maybe_home {
        Some(given_home) => String::from_str(given_home),
        None => match user_home {
            Some(home) => join_path(home.as_str(), ".culper"),
            None => String::from_str(".culper"),
        },
    }
}

/// The configuration file of a home directory.
pub fn config_file_path(home_dir: &str) -> (path: String)
    ensures
        path@ == path_joined(home_dir@, config_file_name()),
{
    join_path(home_dir, ".culper.toml")
}

/// The file of the private key: the one named, or the standard one of
/// the home directory.
pub fn priv_key_path(home_dir: &str, maybe_priv_key: Option<&str>) -> (path: String)
    ensures
        match maybe_priv_key {
            Some(named) => path@ == named@,
            None => path@ == path_joined(home_dir@, priv_key_file_name()),
        },
{
    match maybe_priv_key {
        // key is not at home location or named differently
        Some(named) => String::from_str(named),
        // key is at home location with standard name
        None => join_path(home_dir, "privkey.asc"),
    }
}

impl CulperConfig {
    /// A configuration that knows nobody but its user.
    pub fn new(me: UserConfig) -> (config: CulperConfig)
        ensures
            config@ == (ConfigModel { me: me@, targets: None, owners: None, admins: None }),
    {
        CulperConfig { me, targets: None, owners: None, admins: None }
    }

    /// Adds an admin after those that are known.
    pub fn add_admin(&mut self, email: &str, id: &str)
        ensures
            final(self)@ == (ConfigModel {
                admins: appended(old(self)@.admins, UserModel { id: id@, email: email@ }),
                ..old(self)@
            }),
    {
        let admin = UserConfig { email: String::from_str(email), id: String::from_str(id) };
        let ghost before = self@;
        match &mut self.admins {
            Some(admins) => {
                admins.push(admin);
            },
            None => {
                let mut admins: Vec<UserConfig> = Vec::new();
                admins.push(admin);
                self.admins = Some(admins);
            },
        }
        proof {
            assert(self@.admins->0 =~= appended(before.admins, admin@)->0);
        }
    }

    /// Whether no admin is known yet, so that the first one has to be
    /// registered with a setup secret.
    pub fn needs_setup(&self) -> (needed: bool)
        ensures
            needed == (self@.admins is None),
    {
        self.admins.is_none()
    }

    /// The key identifiers of the targets, in their order.
    pub fn target_ids(&self) -> (ids: Vec<String>)
        ensures
            crate::text::texts(ids@) == match self@.targets {
                Some(targets) => Seq::new(targets.len(), |i: int| targets[i].id),
                None => Seq::empty(),
            },
    {
        let mut ids: Vec<String> = Vec::new();
        match &self.targets {
            Some(targets) => {
                let mut i: usize = 0;
                while i < targets.len()
                    invariant
                        i <= targets.len(),
                        ids.len() == i,
                        forall|j: int| 0 <= j < i ==> (#[trigger] ids@[j])@ == targets@[j].id@,
                    decreases targets.len() - i,
                {
                    ids.push(targets[i].id.clone());
                    i += 1;
                }
                proof {
                    assert(crate::text::texts(ids@) =~= Seq::new(
                        targets@.len(),
                        |i: int| self@.targets->0[i].id,
                    ));
                }
            },
            None => {
                proof {
                    assert(crate::text::texts(ids@) =~= Seq::empty());
                }
            },
        }
        ids
    }
}

impl ConfigReader {
    /// A reader for the configuration at the given path, or at the
    /// default place. Nothing is read yet.
    pub fn new(raw_config_path: Option<&str>) -> (res: Result<ConfigReader, CulperError>)
        ensures
            res matches Ok(reader) && reader.config is None && match raw_config_path {
                Some(val) => reader.path@ == val@,
                None => exists|home: Option<Seq<char>>| reader.path@ == default_config_path(home),
            },
    {
        let config_path = match raw_config_path {
            Some(val) => String::from_str(val),
            None => get_config_path(),
        };

        Ok(ConfigReader { path: config_path, config: None })
    }

    /// Adds a target after those that are known.
    pub fn add_target(&mut self, host: &str, id: &str) -> (res: Result<(), CulperError>)
        ensures
            final(self).path == old(self).path,
            match old(self).config {
                Some(config) => {
                    &&& res == Ok::<(), CulperError>(())
                    &&& final(self).config matches Some(after)
                    &&& after@ == (ConfigModel {
                        targets: appended(config@.targets, TargetModel { id: id@, host: host@ }),
                        ..config@
                    })
                },
                None => res matches Err(CulperError::RuntimeError(m)) && m@ == "Config is not set."@
                    && final(self).config is None,
            },
    {
        let target = TargetConfig { host: String::from_str(host), id: String::from_str(id) };
        match &mut self.config {
            Some(config) => {
                let ghost before = config@;
                match &mut config.targets {
                    None => {
                        let mut targets: Vec<TargetConfig> = Vec::new();
                        targets.push(target);
                        config.targets = Some(targets);
                    },
                    Some(targets) => {
                        targets.push(target);
                    },
                }
                proof {
                    assert(config@.targets->0 =~= appended(before.targets, target@)->0);
                }
                Ok(())
            },
            None => Err(CulperError::RuntimeError(String::from_str("Config is not set."))),
        }
    }

    /// Replaces the configuration.
    pub fn update(&mut self, new_config: CulperConfig)
        ensures
            final(self).path == old(self).path,
            final(self).config == Some(new_config),
    {
        self.config = Some(new_config);
    }
}

/// Where the configuration is kept when no path is given, for the home
/// directory that the environment names.
fn get_config_path() -> (path: String)
    ensures
        exists|home: Option<Seq<char>>| path@ == default_config_path(home),
{
    let home = home_directory();
    let ghost seen: Option<Seq<char>> = if home is Some {
        Some(home->0@)
    } else {
        None
    };
    let path = config_path_in(home);
    proof {
        assert(path@ == default_config_path(seen));
    }
    path
}

} // verus!
